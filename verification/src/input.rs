//! Choosing one of several options through a menu program (dmenu): what
//! goes to the menu, and what its answer selects.

use vstd::prelude::*;
use vstd::utf8::{valid_utf8, decode_utf8};
use crate::text::{utf8_to_string, trim_end, trimmed_end, join_lines, joined_lines};

verus! {

#[verifier::external_type_specification]
#[verifier::external_body]
pub struct ExIoError(std::io::Error);

/// Why no option was selected.
#[derive(Debug)]
pub enum SelectionError {
    /// The menu program could not be run or talked to.
    BadExecution { inner: std::io::Error },
    /// The menu was left without a choice.
    Cancelled,
    /// The answer is not one of the options.
    BadInput,
}

/// The options as plain text.
pub open spec fn option_texts(options: Seq<String>) -> Seq<Seq<char>> {
    options.map_values(|o: String| o@)
}

/// The text the menu program reads: the options, one per line, with no
/// line feed after the last.
pub fn menu_input(options: &Vec<String>) -> (text: String)
    ensures
        text@ == joined_lines(option_texts(options@)),
{
    join_lines(options)
}

/// What a menu run that ended normally and printed `output` selects: the
/// first option equal to the output without its trailing white space.
pub open spec fn answer_text(output: Seq<u8>) -> Seq<char> {
    trimmed_end(decode_utf8(output))
}

/// Reads the menu program's answer: `succeeded` tells whether it exited
/// with success, `output` is what it printed. Returns the index of the
/// selected option.
pub fn resolve_selection(options: &Vec<String>, succeeded: bool, output: Vec<u8>) -> (res: Result<
    usize,
    SelectionError,
>)
    ensures
        !succeeded ==> res matches Err(SelectionError::Cancelled),
        succeeded && !valid_utf8(output@) ==> res matches Err(SelectionError::BadInput),
        succeeded && valid_utf8(output@) ==> {
            &&& res matches Ok(i) ==> {
                &&& i < options.len()
                &&& options@[i as int]@ == answer_text(output@)
                &&& forall|j: int| 0 <= j < i ==> (#[trigger] options@[j])@ != answer_text(output@)
            }
            &&& res matches Err(e) ==> {
                &&& e is BadInput
                &&& forall|j: int|
                    0 <= j < options.len() ==> (#[trigger] options@[j])@ != answer_text(output@)
            }
        },
{
    if !succeeded {
        return Err(SelectionError::Cancelled);
    }
    let ghost bytes = output@;
    let decoded = match utf8_to_string(output) {
        Some(s) => s,
        None => {
            return Err(SelectionError::BadInput);
        },
    };
    let answer = trim_end(decoded.as_str());
    let mut i: usize = 0;
    while i < options.len()
        invariant
            i <= options.len(),
            succeeded,
            bytes == output@,
            valid_utf8(bytes),
            answer@ == answer_text(bytes),
            forall|j: int| 0 <= j < i ==> (#[trigger] options@[j])@ != answer_text(bytes),
        decreases options.len() - i,
    {
        if options[i] == answer {
            return Ok(i);
        }
        i = i + 1;
    }
    Err(SelectionError::BadInput)
}

} // verus!
