//! The system clipboard: putting a line on it and clearing it.

use vstd::prelude::*;

verus! {

#[verifier::external_type_specification]
#[verifier::external_body]
pub struct ExClipboard(arboard::Clipboard);

#[verifier::external_type_specification]
#[verifier::external_body]
pub struct ExArboardError(arboard::Error);

/// A clipboard operation that failed, with the clipboard library's reason.
#[derive(Debug)]
pub enum ClipboardError {
    /// The clipboard could not be opened.
    Open(arboard::Error),
    /// The clipboard could not be cleared.
    Clear(arboard::Error),
    /// The text could not be put on the clipboard.
    Paste(arboard::Error),
}

/// Opens the system clipboard.
///
/// Trusted: calls `arboard::Clipboard::new`; whether it succeeds depends on
/// the system, so nothing is stated of the result.
#[verifier::external_body]
fn open_clipboard() -> Result<arboard::Clipboard, arboard::Error> {
    arboard::Clipboard::new()
}

/// The clipboard, with a record of the calls made through it.
pub struct ClipboardWrapper {
    clipboard: arboard::Clipboard,
    offered: Ghost<Option<Seq<char>>>,
}

/// Puts `text` on the clipboard.
///
/// Trusted: calls `arboard::Clipboard::set_text` with `text`. Whether the
/// call succeeds depends on the system and is not stated; what is stated is
/// the record it leaves: after a success the wrapper's record is `text`,
/// after a failure it is unchanged.
#[verifier::external_body]
fn set_clipboard_text(wrapper: &mut ClipboardWrapper, text: &str) -> (res: Result<(), arboard::Error>)
    ensures
        res is Ok ==> final(wrapper).offered_text() == Some(text@),
        res is Err ==> final(wrapper).offered_text() == old(wrapper).offered_text(),
{
    wrapper.clipboard.set_text(text)
}

/// Clears the clipboard.
///
/// Trusted: calls `arboard::Clipboard::clear`. Whether the call succeeds
/// depends on the system and is not stated; what is stated is the record it
/// leaves: after a success the wrapper's record is empty, after a failure it
/// is unchanged.
#[verifier::external_body]
fn clear_clipboard_contents(wrapper: &mut ClipboardWrapper) -> (res: Result<(), arboard::Error>)
    ensures
        res is Ok ==> final(wrapper).offered_text() is None,
        res is Err ==> final(wrapper).offered_text() == old(wrapper).offered_text(),
{
    wrapper.clipboard.clear()
}

impl ClipboardWrapper {
    /// The text handed to the last successful call through this wrapper
    /// that put text on the clipboard, or `None` when the last successful
    /// call cleared it or there has been none. It records the calls made,
    /// not what the system clipboard holds: other programs may change that.
    pub closed spec fn offered_text(&self) -> Option<Seq<char>> {
        self.offered@
    }

    /// Opens the clipboard.
    pub fn new() -> (res: Result<ClipboardWrapper, ClipboardError>)
        ensures
            res matches Ok(w) ==> w.offered_text() is None,
            res matches Err(e) ==> e is Open,
    {
        match open_clipboard() {
            Ok(clipboard) => Ok(ClipboardWrapper { clipboard, offered: Ghost(None) }),
            Err(e) => Err(ClipboardError::Open(e)),
        }
    }

    /// Clears the clipboard.
    pub fn clear(&mut self) -> (res: Result<(), ClipboardError>)
        ensures
            res is Ok ==> final(self).offered_text() is None,
            res matches Err(e) ==> e is Clear && final(self).offered_text() == old(self).offered_text(),
    {
        match clear_clipboard_contents(self) {
            Ok(()) => Ok(()),
            Err(e) => Err(ClipboardError::Clear(e)),
        }
    }

    /// Puts `content` on the clipboard.
    pub fn paste(&mut self, content: &str) -> (res: Result<(), ClipboardError>)
        ensures
            res is Ok ==> final(self).offered_text() == Some(content@),
            res matches Err(e) ==> e is Paste && final(self).offered_text() == old(self).offered_text(),
    {
        match set_clipboard_text(self, content) {
            Ok(()) => Ok(()),
            Err(e) => Err(ClipboardError::Paste(e)),
        }
    }
}

/// Clears the clipboard.
pub fn clear_clipboard(clipboard: &mut ClipboardWrapper) -> (res: Result<(), ClipboardError>)
    ensures
        res is Ok ==> final(clipboard).offered_text() is None,
        res matches Err(e) ==> e is Clear && final(clipboard).offered_text() == old(clipboard).offered_text(),
{
    clipboard.clear()
}

/// Puts `content` on the clipboard.
pub fn paste_clipboard(clipboard: &mut ClipboardWrapper, content: &str) -> (res: Result<
    (),
    ClipboardError,
>)
    ensures
        res is Ok ==> final(clipboard).offered_text() == Some(content@),
        res matches Err(e) ==> e is Paste && final(clipboard).offered_text() == old(clipboard).offered_text(),
{
    clipboard.paste(content)
}

} // verus!
