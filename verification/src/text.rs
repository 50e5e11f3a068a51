//! Text helpers: decoding UTF-8, trimming trailing white space, joining lines.

use vstd::prelude::*;
use vstd::string::StringExecFns;
use vstd::string::StrSliceExecFns;
use vstd::utf8::{valid_utf8, decode_utf8};

verus! {

/// Decodes `bytes` as UTF-8.
///
/// Trusted: calls `String::from_utf8`, which accepts exactly the well-formed
/// UTF-8 byte strings (no overlong forms, no surrogates, nothing above
/// U+10FFFF) and then holds the characters they encode; the contract says
/// so through vstd's `valid_utf8` and `decode_utf8`.
#[verifier::external_body]
pub(crate) fn utf8_to_string(bytes: Vec<u8>) -> (res: Option<String>)
    ensures
        res is Some <==> valid_utf8(bytes@),
        res matches Some(s) ==> s@ == decode_utf8(bytes@),
{
    String::from_utf8(bytes).ok()
}

/// Whether `c` has the Unicode property White_Space.
pub open spec fn is_white_space(c: char) -> bool {
    let u = c as u32;
    ||| 0x9 <= u <= 0xd
    ||| u == 0x20
    ||| u == 0x85
    ||| u == 0xa0
    ||| u == 0x1680
    ||| 0x2000 <= u <= 0x200a
    ||| u == 0x2028
    ||| u == 0x2029
    ||| u == 0x202f
    ||| u == 0x205f
    ||| u == 0x3000
}

/// `s` without its trailing white space.
pub open spec fn trimmed_end(s: Seq<char>) -> Seq<char>
    decreases s.len(),
{
    if s.len() > 0 && is_white_space(s.last()) {
        trimmed_end(s.drop_last())
    } else {
        s
    }
}

/// The lines of `lines` joined into one text, a line feed between each two.
pub open spec fn joined_lines(lines: Seq<Seq<char>>) -> Seq<char>
    decreases lines.len(),
{
    if lines.len() == 0 {
        seq![]
    } else if lines.len() == 1 {
        lines[0]
    } else {
        joined_lines(lines.drop_last()) + seq!['\n'] + lines.last()
    }
}

/// Trailing white space added to a text is trimmed off again.
pub proof fn trimmed_end_ignores_white_suffix(s: Seq<char>, t: Seq<char>)
    requires
        forall|i: int| 0 <= i < t.len() ==> is_white_space(#[trigger] t[i]),
    ensures
        trimmed_end(s + t) == trimmed_end(s),
    decreases t.len(),
{
    if t.len() > 0 {
        assert((s + t).last() == t[t.len() - 1]);
        assert((s + t).drop_last() =~= s + t.drop_last());
        trimmed_end_ignores_white_suffix(s, t.drop_last());
    } else {
        assert(s + t =~= s);
    }
}

/// A trimmed text never ends in white space, and a text that does not end
/// in white space is its own trimmed form.
pub proof fn trimmed_end_has_no_white_end(s: Seq<char>)
    ensures
        trimmed_end(s).len() == 0 || !is_white_space(trimmed_end(s).last()),
        (s.len() == 0 || !is_white_space(s.last())) ==> trimmed_end(s) == s,
    decreases s.len(),
{
    if s.len() > 0 && is_white_space(s.last()) {
        trimmed_end_has_no_white_end(s.drop_last());
    }
}

/// The number of characters in all of `lines` together.
pub open spec fn total_len(lines: Seq<Seq<char>>) -> nat
    decreases lines.len(),
{
    if lines.len() == 0 {
        0
    } else {
        total_len(lines.drop_last()) + lines.last().len()
    }
}

proof fn joined_lines_layout(lines: Seq<Seq<char>>)
    requires
        lines.len() > 0,
    ensures
        joined_lines(lines).len() == total_len(lines) + lines.len() - 1,
        forall|i: int|
            0 <= i < lines.len() ==> joined_lines(lines).subrange(
                total_len(lines.take(i)) + i,
                total_len(lines.take(i)) + i + lines[i].len(),
            ) == #[trigger] lines[i],
        forall|i: int|
            0 <= i < lines.len() - 1 ==> joined_lines(lines)[total_len(#[trigger] lines.take(i + 1)) + i]
                == '\n',
    decreases lines.len(),
{
    let n = lines.len() - 1;
    assert(lines.take(n) =~= lines.drop_last());
    assert(lines.take(0) =~= Seq::<Seq<char>>::empty());
    if lines.len() == 1 {
        assert(joined_lines(lines).subrange(0, lines[0].len() as int) =~= lines[0]);
    } else {
        let before = lines.drop_last();
        let x = lines.last();
        joined_lines_layout(before);
        let jb = joined_lines(before);
        let j = joined_lines(lines);
        assert(j == jb + seq!['\n'] + x);
        assert(lines.take(n + 1) =~= lines);
        assert forall|i: int| 0 <= i < lines.len() implies j.subrange(
            total_len(lines.take(i)) + i,
            total_len(lines.take(i)) + i + lines[i].len(),
        ) == #[trigger] lines[i] by {
            if i < n {
                assert(lines.take(i) =~= before.take(i));
                assert(lines[i] == before[i]);
                let lo = total_len(before.take(i)) + i;
                let hi = lo + before[i].len();
                assert(jb.subrange(lo, hi) == before[i]);
                assert(hi <= jb.len()) by {
                    assert(before.take(i + 1).drop_last() =~= before.take(i));
                    assert(before.take(i + 1).last() == before[i]);
                    take_total_len_bound(before, i + 1);
                }
                assert(j.subrange(lo, hi) =~= jb.subrange(lo, hi));
            } else {
                assert(j.subrange(jb.len() as int + 1, j.len() as int) =~= x);
            }
        }
        assert forall|i: int| 0 <= i < lines.len() - 1 implies j[total_len(
            #[trigger] lines.take(i + 1),
        ) + i] == '\n' by {
            if i < n - 1 {
                assert(lines.take(i + 1) =~= before.take(i + 1));
                take_total_len_bound(before, i + 2);
                assert(before.take(i + 2).drop_last() =~= before.take(i + 1));
            } else {
                assert(lines.take(i + 1) =~= before);
            }
        }
    }
}

proof fn take_total_len_bound(lines: Seq<Seq<char>>, k: int)
    requires
        0 < k <= lines.len(),
    ensures
        total_len(lines.take(k)) + k - 1 <= total_len(lines) + lines.len() - 1,
    decreases lines.len(),
{
    if k < lines.len() {
        assert(lines.drop_last().take(k) =~= lines.take(k));
        take_total_len_bound(lines.drop_last(), k);
    } else {
        assert(lines.take(k) =~= lines);
    }
}

/// The menu text holds every line once, in order, with one line feed
/// between neighbours and nothing else: adding a line appends a line feed
/// and that line; the text is as long as all lines together plus one line
/// feed between each two; line `i` stands right after the lines before it
/// and their line feeds, and a line feed follows every line but the last.
pub proof fn joined_lines_hold_every_line(lines: Seq<Seq<char>>, x: Seq<char>)
    ensures
        joined_lines(Seq::<Seq<char>>::empty()) == Seq::<char>::empty(),
        joined_lines(seq![x]) == x,
        lines.len() > 0 ==> joined_lines(lines.push(x)) == joined_lines(lines) + seq!['\n'] + x,
        lines.len() > 0 ==> joined_lines(lines).len() == total_len(lines) + lines.len() - 1,
        forall|i: int|
            0 <= i < lines.len() ==> joined_lines(lines).subrange(
                total_len(lines.take(i)) + i,
                total_len(lines.take(i)) + i + lines[i].len(),
            ) == #[trigger] lines[i],
        forall|i: int|
            0 <= i < lines.len() - 1 ==> joined_lines(lines)[total_len(#[trigger] lines.take(i + 1)) + i]
                == '\n',
{
    assert(lines.push(x).drop_last() =~= lines);
    if lines.len() > 0 {
        joined_lines_layout(lines);
    }
}

/// Whether `c` is white space, as `char::is_whitespace` decides.
pub fn char_is_white_space(c: char) -> (res: bool)
    ensures
        res == is_white_space(c),
{
    let u = c as u32;
    (0x9 <= u && u <= 0xd) || u == 0x20 || u == 0x85 || u == 0xa0 || u == 0x1680 || (0x2000 <= u
        && u <= 0x200a) || u == 0x2028 || u == 0x2029 || u == 0x202f || u == 0x205f || u == 0x3000
}

proof fn trimmed_end_of_prefix(s: Seq<char>, k: int)
    requires
        0 <= k <= s.len(),
        forall|j: int| k <= j < s.len() ==> is_white_space(#[trigger] s[j]),
    ensures
        trimmed_end(s) == trimmed_end(s.subrange(0, k)),
    decreases s.len() - k,
{
    if k < s.len() {
        assert(is_white_space(s[s.len() - 1]));
        assert(s.last() == s[s.len() - 1]);
        trimmed_end_of_prefix(s.drop_last(), k);
        assert(s.drop_last().subrange(0, k) =~= s.subrange(0, k));
    } else {
        assert(s.subrange(0, k) =~= s);
    }
}

/// `s` without its trailing white space, as `str::trim_end` gives it.
pub fn trim_end(s: &str) -> (res: String)
    ensures
        res@ == trimmed_end(s@),
{
    let n = s.unicode_len();
    let mut k = n;
    while k > 0 && char_is_white_space(s.get_char(k - 1))
        invariant
            n == s@.len(),
            k <= n,
            forall|j: int| k <= j < n ==> is_white_space(#[trigger] s@[j]),
        decreases k,
    {
        k = k - 1;
    }
    proof {
        trimmed_end_of_prefix(s@, k as int);
        let p = s@.subrange(0, k as int);
        if k > 0 {
            assert(p.last() == s@[k - 1]);
        }
    }
    String::from_str(s.substring_char(0, k))
}

/// The lines joined into one text, a line feed between each two.
pub fn join_lines(lines: &Vec<String>) -> (res: String)
    ensures
        res@ == joined_lines(lines@.map_values(|l: String| l@)),
{
    let ghost views = lines@.map_values(|l: String| l@);
    let mut res = String::new();
    let mut i: usize = 0;
    while i < lines.len()
        invariant
            i <= lines.len(),
            views == lines@.map_values(|l: String| l@),
            res@ == joined_lines(views.take(i as int)),
        decreases lines.len() - i,
    {
        assert(views.take(i + 1).drop_last() =~= views.take(i as int));
        if i > 0 {
            res.append("\n");
            proof {
                reveal_strlit("\n");
            }
        }
        res.append(lines[i].as_str());
        i = i + 1;
    }
    assert(views.take(lines.len() as int) =~= views);
    res
}

} // verus!
