//! Finding songs, choosing one, checking it and reading its lines.

use vstd::prelude::*;
use vstd::utf8::{valid_utf8, decode_utf8, encode_utf8, encode_utf8_valid_utf8, encode_utf8_decode_utf8};
use crate::files::{CachedDirEntry, file_stem, stem_of};
use crate::input::{SelectionError, resolve_selection, answer_text};
use crate::text::{
    utf8_to_string,
    is_white_space,
    trimmed_end_ignores_white_suffix,
    trimmed_end_has_no_white_end,
};

verus! {

/// The largest song file accepted, in bytes.
pub const MAX_FILE_SIZE: u64 = 1000 * 1000;

/// How the song is chosen.
#[derive(Clone, Copy, Debug, PartialEq, Eq, Structural)]
pub enum SelectionType {
    /// At random.
    Random,
    /// By the user, through the menu program.
    DMenu,
}

impl SelectionType {
    /// The way of choosing that the `-s` flag asks for.
    pub fn from_flag(select: bool) -> (t: SelectionType)
        ensures
            select ==> t == SelectionType::DMenu,
            !select ==> t == SelectionType::Random,
    {
        if select {
            SelectionType::DMenu
        } else {
            SelectionType::Random
        }
    }
}

/// Why no song could be had.
#[derive(Debug)]
pub enum SongsError {
    /// The song folder does not exist.
    NoFolder,
    /// The song folder cannot be read.
    NoReadFolder { inner: std::io::Error },
    /// The song file cannot be read.
    NoReadFile { inner: std::io::Error },
    /// The chosen entry is not a file, or is too large.
    BadFile,
}

/// A song file may be used: it is a file of at most `MAX_FILE_SIZE` bytes.
pub open spec fn is_usable_song(entry: CachedDirEntry) -> bool {
    entry.is_file && entry.size <= MAX_FILE_SIZE
}

/// Checks that `entry` is a file that is not too large.
pub fn check_song_file(entry: &CachedDirEntry) -> (res: Result<(), SongsError>)
    ensures
        res is Ok <==> is_usable_song(*entry),
        res matches Err(e) ==> e is BadFile,
{
    if !entry.is_file {
        return Err(SongsError::BadFile);
    }
    if entry.size > MAX_FILE_SIZE {
        return Err(SongsError::BadFile);
    }
    Ok(())
}

/// The subfolders among `items`, in order.
pub open spec fn folders_of(items: Seq<CachedDirEntry>) -> Seq<CachedDirEntry> {
    items.filter(|e: CachedDirEntry| e.is_dir)
}

/// The files among `items`, in order.
pub open spec fn files_of(items: Seq<CachedDirEntry>) -> Seq<CachedDirEntry> {
    items.filter(|e: CachedDirEntry| e.is_file)
}

proof fn filter_take_step<A>(s: Seq<A>, p: spec_fn(A) -> bool, k: int)
    requires
        0 <= k < s.len(),
    ensures
        s.take(k + 1).filter(p) == if p(s[k]) {
            s.take(k).filter(p).push(s[k])
        } else {
            s.take(k).filter(p)
        },
{
    reveal_with_fuel(Seq::filter, 1);
    assert(s.take(k + 1).drop_last() =~= s.take(k));
    assert(s.take(k + 1).last() == s[k]);
}

/// The folders searched are exactly the listed items whose folder flag is
/// set, whatever their other fields, in listing order: an empty listing has
/// none, and one more item adds itself exactly when it is a folder.
pub proof fn folders_are_the_listed_folders(items: Seq<CachedDirEntry>, e: CachedDirEntry)
    ensures
        folders_of(Seq::<CachedDirEntry>::empty()) == Seq::<CachedDirEntry>::empty(),
        folders_of(items.push(e)) == if e.is_dir {
            folders_of(items).push(e)
        } else {
            folders_of(items)
        },
        forall|i: int| 0 <= i < items.len() && (#[trigger] items[i]).is_dir ==> folders_of(
            items,
        ).contains(items[i]),
        forall|f: CachedDirEntry| #[trigger] folders_of(items).contains(f) ==> f.is_dir && items.contains(f),
        (forall|i: int| 0 <= i < items.len() ==> (#[trigger] items[i]).is_dir) ==> folders_of(items) == items,
{
    reveal_with_fuel(Seq::filter, 1);
    let p = |x: CachedDirEntry| x.is_dir;
    assert(items.push(e).drop_last() =~= items);
    assert forall|i: int| 0 <= i < items.len() && (#[trigger] items[i]).is_dir implies folders_of(
        items,
    ).contains(items[i]) by {
        items.lemma_filter_contains(p, i);
    }
    assert forall|f: CachedDirEntry| #[trigger] folders_of(items).contains(f) implies f.is_dir
        && items.contains(f) by {
        let j = choose|j: int| 0 <= j < folders_of(items).len() && folders_of(items)[j] == f;
        items.lemma_filter_pred(p, j);
        items.lemma_filter_contains_rev(p, f);
    }
    if forall|i: int| 0 <= i < items.len() ==> (#[trigger] items[i]).is_dir {
        all_kept(items, p);
    }
}

/// The files added are exactly the listed items whose file flag is set,
/// whatever their other fields, in listing order.
pub proof fn files_are_the_listed_files(items: Seq<CachedDirEntry>, e: CachedDirEntry)
    ensures
        files_of(Seq::<CachedDirEntry>::empty()) == Seq::<CachedDirEntry>::empty(),
        files_of(items.push(e)) == if e.is_file {
            files_of(items).push(e)
        } else {
            files_of(items)
        },
        forall|i: int| 0 <= i < items.len() && (#[trigger] items[i]).is_file ==> files_of(
            items,
        ).contains(items[i]),
        forall|f: CachedDirEntry| #[trigger] files_of(items).contains(f) ==> f.is_file && items.contains(f),
        (forall|i: int| 0 <= i < items.len() ==> (#[trigger] items[i]).is_file) ==> files_of(items) == items,
{
    reveal_with_fuel(Seq::filter, 1);
    let p = |x: CachedDirEntry| x.is_file;
    assert(items.push(e).drop_last() =~= items);
    assert forall|i: int| 0 <= i < items.len() && (#[trigger] items[i]).is_file implies files_of(
        items,
    ).contains(items[i]) by {
        items.lemma_filter_contains(p, i);
    }
    assert forall|f: CachedDirEntry| #[trigger] files_of(items).contains(f) implies f.is_file
        && items.contains(f) by {
        let j = choose|j: int| 0 <= j < files_of(items).len() && files_of(items)[j] == f;
        items.lemma_filter_pred(p, j);
        items.lemma_filter_contains_rev(p, f);
    }
    if forall|i: int| 0 <= i < items.len() ==> (#[trigger] items[i]).is_file {
        all_kept(items, p);
    }
}

proof fn all_kept<A>(s: Seq<A>, p: spec_fn(A) -> bool)
    requires
        forall|i: int| 0 <= i < s.len() ==> p(#[trigger] s[i]),
    ensures
        s.filter(p) == s,
    decreases s.len(),
{
    reveal_with_fuel(Seq::filter, 1);
    if s.len() > 0 {
        let t = s.drop_last();
        assert forall|i: int| 0 <= i < t.len() implies p(#[trigger] t[i]) by {
            assert(t[i] == s[i]);
        }
        all_kept(t, p);
        assert(p(s[s.len() - 1]));
        assert(t.push(s.last()) =~= s);
    }
}

/// The folders to look for songs in: the subfolders among the items of the
/// song folder, in order, then the song folder itself.
pub fn song_folders(items: Vec<CachedDirEntry>, main_folder: CachedDirEntry) -> (folders: Vec<
    CachedDirEntry,
>)
    ensures
        folders@ == folders_of(items@).push(main_folder),
{
    let ghost all = items@;
    let mut rest = items;
    let total = rest.len();
    let mut folders: Vec<CachedDirEntry> = Vec::new();
    let mut k: usize = 0;
    while rest.len() > 0
        invariant
            k + rest.len() == all.len(),
            all.len() == total,
            rest@ == all.skip(k as int),
            folders@ == folders_of(all.take(k as int)),
        decreases rest.len(),
    {
        let e = rest.remove(0);
        proof {
            assert(e == all[k as int]);
            filter_take_step(all, |e: CachedDirEntry| e.is_dir, k as int);
        }
        if e.is_dir {
            folders.push(e);
        }
        k = k + 1;
        assert(rest@ =~= all.skip(k as int));
    }
    assert(all.take(k as int) =~= all);
    folders.push(main_folder);
    folders
}

/// Adds the files among `listing`, in order, to `songs`.
pub fn add_song_files(songs: &mut Vec<CachedDirEntry>, listing: Vec<CachedDirEntry>)
    ensures
        final(songs)@ == old(songs)@ + files_of(listing@),
{
    let ghost all = listing@;
    let ghost start = songs@;
    let mut rest = listing;
    let total = rest.len();
    let mut k: usize = 0;
    while rest.len() > 0
        invariant
            k + rest.len() == all.len(),
            all.len() == total,
            rest@ == all.skip(k as int),
            songs@ == start + files_of(all.take(k as int)),
        decreases rest.len(),
    {
        let e = rest.remove(0);
        proof {
            assert(e == all[k as int]);
            filter_take_step(all, |e: CachedDirEntry| e.is_file, k as int);
        }
        if e.is_file {
            songs.push(e);
        }
        k = k + 1;
        assert(rest@ =~= all.skip(k as int));
        assert(songs@ =~= start + files_of(all.take(k as int)));
    }
    assert(all.take(k as int) =~= all);
}

#[verifier::external_type_specification]
#[verifier::external_body]
pub struct ExThreadRng(rand::rngs::ThreadRng);

/// The random number generator of the current thread.
///
/// Trusted: calls `rand::thread_rng`; nothing is stated of the generator.
#[verifier::external_body]
fn thread_rng() -> rand::rngs::ThreadRng {
    rand::thread_rng()
}

/// One of `items`, drawn at random.
///
/// Trusted: calls `SliceRandom::choose` of rand, which returns `None` for an
/// empty slice and otherwise a reference to the element at an index drawn
/// from `0..items.len()`; which element comes back is left open.
#[verifier::external_body]
fn choose_from<'a, T>(items: &'a [T], rng: &mut rand::rngs::ThreadRng) -> (res: Option<&'a T>)
    ensures
        res is None <==> items@.len() == 0,
        res matches Some(x) ==> exists|i: int| 0 <= i < items@.len() && items@[i] == *x,
{
    rand::seq::SliceRandom::choose(items, rng)
}

/// One of `songs`, drawn at random; `None` when there is none.
pub fn select_random_song(songs: &Vec<CachedDirEntry>) -> (res: Option<&CachedDirEntry>)
    ensures
        res is None <==> songs@.len() == 0,
        res matches Some(song) ==> songs@.contains(*song),
{
    let mut rng = thread_rng();
    let res = choose_from(songs.as_slice(), &mut rng);
    proof {
        if let Some(song) = res {
            let i = choose|i: int| 0 <= i < songs@.len() && songs@[i] == *song;
            assert(songs@[i] == *song);
        }
    }
    res
}

/// The menu entry of a song: the stem of its file name, read as UTF-8.
pub open spec fn menu_entry(song: CachedDirEntry) -> Seq<char> {
    decode_utf8(stem_of(song.file_name@))
}

/// `menu` lists the songs by the stems of their file names, in order.
pub open spec fn is_menu_of(menu: Seq<String>, songs: Seq<CachedDirEntry>) -> bool {
    &&& menu.len() == songs.len()
    &&& forall|i: int| 0 <= i < songs.len() ==> (#[trigger] menu[i])@ == menu_entry(songs[i])
}

/// The menu the user chooses a song from: the stems of the songs' file
/// names. `None` when a stem is not UTF-8 text.
pub fn song_menu(songs: &Vec<CachedDirEntry>) -> (menu: Option<Vec<String>>)
    ensures
        menu is Some <==> forall|i: int|
            0 <= i < songs@.len() ==> valid_utf8(stem_of((#[trigger] songs@[i]).file_name@)),
        menu matches Some(m) ==> is_menu_of(m@, songs@),
{
    let mut menu: Vec<String> = Vec::new();
    let mut i: usize = 0;
    while i < songs.len()
        invariant
            i <= songs.len(),
            menu@.len() == i,
            forall|j: int| 0 <= j < i ==> valid_utf8(stem_of((#[trigger] songs@[j]).file_name@)),
            forall|j: int| 0 <= j < i ==> (#[trigger] menu@[j])@ == menu_entry(songs@[j]),
        decreases songs.len() - i,
    {
        let stem = file_stem(&songs[i].file_name);
        match utf8_to_string(stem) {
            Some(text) => {
                menu.push(text);
            },
            None => {
                return None;
            },
        }
        i = i + 1;
    }
    Some(menu)
}

/// The song the user chose from `menu`: `succeeded` tells whether the menu
/// program exited with success, `output` is what it printed. With the menu of
/// `songs` (see `song_menu`), the song chosen is the first whose entry equals
/// the output without its trailing white space.
pub fn get_song_selection<'a>(
    songs: &'a Vec<CachedDirEntry>,
    menu: &Vec<String>,
    succeeded: bool,
    output: Vec<u8>,
) -> (res: Result<&'a CachedDirEntry, SelectionError>)
    requires
        menu@.len() == songs@.len(),
    ensures
        !succeeded ==> res matches Err(SelectionError::Cancelled),
        succeeded && !valid_utf8(output@) ==> res matches Err(SelectionError::BadInput),
        succeeded && valid_utf8(output@) ==> {
            &&& res matches Ok(song) ==> exists|i: int|
                {
                    &&& 0 <= i < songs@.len()
                    &&& *song == songs@[i]
                    &&& (#[trigger] menu@[i])@ == answer_text(output@)
                    &&& forall|j: int| 0 <= j < i ==> (#[trigger] menu@[j])@ != answer_text(output@)
                }
            &&& res matches Err(e) ==> {
                &&& e is BadInput
                &&& forall|j: int|
                    0 <= j < menu@.len() ==> (#[trigger] menu@[j])@ != answer_text(output@)
            }
        },
{
    let ghost bytes = output@;
    match resolve_selection(menu, succeeded, output) {
        Ok(i) => {
            assert(menu@[i as int]@ == answer_text(bytes));
            Ok(&songs[i])
        },
        Err(e) => Err(e),
    }
}

/// Answering the menu with a song's entry followed by any white space (the
/// menu program ends its answer with a line feed) is read as that entry, so
/// `get_song_selection` picks that song, or an earlier one with the same
/// entry; this holds for every entry that does not end in white space.
pub proof fn menu_answer_is_the_entry(
    songs: Seq<CachedDirEntry>,
    menu: Seq<String>,
    k: int,
    trailing: Seq<char>,
)
    requires
        is_menu_of(menu, songs),
        0 <= k < songs.len(),
        menu[k]@.len() == 0 || !is_white_space(menu[k]@.last()),
        forall|i: int| 0 <= i < trailing.len() ==> is_white_space(#[trigger] trailing[i]),
    ensures
        valid_utf8(encode_utf8(menu[k]@ + trailing)),
        answer_text(encode_utf8(menu[k]@ + trailing)) == menu[k]@,
        answer_text(encode_utf8(menu[k]@ + trailing)) == menu_entry(songs[k]),
{
    let text = menu[k]@ + trailing;
    encode_utf8_valid_utf8(text);
    encode_utf8_decode_utf8(text);
    trimmed_end_ignores_white_suffix(menu[k]@, trailing);
    trimmed_end_has_no_white_end(menu[k]@);
}

/// No answer of the menu program selects an entry that ends in white space:
/// the answer is compared once its trailing white space is gone.
pub proof fn entry_ending_in_white_space_is_never_selected(output: Seq<u8>, entry: Seq<char>)
    requires
        entry.len() > 0,
        is_white_space(entry.last()),
    ensures
        answer_text(output) != entry,
{
    trimmed_end_has_no_white_end(decode_utf8(output));
}

/// The line feed byte.
pub const LINE_FEED: u8 = 0x0a;

/// The carriage return byte.
pub const CARRIAGE_RETURN: u8 = 0x0d;

/// A line as it was terminated by a line feed, without the carriage return
/// that may stand before it.
pub open spec fn without_carriage_return(line: Seq<u8>) -> Seq<u8> {
    if line.len() > 0 && line.last() == CARRIAGE_RETURN {
        line.drop_last()
    } else {
        line
    }
}

/// `lines` with the line `line` added where it is UTF-8 text; a line that is
/// not is skipped.
pub open spec fn keep_text_line(lines: Seq<Seq<char>>, line: Seq<u8>) -> Seq<Seq<char>> {
    if valid_utf8(line) {
        lines.push(decode_utf8(line))
    } else {
        lines
    }
}

/// Reading `bytes` from the start: the text lines completed so far, and the
/// bytes of the line not yet ended by a line feed.
pub open spec fn line_scan(bytes: Seq<u8>) -> (Seq<Seq<char>>, Seq<u8>)
    decreases bytes.len(),
{
    if bytes.len() == 0 {
        (seq![], seq![])
    } else {
        let before = line_scan(bytes.drop_last());
        if bytes.last() == LINE_FEED {
            (keep_text_line(before.0, without_carriage_return(before.1)), seq![])
        } else {
            (before.0, before.1.push(bytes.last()))
        }
    }
}

/// The text lines of a song file, as reading it line by line gives them:
/// lines end at a line feed, which is dropped with a carriage return before
/// it; a last line without a line feed counts where it is not empty; lines
/// that are not UTF-8 text are skipped.
pub open spec fn song_lines(bytes: Seq<u8>) -> Seq<Seq<char>> {
    let scan = line_scan(bytes);
    if scan.1.len() == 0 {
        scan.0
    } else {
        keep_text_line(scan.0, scan.1)
    }
}

/// The text of each line in `lines`.
pub open spec fn line_texts(lines: Seq<String>) -> Seq<Seq<char>> {
    lines.map_values(|l: String| l@)
}

/// Adds `line` to `lines` where it is UTF-8 text.
fn push_text_line(lines: &mut Vec<String>, line: Vec<u8>)
    ensures
        line_texts(final(lines)@) == keep_text_line(line_texts(old(lines)@), line@),
{
    let ghost bytes = line@;
    match utf8_to_string(line) {
        Some(text) => {
            lines.push(text);
            assert(line_texts(lines@) =~= line_texts(old(lines)@).push(decode_utf8(bytes)));
        },
        None => {},
    }
}

/// The text lines of the song file whose content is `bytes`.
pub fn read_song_lines(bytes: &[u8]) -> (lines: Vec<String>)
    ensures
        line_texts(lines@) == song_lines(bytes@),
{
    let mut lines: Vec<String> = Vec::new();
    let mut current: Vec<u8> = Vec::new();
    let mut i: usize = 0;
    while i < bytes.len()
        invariant
            i <= bytes@.len(),
            line_texts(lines@) == line_scan(bytes@.take(i as int)).0,
            current@ == line_scan(bytes@.take(i as int)).1,
        decreases bytes.len() - i,
    {
        let b = bytes[i];
        assert(bytes@.take(i + 1).drop_last() =~= bytes@.take(i as int));
        assert(bytes@.take(i + 1).last() == b);
        if b == LINE_FEED {
            let mut line = current;
            current = Vec::new();
            if line.len() > 0 && line[line.len() - 1] == CARRIAGE_RETURN {
                line.pop();
                assert(line@ =~= without_carriage_return(line_scan(bytes@.take(i as int)).1));
            }
            push_text_line(&mut lines, line);
        } else {
            current.push(b);
        }
        i = i + 1;
    }
    assert(bytes@.take(i as int) =~= bytes@);
    if current.len() > 0 {
        push_text_line(&mut lines, current);
    }
    lines
}

/// A file made of the given lines, each followed by a line feed.
pub open spec fn lines_file(lines: Seq<Seq<u8>>) -> Seq<u8>
    decreases lines.len(),
{
    if lines.len() == 0 {
        seq![]
    } else {
        lines_file(lines.drop_last()) + lines.last() + seq![LINE_FEED]
    }
}

/// A line that reads back as itself: UTF-8 text without a line feed, and
/// not ending in a carriage return.
pub open spec fn is_plain_line(line: Seq<u8>) -> bool {
    &&& valid_utf8(line)
    &&& !line.contains(LINE_FEED)
    &&& (line.len() == 0 || line.last() != CARRIAGE_RETURN)
}

proof fn line_scan_extends(prefix: Seq<u8>, line: Seq<u8>)
    requires
        !line.contains(LINE_FEED),
    ensures
        line_scan(prefix + line) == (line_scan(prefix).0, line_scan(prefix).1 + line),
    decreases line.len(),
{
    if line.len() == 0 {
        assert(prefix + line =~= prefix);
        assert(line_scan(prefix).1 + line =~= line_scan(prefix).1);
    } else {
        let shorter = line.drop_last();
        assert(!shorter.contains(LINE_FEED)) by {
            if shorter.contains(LINE_FEED) {
                let i = choose|i: int| 0 <= i < shorter.len() && shorter[i] == LINE_FEED;
                assert(line[i] == LINE_FEED);
            }
        }
        line_scan_extends(prefix, shorter);
        assert((prefix + line).drop_last() =~= prefix + shorter);
        assert((prefix + line).last() == line.last());
        assert(line[line.len() - 1] != LINE_FEED);
        assert(line_scan(prefix).1 + shorter + seq![line.last()] =~= line_scan(prefix).1 + line);
    }
}

proof fn line_scan_of_lines_file(lines: Seq<Seq<u8>>)
    requires
        forall|i: int| 0 <= i < lines.len() ==> is_plain_line(#[trigger] lines[i]),
    ensures
        line_scan(lines_file(lines)).0 == lines.map_values(|l: Seq<u8>| decode_utf8(l)),
        line_scan(lines_file(lines)).1 == Seq::<u8>::empty(),
    decreases lines.len(),
{
    if lines.len() > 0 {
        let before = lines.drop_last();
        let line = lines.last();
        assert(is_plain_line(lines[lines.len() - 1]));
        line_scan_of_lines_file(before);
        let p = lines_file(before);
        line_scan_extends(p, line);
        assert(line_scan(p).1 + line =~= line);
        let whole = p + line + seq![LINE_FEED];
        assert(whole.drop_last() =~= p + line);
        assert(whole.last() == LINE_FEED);
        assert(without_carriage_return(line) == line);
        assert(lines.map_values(|l: Seq<u8>| decode_utf8(l)) =~= before.map_values(
            |l: Seq<u8>| decode_utf8(l),
        ).push(decode_utf8(line)));
    } else {
        assert(lines.map_values(|l: Seq<u8>| decode_utf8(l)) =~= seq![]);
    }
}

/// A song file of text lines, each ended by a line feed, reads back line for
/// line.
pub proof fn text_lines_read_back(lines: Seq<Seq<u8>>)
    requires
        forall|i: int| 0 <= i < lines.len() ==> is_plain_line(#[trigger] lines[i]),
    ensures
        song_lines(lines_file(lines)) == lines.map_values(|l: Seq<u8>| decode_utf8(l)),
{
    line_scan_of_lines_file(lines);
}

} // verus!
