//! Directory entries as the song search sees them, and file name stems.

use vstd::prelude::*;

verus! {

/// What is kept of a directory entry once its metadata has been read.
/// Names and paths are the platform's bytes for them.
#[derive(Debug)]
pub struct CachedDirEntry {
    pub file_name: Vec<u8>,
    pub file_path: Vec<u8>,
    pub is_dir: bool,
    pub is_file: bool,
    pub size: u64,
}

/// The byte of a full stop.
pub const DOT: u8 = 0x2e;

/// The index of the last full stop in `name`, or -1 where there is none.
pub open spec fn last_dot(name: Seq<u8>) -> int
    decreases name.len(),
{
    if name.len() == 0 {
        -1
    } else if name.last() == DOT {
        name.len() - 1
    } else {
        last_dot(name.drop_last())
    }
}

/// The stem of a file name, as `Path::file_stem` gives it: the name up to
/// its last full stop; the whole name where it has no full stop, where its
/// only full stop leads it, or where it is "..".
pub open spec fn stem_of(name: Seq<u8>) -> Seq<u8> {
    if name =~= seq![DOT, DOT] || last_dot(name) <= 0 {
        name
    } else {
        name.subrange(0, last_dot(name))
    }
}

proof fn last_dot_of_prefix(name: Seq<u8>, k: int)
    requires
        0 <= k <= name.len(),
        forall|j: int| k <= j < name.len() ==> name[j] != DOT,
    ensures
        last_dot(name) == last_dot(name.subrange(0, k)),
    decreases name.len() - k,
{
    if k < name.len() {
        assert(name.last() != DOT);
        last_dot_of_prefix(name.drop_last(), k);
        assert(name.drop_last().subrange(0, k) =~= name.subrange(0, k));
    } else {
        assert(name.subrange(0, k) =~= name);
    }
}

/// The stem of a name followed by a full stop and an extension without a
/// full stop is that name, however long the extension; the one exception is
/// "..", which is its own stem.
pub proof fn stem_drops_the_extension(name: Seq<u8>, ext: Seq<u8>)
    requires
        name.len() > 0,
        !ext.contains(DOT),
        !(name =~= seq![DOT] && ext.len() == 0),
    ensures
        stem_of(name + seq![DOT] + ext) == name,
{
    let whole = name + seq![DOT] + ext;
    let k: int = name.len() as int + 1;
    assert forall|j: int| k <= j < whole.len() implies whole[j] != DOT by {
        assert(whole[j] == ext[j - k]);
    }
    last_dot_of_prefix(whole, k);
    let p = whole.subrange(0, k);
    assert(p.last() == DOT);
    assert(last_dot(p) == name.len());
    assert(whole.subrange(0, name.len() as int) =~= name);
    if whole =~= seq![DOT, DOT] {
        assert(whole.len() == 2);
        assert(name.len() == 1 && ext.len() == 0);
        assert(name[0] == whole[0]);
        assert(name =~= seq![DOT]);
    }
}

/// A name without a full stop is its own stem.
pub proof fn stem_of_name_without_dot(name: Seq<u8>)
    requires
        !name.contains(DOT),
    ensures
        stem_of(name) == name,
{
    last_dot_of_prefix(name, 0);
    assert(name.subrange(0, 0).len() == 0);
    if name =~= seq![DOT, DOT] {
        assert(name[0] == DOT);
    }
}

/// The stem of the file name `name`.
pub fn file_stem(name: &Vec<u8>) -> (stem: Vec<u8>)
    ensures
        stem@ == stem_of(name@),
{
    let n = name.len();
    let mut k = n;
    while k > 0 && name[k - 1] != DOT
        invariant
            n == name.len(),
            k <= n,
            forall|j: int| k <= j < n ==> name@[j] != DOT,
        decreases k,
    {
        k = k - 1;
    }
    proof {
        last_dot_of_prefix(name@, k as int);
        let p = name@.subrange(0, k as int);
        if k > 0 {
            assert(p.last() == name@[k - 1]);
            assert(last_dot(p) == k - 1);
        } else {
            assert(p.len() == 0);
        }
    }
    let is_double_dot = n == 2 && name[0] == DOT && name[1] == DOT;
    let end = if is_double_dot || k <= 1 {
        n
    } else {
        k - 1
    };
    let mut stem: Vec<u8> = Vec::new();
    let mut i: usize = 0;
    while i < end
        invariant
            end <= n,
            n == name.len(),
            i <= end,
            stem@ == name@.subrange(0, i as int),
        decreases end - i,
    {
        stem.push(name[i]);
        i = i + 1;
        assert(stem@ =~= name@.subrange(0, i as int));
    }
    proof {
        if is_double_dot {
            assert(name@ =~= seq![DOT, DOT]);
        } else if name@ =~= seq![DOT, DOT] {
            assert(name@[0] == DOT && name@[1] == DOT);
        }
        if end == n {
            assert(name@.subrange(0, n as int) =~= name@);
        }
    }
    stem
}

} // verus!
