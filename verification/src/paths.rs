//! File system paths, with `/` between their parts: as text, or as the bytes of
//! paths that need not be text.

use vstd::prelude::*;
use vstd::slice::*;
use vstd::string::*;

verus! {

/// The path `tail`, seen from the directory `base`: an absolute `tail` stands
/// for itself, any other is put behind `base` with one separator between them.
pub open spec fn joined(base: Seq<char>, tail: Seq<char>) -> Seq<char> {
    if tail.len() > 0 && tail[0] == '/' {
        tail
    } else if base.len() == 0 || base.last() == '/' {
        base + tail
    } else {
        base.push('/') + tail
    }
}

/// The path `tail`, seen from the directory `base`.
pub fn join(base: &str, tail: &str) -> (path: String)
    ensures
        path@ == joined(base@, tail@),
{
    let base_len: usize = base.unicode_len();
    if !tail.is_empty() && tail.get_char(0) == '/' {
        tail.to_string()
    } else if base_len == 0 || base.get_char(base_len - 1) == '/' {
        base.to_string().concat(tail)
    } else {
        proof {
            reveal_strlit("/");
        }
        assert(base@.push('/') == base@ + "/"@);
        base.to_string().concat("/").concat(tail)
    }
}

/// The byte of `/`.
pub const SEPARATOR: u8 = 0x2f;

/// The byte of `.`.
pub const DOT: u8 = 0x2e;

/// The parts of a path: what stands between its separators, before the first and
/// behind the last, whether empty or not.
pub open spec fn path_parts(path: Seq<u8>) -> Seq<Seq<u8>>
    decreases path.len(),
{
    if path.len() == 0 {
        seq![Seq::empty()]
    } else {
        let before = path_parts(path.drop_last());
        if path.last() == SEPARATOR {
            before.push(Seq::empty())
        } else {
            before.drop_last().push(before.last().push(path.last()))
        }
    }
}

/// Whether a part of a path leads anywhere: an empty one and `.` do not.
pub open spec fn leads(part: Seq<u8>) -> bool {
    part.len() > 0 && part != seq![DOT]
}

/// The last part that leads anywhere.
pub open spec fn last_leading(parts: Seq<Seq<u8>>) -> Option<Seq<u8>>
    decreases parts.len(),
{
    if parts.len() == 0 {
        None
    } else if leads(parts.last()) {
        Some(parts.last())
    } else {
        last_leading(parts.drop_last())
    }
}

/// The name of the file at a path: its last part that leads anywhere, unless that
/// is `..`.
pub open spec fn file_name_of(path: Seq<u8>) -> Option<Seq<u8>> {
    match last_leading(path_parts(path)) {
        Some(part) if part != seq![DOT, DOT] => Some(part),
        _ => None,
    }
}

/// Whether a path names something in a directory: it has a part that leads
/// anywhere, or starts with the part `.`; the empty path and the root do not.
pub open spec fn has_parent_dir(path: Seq<u8>) -> bool {
    ||| last_leading(path_parts(path)) is Some
    ||| path.len() > 0 && path[0] == DOT && (path.len() == 1 || path[1] == SEPARATOR)
}

/// Whether the part of a path from `start` to `end` leads anywhere.
fn part_leads(path: &[u8], start: usize, end: usize) -> (yes: bool)
    requires
        start <= end <= path@.len(),
    ensures
        yes == leads(path@.subrange(start as int, end as int)),
{
    let ghost part = path@.subrange(start as int, end as int);
    if end - start == 1 {
        assert(part =~= seq![path@[start as int]]);
        assert(part == seq![DOT] ==> part[0] == DOT);
        path[start] != DOT
    } else {
        assert(part.len() != 1);
        end > start
    }
}

/// The place of the last part of a path that leads anywhere.
fn last_part(path: &[u8]) -> (place: Option<(usize, usize)>)
    ensures
        match place {
            Some((start, end)) => start <= end <= path@.len() && last_leading(path_parts(path@))
                == Some(path@.subrange(start as int, end as int)),
            None => last_leading(path_parts(path@)) is None,
        },
{
    let len: usize = path.len();
    let mut found: Option<(usize, usize)> = None;
    let mut start: usize = 0;
    let mut i: usize = 0;
    proof {
        let parts = path_parts(path@.take(0));
        assert(parts.drop_last() =~= Seq::<Seq<u8>>::empty());
        assert(parts.last() =~= path@.subrange(0, 0));
    }
    while i < len
        invariant
            start <= i <= len,
            len == path@.len(),
            path_parts(path@.take(i as int)).len() > 0,
            path_parts(path@.take(i as int)).last() == path@.subrange(start as int, i as int),
            match found {
                Some((from, to)) => from <= to <= len && last_leading(
                    path_parts(path@.take(i as int)).drop_last(),
                ) == Some(path@.subrange(from as int, to as int)),
                None => last_leading(path_parts(path@.take(i as int)).drop_last()) is None,
            },
        decreases len - i,
    {
        let ghost before = path_parts(path@.take(i as int));
        let ghost after = path_parts(path@.take(i + 1));
        assert(path@.take(i + 1).drop_last() =~= path@.take(i as int));
        if path[i] == SEPARATOR {
            if part_leads(path, start, i) {
                found = Some((start, i));
            }
            assert(after.drop_last() =~= before);
            start = i + 1;
            assert(after.last() =~= path@.subrange(start as int, i + 1));
        } else {
            assert(after.drop_last() =~= before.drop_last());
            assert(after.last() =~= path@.subrange(start as int, i + 1));
        }
        i = i + 1;
    }
    assert(path@.take(len as int) =~= path@);
    if part_leads(path, start, len) {
        Some((start, len))
    } else {
        found
    }
}

/// The name of the file at a path.
pub fn file_name(path: &[u8]) -> (name: Option<Vec<u8>>)
    ensures
        match (file_name_of(path@), name) {
            (Some(expected), Some(name)) => name@ == expected,
            (None, None) => true,
            _ => false,
        },
{
    match last_part(path) {
        Some((start, end)) => {
            let ghost part = path@.subrange(start as int, end as int);
            if end - start == 2 && path[start] == DOT && path[start + 1] == DOT {
                assert(part =~= seq![DOT, DOT]);
                None
            } else {
                assert(part.len() == 2 ==> part[0] == path@[start as int] && part[1] == path@[start
                    + 1]);
                assert(part != seq![DOT, DOT]);
                Some(slice_to_vec(slice_subrange(path, start, end)))
            }
        },
        None => None,
    }
}

/// Whether a path names something in a directory.
pub fn has_parent(path: &[u8]) -> (yes: bool)
    ensures
        yes == has_parent_dir(path@),
{
    let len: usize = path.len();
    last_part(path).is_some() || (len > 0 && path[0] == DOT && (len == 1 || path[1] == SEPARATOR))
}

/// Every path has a part.
proof fn lemma_some_part(path: Seq<u8>)
    ensures
        path_parts(path).len() > 0,
    decreases path.len(),
{
    if path.len() > 0 {
        lemma_some_part(path.drop_last());
    }
}

/// Bytes without a separator that are put behind a path are put behind its last part.
proof fn lemma_parts_of_tail(path: Seq<u8>, tail: Seq<u8>)
    requires
        !tail.contains(SEPARATOR),
    ensures
        path_parts(path).len() > 0,
        path_parts(path + tail) == path_parts(path).drop_last().push(
            path_parts(path).last() + tail,
        ),
    decreases tail.len(),
{
    lemma_some_part(path);
    let parts = path_parts(path);
    if tail.len() == 0 {
        assert(path + tail =~= path);
        assert(parts.last() + tail =~= parts.last());
        assert(parts.drop_last().push(parts.last()) =~= parts);
    } else {
        let shorter = tail.drop_last();
        assert(!shorter.contains(SEPARATOR)) by {
            if shorter.contains(SEPARATOR) {
                let i = choose|i: int| 0 <= i < shorter.len() && shorter[i] == SEPARATOR;
                assert(tail[i] == SEPARATOR);
            }
        }
        lemma_parts_of_tail(path, shorter);
        assert((path + tail).drop_last() =~= path + shorter);
        assert(tail.last() != SEPARATOR) by {
            assert(tail.contains(tail.last()));
        }
        let before = path_parts(path + shorter);
        assert(before.drop_last() =~= parts.drop_last());
        assert(before.last().push(tail.last()) =~= parts.last() + tail);
    }
}

/// A path with a file name always names a directory for it.
pub proof fn named_file_has_parent(path: Seq<u8>)
    requires
        file_name_of(path) is Some,
    ensures
        has_parent_dir(path),
{
}

/// A name that is put behind a directory is the name of the file there, unless it
/// is empty, `.` or `..`.
pub proof fn file_in_dir_keeps_name(dir: Seq<u8>, name: Seq<u8>)
    requires
        dir.len() == 0 || dir.last() == SEPARATOR,
        !name.contains(SEPARATOR),
        leads(name),
        name != seq![DOT, DOT],
    ensures
        file_name_of(dir + name) == Some(name),
{
    lemma_parts_of_tail(dir, name);
    assert(path_parts(dir).last() == Seq::<u8>::empty());
    assert(Seq::<u8>::empty() + name =~= name);
}

/// Separators and `.` behind a path do not change the name of the file at it.
pub proof fn trailing_parts_keep_name(path: Seq<u8>)
    ensures
        file_name_of(path.push(SEPARATOR)) == file_name_of(path),
        file_name_of(path + seq![SEPARATOR, DOT]) == file_name_of(path),
{
    let slash = path.push(SEPARATOR);
    assert(slash.drop_last() =~= path);
    lemma_some_part(path);
    assert(path_parts(slash).drop_last() =~= path_parts(path));
    let dot = path + seq![SEPARATOR, DOT];
    assert(dot.drop_last() =~= slash);
    assert(path_parts(dot).last() =~= seq![DOT]);
    assert(path_parts(dot).drop_last() =~= path_parts(path));
}

/// A path behind a directory is the directory, one `/` and the path, be there a `/`
/// at the end of the directory or not; an absolute path stands for itself.
pub proof fn join_puts_one_separator(base: Seq<char>, tail: Seq<char>)
    ensures
        joined(base, "/"@ + tail) == "/"@ + tail,
        tail.len() == 0 || tail[0] != '/' ==> {
            &&& joined(base + "/"@, tail) == base + "/"@ + tail
            &&& joined(Seq::empty(), tail) == tail
            &&& base.len() > 0 && base[base.len() - 1] != '/' ==> joined(base, tail) == base + "/"@
                + tail
        },
{
    reveal_strlit("/");
    assert(joined(Seq::empty(), tail) =~= tail || (tail.len() > 0 && tail[0] == '/'));
    assert(base.push('/') =~= base + "/"@);
}

/// The parts of a path are what it is put together from with separators.
pub proof fn separator_ends_a_part(path: Seq<u8>, part: Seq<u8>)
    requires
        !part.contains(0x2f),
    ensures
        path_parts(part) == seq![part],
        path_parts(path + seq![0x2fu8] + part) == path_parts(path).push(part),
{
    let empty = Seq::<u8>::empty();
    lemma_parts_of_tail(empty, part);
    assert(empty + part =~= part);
    assert(path_parts(part) =~= seq![part]);
    let slash = path + seq![0x2fu8];
    assert(slash.drop_last() =~= path);
    lemma_some_part(path);
    lemma_parts_of_tail(slash, part);
    assert(path_parts(slash).last() + part =~= part);
    assert(path_parts(slash).drop_last() =~= path_parts(path));
}

/// No file is named by the empty path, by `.`, by the root, or by a path whose last
/// part is `..`.
pub proof fn some_paths_name_no_file(dir: Seq<u8>)
    requires
        dir.len() == 0 || dir[dir.len() - 1] == 0x2f,
    ensures
        file_name_of(Seq::empty()) is None,
        file_name_of(seq![0x2eu8]) is None,
        file_name_of(seq![0x2fu8]) is None,
        file_name_of(dir + seq![0x2eu8, 0x2eu8]) is None,
        has_parent_dir(dir + seq![0x2eu8, 0x2eu8]),
        has_parent_dir(seq![0x2eu8]),
        !has_parent_dir(Seq::empty()),
        !has_parent_dir(seq![0x2fu8]),
{
    let empty = Seq::<u8>::empty();
    reveal_with_fuel(path_parts, 2);
    reveal_with_fuel(last_leading, 3);
    assert(seq![0x2eu8].drop_last() =~= empty);
    assert(seq![0x2fu8].drop_last() =~= empty);
    assert(path_parts(empty) =~= seq![empty]);
    assert(path_parts(seq![0x2eu8]) =~= seq![seq![0x2eu8]]);
    assert(path_parts(seq![0x2fu8]) =~= seq![empty, empty]);
    assert(path_parts(seq![0x2fu8]).drop_last() =~= seq![empty]);
    assert(seq![empty].drop_last() =~= Seq::<Seq<u8>>::empty());
    assert(seq![seq![0x2eu8]].drop_last() =~= Seq::<Seq<u8>>::empty());
    let up = seq![0x2eu8, 0x2eu8];
    assert(!up.contains(0x2f));
    lemma_parts_of_tail(dir, up);
    assert(path_parts(dir).last() =~= empty);
    assert(empty + up =~= up);
    assert(up.len() == 2);
}

} // verus!
