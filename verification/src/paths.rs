//! Paths as texts with `/` between their parts.

use crate::text::{
    chars_eq, chars_of, concat, copy_range, has_prefix, split, split_chars, starts_with,
    string_from_chars, texts,
};
use vstd::prelude::*;
use vstd::string::StringExecFns;

verus! {

/// Position of the last `c` in `s`; -1 if there is none.
pub open spec fn last_index_of(s: Seq<char>, c: char) -> int
    decreases s.len(),
{
    if s.len() == 0 {
        -1
    } else if s.last() == c {
        s.len() - 1
    } else {
        last_index_of(s.drop_last(), c)
    }
}

/// Position after the last `c` in `s[..end]`; 0 if there is none.
fn after_last(s: &[char], end: usize, c: char) -> (i: usize)
    requires
        end <= s.len(),
    ensures
        i == last_index_of(s@.subrange(0, end as int), c) + 1,
        i <= end,
{
    let mut i: usize = end;
    while i > 0 && s[i - 1] != c
        invariant
            i <= end <= s.len(),
            last_index_of(s@.subrange(0, end as int), c) == last_index_of(s@.subrange(0, i as int), c),
        decreases i,
    {
        assert(s@.subrange(0, i as int).drop_last() =~= s@.subrange(0, i - 1));
        i -= 1;
    }
    i
}

/// The part of a path after its last `/`: the name of the file.
pub open spec fn file_name_of(path: Seq<char>) -> Seq<char> {
    path.subrange(last_index_of(path, '/') + 1, path.len() as int)
}

/// The extension of a file name: what follows its last dot, unless the name
/// has no dot or only the one it starts with.
pub open spec fn extension_of_name(name: Seq<char>) -> Seq<char> {
    let dot = last_index_of(name, '.');
    if dot <= 0 {
        seq![]
    } else {
        name.subrange(dot + 1, name.len() as int)
    }
}

/// The extension of the file that a path names; empty if it has none.
pub open spec fn extension_of(path: Seq<char>) -> Seq<char> {
    extension_of_name(file_name_of(path))
}

/// The name of the file that a path names.
pub fn file_name(path: &[char]) -> (name: Vec<char>)
    ensures
        name@ == file_name_of(path@),
{
    assert(path@.subrange(0, path.len() as int) =~= path@);
    let start = after_last(path, path.len(), '/');
    copy_range(path, start, path.len())
}

/// The extension of the file that a path names; empty if it has none.
pub fn extension(path: &[char]) -> (ext: Vec<char>)
    ensures
        ext@ == extension_of(path@),
{
    let name = file_name(path);
    assert(name@.subrange(0, name.len() as int) =~= name@);
    let after_dot = after_last(name.as_slice(), name.len(), '.');
    if after_dot <= 1 {
        Vec::new()
    } else {
        copy_range(name.as_slice(), after_dot, name.len())
    }
}

/// The parts of a path.
pub open spec fn segments(path: Seq<char>) -> Seq<Seq<char>> {
    split(path, '/')
}

/// `s` with every backslash turned into `/`.
pub open spec fn forward_slashes(s: Seq<char>) -> Seq<char> {
    s.map_values(
        |c: char|
            if c == '\\' {
                '/'
            } else {
                c
            },
    )
}

/// `s` with every backslash turned into `/`.
pub fn with_forward_slashes(s: &[char]) -> (out: Vec<char>)
    ensures
        out@ == forward_slashes(s@),
{
    let mut out: Vec<char> = Vec::new();
    let mut i: usize = 0;
    while i < s.len()
        invariant
            i <= s.len(),
            out@ == forward_slashes(s@.take(i as int)),
        decreases s.len() - i,
    {
        let c = if s[i] == '\\' {
            '/'
        } else {
            s[i]
        };
        out.push(c);
        assert(forward_slashes(s@.take(i + 1)) =~= forward_slashes(s@.take(i as int)).push(c));
        i += 1;
    }
    assert(s@.take(i as int) =~= s@);
    out
}

/// Number of characters of `s` before its trailing `/`s.
pub open spec fn trimmed_len(s: Seq<char>) -> int
    decreases s.len(),
{
    if s.len() > 0 && s.last() == '/' {
        trimmed_len(s.drop_last())
    } else {
        s.len() as int
    }
}

/// Position of the first character of `s` from `from` on that is no `/`.
pub open spec fn skip_slashes(s: Seq<char>, from: int) -> int
    decreases s.len() - from,
{
    if 0 <= from < s.len() && s[from] == '/' {
        skip_slashes(s, from + 1)
    } else {
        from
    }
}

/// `path` lies at or below `root`: it starts with `root`, taken without
/// trailing `/`, and goes on with a `/` if it goes on.
pub open spec fn is_within(root: Seq<char>, path: Seq<char>) -> bool {
    let base = root.subrange(0, trimmed_len(root));
    starts_with(path, base) && (path.len() == base.len() || path[base.len() as int] == '/')
}

/// `path` as seen from `root`: what follows `root` and the `/` after it if
/// `path` lies at or below `root`, else all of `path`.
pub open spec fn relative_to(root: Seq<char>, path: Seq<char>) -> Seq<char> {
    if is_within(root, path) {
        path.subrange(skip_slashes(path, trimmed_len(root)), path.len() as int)
    } else {
        path
    }
}

fn length_without_slashes(s: &[char]) -> (n: usize)
    ensures
        n == trimmed_len(s@),
        n <= s.len(),
{
    let mut n: usize = s.len();
    assert(s@.subrange(0, n as int) =~= s@);
    while n > 0 && s[n - 1] == '/'
        invariant
            n <= s.len(),
            trimmed_len(s@) == trimmed_len(s@.subrange(0, n as int)),
        decreases n,
    {
        assert(s@.subrange(0, n as int).drop_last() =~= s@.subrange(0, n - 1));
        n -= 1;
    }
    n
}

/// Whether `path` lies at or below `root`.
pub fn lies_within(root: &[char], path: &[char]) -> (r: bool)
    ensures
        r == is_within(root@, path@),
{
    let n = length_without_slashes(root);
    let base = copy_range(root, 0, n);
    if !has_prefix(path, base.as_slice()) {
        return false;
    }
    path.len() == n || path[n] == '/'
}

/// `path` as seen from `root`.
pub fn make_relative(root: &[char], path: &[char]) -> (out: Vec<char>)
    ensures
        out@ == relative_to(root@, path@),
{
    if !lies_within(root, path) {
        assert(path@.subrange(0, path.len() as int) =~= path@);
        return copy_range(path, 0, path.len());
    }
    let n = length_without_slashes(root);
    let mut from: usize = n;
    while from < path.len() && path[from] == '/'
        invariant
            n <= from <= path.len(),
            skip_slashes(path@, n as int) == skip_slashes(path@, from as int),
        decreases path.len() - from,
    {
        from += 1;
    }
    copy_range(path, from, path.len())
}

/// `path` below `base`: `path` itself if it starts at the root of the file
/// system, else `base`, a `/` unless `base` is empty or ends in one, and
/// `path`.
pub open spec fn joined(base: Seq<char>, path: Seq<char>) -> Seq<char> {
    if path.len() > 0 && path[0] == '/' {
        path
    } else if base.len() == 0 || base.last() == '/' {
        base + path
    } else {
        base + seq!['/'] + path
    }
}

/// `path` below `base`.
pub fn join_path(base: &str, path: &str) -> (out: String)
    ensures
        out@ == joined(base@, path@),
{
    let p = chars_of(path);
    if p.len() > 0 && p[0] == '/' {
        return String::from_str(path);
    }
    let b = chars_of(base);
    if b.len() == 0 || b[b.len() - 1] == '/' {
        return concat(base, path);
    }
    let mut out = String::from_str(base);
    let slash: Vec<char> = vec!['/'];
    let sep = string_from_chars(slash.as_slice());
    assert(sep@ =~= seq!['/']);
    out.append(sep.as_str());
    out.append(path);
    out
}

// ---------------------------------------------------------------------------
// Paths worked out on their text
// ---------------------------------------------------------------------------

/// What remains of the first `n` of `parts` when empty parts and `.` are
/// dropped and each `..` takes away the part kept last; `None` once a `..`
/// finds no part to take away.
pub open spec fn walked(parts: Seq<Seq<char>>, n: nat) -> Option<Seq<Seq<char>>>
    decreases n,
{
    if n == 0 {
        Some(Seq::empty())
    } else {
        match walked(parts, (n - 1) as nat) {
            None => None,
            Some(kept) => {
                let part = parts[n - 1];
                if part.len() == 0 || part == seq!['.'] {
                    Some(kept)
                } else if part == seq!['.', '.'] {
                    if kept.len() == 0 {
                        None
                    } else {
                        Some(kept.drop_last())
                    }
                } else {
                    Some(kept.push(part))
                }
            },
        }
    }
}

/// The parts of a path with its `.` and `..` worked out on the text, either
/// slash parting them; `None` if the path climbs above where it starts.
pub open spec fn worked_out(path: Seq<char>) -> Option<Seq<Seq<char>>> {
    let parts = segments(forward_slashes(path));
    walked(parts, parts.len())
}

/// The path starts with a slash.
pub open spec fn from_root(path: Seq<char>) -> bool {
    path.len() > 0 && (path[0] == '/' || path[0] == '\\')
}

/// `path`, taken below `root` and worked out on the text, names `root` or
/// something under it.
pub open spec fn stays_below(root: Seq<char>, path: Seq<char>) -> bool {
    let full = joined(root, path);
    &&& from_root(root) == from_root(full)
    &&& worked_out(root) matches Some(base)
    &&& worked_out(full) matches Some(kept)
    &&& base.is_prefix_of(kept)
}

/// Once a walk has climbed too far, it stays so.
pub proof fn lemma_walked_none(parts: Seq<Seq<char>>, at: nat, n: nat)
    requires
        at <= n,
        walked(parts, at) is None,
    ensures
        walked(parts, n) is None,
    decreases n,
{
    if at < n {
        lemma_walked_none(parts, at, (n - 1) as nat);
    }
}

/// The parts of `path` with its `.` and `..` worked out.
pub fn work_out(path: &[char]) -> (r: Option<Vec<Vec<char>>>)
    ensures
        match r {
            Some(kept) => worked_out(path@) == Some(texts(kept@)),
            None => worked_out(path@) is None,
        },
{
    let clean = with_forward_slashes(path);
    let parts = split_chars(clean.as_slice(), '/');
    let dot: Vec<char> = vec!['.'];
    let dots: Vec<char> = vec!['.', '.'];
    assert(dot@ =~= seq!['.']);
    assert(dots@ =~= seq!['.', '.']);
    let mut kept: Vec<Vec<char>> = Vec::new();
    assert(texts(kept@) =~= Seq::<Seq<char>>::empty());
    let mut i: usize = 0;
    while i < parts.len()
        invariant
            i <= parts.len(),
            texts(parts@) == segments(forward_slashes(path@)),
            walked(texts(parts@), i as nat) == Some(texts(kept@)),
            dot@ == seq!['.'],
            dots@ == seq!['.', '.'],
        decreases parts.len() - i,
    {
        let ghost before = texts(kept@);
        assert(texts(parts@)[i as int] == parts@[i as int]@);
        assert(texts(parts@).len() == parts.len());
        if parts[i].len() == 0 || chars_eq(parts[i].as_slice(), dot.as_slice()) {
        } else if chars_eq(parts[i].as_slice(), dots.as_slice()) {
            if kept.len() == 0 {
                proof {
                    assert(walked(texts(parts@), (i + 1) as nat) is None);
                    lemma_walked_none(texts(parts@), (i + 1) as nat, parts.len() as nat);
                }
                return None;
            }
            kept.pop();
            assert(texts(kept@) =~= before.drop_last());
        } else {
            let part = copy_range(parts[i].as_slice(), 0, parts[i].len());
            assert(part@ =~= parts@[i as int]@);
            kept.push(part);
            assert(texts(kept@) =~= before.push(parts@[i as int]@));
        }
        i += 1;
    }
    Some(kept)
}

/// Whether the parts of `base` are the first parts of `kept`.
pub fn begins_with(base: &Vec<Vec<char>>, kept: &Vec<Vec<char>>) -> (r: bool)
    ensures
        r == texts(base@).is_prefix_of(texts(kept@)),
{
    if base.len() > kept.len() {
        return false;
    }
    let mut i: usize = 0;
    while i < base.len()
        invariant
            i <= base.len() <= kept.len(),
            forall|j: int| 0 <= j < i ==> #[trigger] texts(base@)[j] == texts(kept@)[j],
        decreases base.len() - i,
    {
        assert(texts(base@)[i as int] == base@[i as int]@);
        assert(texts(kept@)[i as int] == kept@[i as int]@);
        if !chars_eq(base[i].as_slice(), kept[i].as_slice()) {
            assert(texts(kept@).subrange(0, base.len() as int)[i as int] == texts(kept@)[i as int]);
            return false;
        }
        i += 1;
    }
    assert(texts(base@) =~= texts(kept@).subrange(0, base.len() as int));
    true
}

/// Whether the text starts with a slash.
pub fn starts_from_root(path: &[char]) -> (r: bool)
    ensures
        r == from_root(path@),
{
    path.len() > 0 && (path[0] == '/' || path[0] == '\\')
}

/// Whether `path`, taken below `root` and worked out on the text, names
/// `root` or something under it.
pub fn keeps_below(root: &str, path: &str) -> (r: bool)
    ensures
        r == stays_below(root@, path@),
{
    let full = join_path(root, path);
    let root_chars = chars_of(root);
    let full_chars = chars_of(full.as_str());
    if starts_from_root(root_chars.as_slice()) != starts_from_root(full_chars.as_slice()) {
        return false;
    }
    match work_out(root_chars.as_slice()) {
        None => false,
        Some(base) => match work_out(full_chars.as_slice()) {
            None => false,
            Some(kept) => begins_with(&base, &kept),
        },
    }
}

} // verus!
