//! File paths with `/` as separator, as plain text.

use vstd::prelude::*;
use vstd::slice::slice_subrange;

use crate::text::chars_of;
use crate::text::copy_chars;
use crate::text::copy_str;
use crate::text::lemma_find_from;
use crate::text::lemma_rfind_to;
use crate::text::push_all;
use crate::text::rfind_to;
use crate::text::same_chars;
use crate::text::search_back;
use crate::text::split;
use crate::text::split_parts;
use crate::text::string_of;

verus! {

// ---------------------------------------------------------------------------
// Components

/// The parts of a path that name something: not the empty ones between doubled
/// separators, and not `.`.
pub open spec fn named_parts(parts: Seq<Seq<char>>) -> Seq<Seq<char>>
    decreases parts.len(),
{
    if parts.len() == 0 {
        Seq::empty()
    } else if parts.last() == Seq::<char>::empty() || parts.last() == seq!['.'] {
        named_parts(parts.drop_last())
    } else {
        named_parts(parts.drop_last()).push(parts.last())
    }
}

/// What a path begins with: `/` for an absolute one, `.` for one that begins with
/// it.
pub open spec fn path_root(path: Seq<char>) -> Seq<Seq<char>> {
    let parts = split(path, '/');
    if path.len() > 0 && path[0] == '/' {
        seq![seq!['/']]
    } else if parts[0] == seq!['.'] {
        seq![seq!['.']]
    } else {
        Seq::empty()
    }
}

/// The components of a path.
pub open spec fn components(path: Seq<char>) -> Seq<Seq<char>> {
    path_root(path) + named_parts(split(path, '/'))
}

/// The last components of `path` are those of `tail`.
pub open spec fn path_ends_with(path: Seq<char>, tail: Seq<char>) -> bool {
    let a = components(path);
    let b = components(tail);
    b.len() <= a.len() && a.subrange(a.len() - b.len(), a.len() as int) == b
}

/// The components of `path` below `root`. None where it does not lie below it.
pub open spec fn path_below(path: Seq<char>, root: Seq<char>) -> Option<Seq<Seq<char>>> {
    let a = components(path);
    let b = components(root);
    if b.len() <= a.len() && a.subrange(0, b.len() as int) == b {
        Some(a.subrange(b.len() as int, a.len() as int))
    } else {
        None
    }
}

/// The name of the file that a path leads to.
pub open spec fn file_name(path: Seq<char>) -> Option<Seq<char>> {
    let all = components(path);
    if all.len() == 0 || all.last() == seq!['/'] || all.last() == seq!['.'] || all.last() == seq![
        '.',
        '.',
    ] {
        None
    } else {
        Some(all.last())
    }
}

/// The index of the dot before a file's extension; a dot at the beginning is part
/// of the name.
pub open spec fn extension_dot(name: Seq<char>) -> Option<int> {
    match rfind_to(name, seq!['.'], name.len() - 1) {
        Some(i) => if i > 0 {
            Some(i)
        } else {
            None
        },
        None => None,
    }
}

/// The name of the file without its extension.
pub open spec fn file_stem(path: Seq<char>) -> Option<Seq<char>> {
    match file_name(path) {
        Some(name) => match extension_dot(name) {
            Some(i) => Some(name.subrange(0, i)),
            None => Some(name),
        },
        None => None,
    }
}

/// The extension of the file.
pub open spec fn extension(path: Seq<char>) -> Option<Seq<char>> {
    match file_name(path) {
        Some(name) => match extension_dot(name) {
            Some(i) => Some(name.subrange(i + 1, name.len() as int)),
            None => None,
        },
        None => None,
    }
}

/// The path of `name` in the directory `base`; an absolute `name` stands for
/// itself.
pub open spec fn join_path(base: Seq<char>, name: Seq<char>) -> Seq<char> {
    if name.len() > 0 && name[0] == '/' {
        name
    } else if base.len() == 0 || base.last() == '/' {
        base + name
    } else {
        base + seq!['/'] + name
    }
}

/// The texts of a list of character sequences.
pub open spec fn lists_view(list: Seq<Vec<char>>) -> Seq<Seq<char>> {
    Seq::new(list.len(), |i: int| list[i]@)
}

/// A path has at least one part.
proof fn lemma_split_not_empty(s: Seq<char>, c: char)
    ensures
        split(s, c).len() > 0,
    decreases s.len(),
{
    lemma_find_from(s, seq![c], 0);
}

/// The components of a path.
pub fn components_of(path: &[char]) -> (r: Vec<Vec<char>>)
    ensures
        lists_view(r@) == components(path@),
{
    let parts = split_parts(path, '/');
    let ghost all = split(path@, '/');
    proof {
        lemma_split_not_empty(path@, '/');
    }
    let dot = chars_of(".");
    proof {
        reveal_strlit(".");
        assert(dot@ =~= seq!['.']);
    }
    let mut out: Vec<Vec<char>> = Vec::new();
    if path.len() > 0 && path[0] == '/' {
        let mut slash: Vec<char> = Vec::new();
        slash.push('/');
        proof {
            assert(slash@ =~= seq!['/']);
        }
        out.push(slash);
    } else if same_chars(parts[0].as_slice(), dot.as_slice()) {
        out.push(copy_chars(dot.as_slice()));
    }
    let ghost root = path_root(path@);
    proof {
        assert(parts@[0]@ == all[0]);
        assert(lists_view(out@) =~= root);
        assert(all.take(0) =~= Seq::<Seq<char>>::empty());
        assert(root + named_parts(all.take(0)) =~= root);
    }
    let mut i: usize = 0;
    while i < parts.len()
        invariant
            dot@ == seq!['.'],
            parts@.len() == all.len(),
            forall|k: int| 0 <= k < parts@.len() ==> #[trigger] parts@[k]@ == all[k],
            i <= parts@.len(),
            lists_view(out@) == root + named_parts(all.take(i as int)),
        decreases parts@.len() - i,
    {
        let part = parts[i].as_slice();
        let ghost before = out@;
        proof {
            assert(part@ == parts@[i as int]@);
            assert(all.take(i + 1).drop_last() =~= all.take(i as int));
            assert(part.len() == 0 ==> part@ =~= Seq::<char>::empty());
        }
        if part.len() > 0 && !same_chars(part, dot.as_slice()) {
            out.push(copy_chars(part));
            proof {
                assert(lists_view(out@) =~= lists_view(before).push(part@));
                assert(lists_view(out@) =~= root + named_parts(all.take(i as int)).push(part@));
            }
        }
        i = i + 1;
    }
    proof {
        assert(all.take(all.len() as int) =~= all);
    }
    out
}

/// Whether the components from index `at` on begin with those of `b`.
fn components_at(a: &Vec<Vec<char>>, b: &Vec<Vec<char>>, at: usize) -> (r: bool)
    requires
        at + b@.len() <= a@.len(),
    ensures
        r == (lists_view(a@).subrange(at as int, at + b@.len()) == lists_view(b@)),
{
    let n: usize = a.len();
    let ghost x = lists_view(a@).subrange(at as int, at + b@.len());
    let ghost y = lists_view(b@);
    let mut i: usize = 0;
    while i < b.len()
        invariant
            n == a@.len(),
            at + b@.len() <= n,
            x == lists_view(a@).subrange(at as int, at + b@.len()),
            y == lists_view(b@),
            i <= b@.len(),
            forall|k: int| 0 <= k < i ==> x[k] == y[k],
        decreases b@.len() - i,
    {
        proof {
            assert(x[i as int] == a@[at + i]@);
            assert(y[i as int] == b@[i as int]@);
        }
        if !same_chars(a[at + i].as_slice(), b[i].as_slice()) {
            return false;
        }
        i = i + 1;
    }
    proof {
        assert(x =~= y);
    }
    true
}

/// Whether the last components of `path` are those of `tail`.
pub fn ends_with_path(path: &str, tail: &str) -> (r: bool)
    ensures
        r == path_ends_with(path@, tail@),
{
    let x = chars_of(path);
    let y = chars_of(tail);
    let a = components_of(x.as_slice());
    let b = components_of(y.as_slice());
    proof {
        assert(lists_view(a@).len() == a@.len());
        assert(lists_view(b@).len() == b@.len());
    }
    if b.len() > a.len() {
        return false;
    }
    components_at(&a, &b, a.len() - b.len())
}

/// The components of `path` below `root`.
pub fn components_below(path: &str, root: &str) -> (r: Option<Vec<Vec<char>>>)
    ensures
        match r {
            Some(list) => path_below(path@, root@) == Some(lists_view(list@)),
            None => path_below(path@, root@) is None,
        },
{
    let x = chars_of(path);
    let y = chars_of(root);
    let a = components_of(x.as_slice());
    let b = components_of(y.as_slice());
    proof {
        assert(lists_view(a@).len() == a@.len());
        assert(lists_view(b@).len() == b@.len());
    }
    if b.len() > a.len() || !components_at(&a, &b, 0) {
        return None;
    }
    let mut out: Vec<Vec<char>> = Vec::new();
    let mut i: usize = b.len();
    while i < a.len()
        invariant
            b@.len() <= i <= a@.len(),
            lists_view(out@) == lists_view(a@).subrange(b@.len() as int, i as int),
        decreases a@.len() - i,
    {
        let ghost before = out@;
        out.push(copy_chars(a[i].as_slice()));
        proof {
            assert(lists_view(out@) =~= lists_view(before).push(a@[i as int]@));
            assert(lists_view(out@) =~= lists_view(a@).subrange(b@.len() as int, i + 1));
        }
        i = i + 1;
    }
    Some(out)
}

/// The name of the file that a path leads to.
fn name_of(path: &str) -> (r: Option<Vec<char>>)
    ensures
        match r {
            Some(name) => file_name(path@) == Some(name@),
            None => file_name(path@) is None,
        },
{
    let x = chars_of(path);
    let all = components_of(x.as_slice());
    proof {
        assert(lists_view(all@).len() == all@.len());
        reveal_strlit("/");
        reveal_strlit(".");
        reveal_strlit("..");
        assert("/"@ =~= seq!['/']);
        assert("."@ =~= seq!['.']);
        assert(".."@ =~= seq!['.', '.']);
    }
    if all.len() == 0 {
        return None;
    }
    let last = all[all.len() - 1].as_slice();
    let root = chars_of("/");
    let here = chars_of(".");
    let up = chars_of("..");
    if same_chars(last, root.as_slice()) || same_chars(last, here.as_slice()) || same_chars(
        last,
        up.as_slice(),
    ) {
        None
    } else {
        Some(copy_chars(last))
    }
}

/// The index of the dot before a file's extension.
fn dot_of(name: &[char]) -> (r: Option<usize>)
    ensures
        match r {
            Some(i) => extension_dot(name@) == Some(i as int) && i < name@.len(),
            None => extension_dot(name@) is None,
        },
{
    proof {
        reveal_strlit(".");
        assert("."@ =~= seq!['.']);
        assert(name@.take(name@.len() as int) =~= name@);
        lemma_rfind_to(name@, seq!['.'], name@.len() - 1);
    }
    match search_back(name, ".", name.len()) {
        Some(i) => if i > 0 {
            Some(i)
        } else {
            None
        },
        None => None,
    }
}

/// The name of the file without its extension.
pub fn stem_of(path: &str) -> (r: Option<String>)
    ensures
        match r {
            Some(s) => file_stem(path@) == Some(s@),
            None => file_stem(path@) is None,
        },
{
    match name_of(path) {
        Some(name) => match dot_of(name.as_slice()) {
            Some(i) => Some(string_of(slice_subrange(name.as_slice(), 0, i))),
            None => Some(string_of(name.as_slice())),
        },
        None => None,
    }
}

/// The extension of the file.
pub fn extension_of(path: &str) -> (r: Option<String>)
    ensures
        match r {
            Some(s) => extension(path@) == Some(s@),
            None => extension(path@) is None,
        },
{
    match name_of(path) {
        Some(name) => match dot_of(name.as_slice()) {
            Some(i) => {
                let n: usize = name.len();
                Some(string_of(slice_subrange(name.as_slice(), i + 1, n)))
            },
            None => None,
        },
        None => None,
    }
}

/// The path of `name` in the directory `base`.
pub fn joined_path(base: &str, name: &str) -> (r: String)
    ensures
        r@ == join_path(base@, name@),
{
    let mut out = chars_of(base);
    let tail = chars_of(name);
    if tail.len() > 0 && tail[0] == '/' {
        return copy_str(name);
    }
    if out.len() > 0 && out[out.len() - 1] != '/' {
        out.push('/');
    }
    push_all(&mut out, tail.as_slice());
    proof {
        assert(out@ =~= join_path(base@, name@));
    }
    string_of(out.as_slice())
}

} // verus!
