//! Text as a sequence of characters: searching, trimming, cutting, replacing.

use vstd::prelude::*;
use vstd::slice::slice_subrange;

verus! {

/// `String::push` appends one character to the end of the string.
pub assume_specification[ String::push ](s: &mut String, c: char)
    ensures
        final(s)@ == old(s)@.push(c),
;

// ---------------------------------------------------------------------------
// Conversions between strings and character sequences

/// The characters of a string.
pub fn chars_of(s: &str) -> (r: Vec<char>)
    ensures
        r@ == s@,
{
    let mut out: Vec<char> = Vec::new();
    for c in it: s.chars()
        invariant
            it.seq() == s@,
            out@ == s@.take(it.index() as int),
    {
        proof {
            assert(s@.take(it.index() + 1) =~= s@.take(it.index() as int).push(c));
        }
        out.push(c);
    }
    proof {
        assert(s@.take(s@.len() as int) =~= s@);
    }
    out
}

/// The string made of the given characters.
pub fn string_of(chars: &[char]) -> (r: String)
    ensures
        r@ == chars@,
{
    let mut out = String::new();
    let mut i: usize = 0;
    while i < chars.len()
        invariant
            i <= chars@.len(),
            out@ == chars@.take(i as int),
        decreases chars@.len() - i,
    {
        proof {
            assert(chars@.take(i + 1) =~= chars@.take(i as int).push(chars@[i as int]));
        }
        out.push(chars[i]);
        i = i + 1;
    }
    proof {
        assert(chars@.take(chars@.len() as int) =~= chars@);
    }
    out
}

/// A copy of a string slice.
pub fn copy_str(s: &str) -> (r: String)
    ensures
        r@ == s@,
{
    s.to_owned()
}

/// A copy of a character sequence.
pub fn copy_chars(s: &[char]) -> (r: Vec<char>)
    ensures
        r@ == s@,
{
    let mut out: Vec<char> = Vec::new();
    push_all(&mut out, s);
    proof {
        assert(Seq::<char>::empty() + s@ =~= s@);
    }
    out
}

/// Appends characters to a buffer.
pub fn push_all(out: &mut Vec<char>, s: &[char])
    ensures
        final(out)@ == old(out)@ + s@,
{
    let mut i: usize = 0;
    let ghost start = out@;
    while i < s.len()
        invariant
            i <= s@.len(),
            out@ == start + s@.take(i as int),
        decreases s@.len() - i,
    {
        proof {
            assert(start + s@.take(i + 1) =~= (start + s@.take(i as int)).push(s@[i as int]));
        }
        out.push(s[i]);
        i = i + 1;
    }
    proof {
        assert(s@.take(s@.len() as int) =~= s@);
    }
}

/// Whether two character sequences are the same.
pub fn same_chars(a: &[char], b: &[char]) -> (r: bool)
    ensures
        r == (a@ == b@),
{
    if a.len() != b.len() {
        return false;
    }
    let mut i: usize = 0;
    while i < a.len()
        invariant
            a@.len() == b@.len(),
            i <= a@.len(),
            forall|j: int| 0 <= j < i ==> a@[j] == b@[j],
        decreases a@.len() - i,
    {
        if a[i] != b[i] {
            return false;
        }
        i = i + 1;
    }
    proof {
        assert(a@ =~= b@);
    }
    true
}

/// Whether two strings hold the same text.
pub fn same_text(a: &str, b: &str) -> (r: bool)
    ensures
        r == (a@ == b@),
{
    let x = chars_of(a);
    let y = chars_of(b);
    same_chars(x.as_slice(), y.as_slice())
}

// ---------------------------------------------------------------------------
// Searching

/// `p` stands in `s` at index `i`.
pub open spec fn occurs_at(s: Seq<char>, p: Seq<char>, i: int) -> bool {
    0 <= i && i + p.len() <= s.len() && s.subrange(i, i + p.len()) == p
}

/// The first index from `from` on at which `p` stands in `s`.
pub open spec fn find_from(s: Seq<char>, p: Seq<char>, from: int) -> Option<int>
    decreases s.len() - from + 1,
{
    if from < 0 || from + p.len() > s.len() {
        None
    } else if s.subrange(from, from + p.len()) == p {
        Some(from)
    } else {
        find_from(s, p, from + 1)
    }
}

/// The first index at which `p` stands in `s`.
pub open spec fn find(s: Seq<char>, p: Seq<char>) -> Option<int> {
    find_from(s, p, 0)
}

/// `p` stands somewhere in `s`.
pub open spec fn mentions(s: Seq<char>, p: Seq<char>) -> bool {
    find(s, p) is Some
}

/// The last index not above `to` at which `p` stands in `s`.
pub open spec fn rfind_to(s: Seq<char>, p: Seq<char>, to: int) -> Option<int>
    decreases to + 1,
{
    if to < 0 {
        None
    } else if occurs_at(s, p, to) {
        Some(to)
    } else {
        rfind_to(s, p, to - 1)
    }
}

/// `s` begins with `p`.
pub open spec fn starts_with(s: Seq<char>, p: Seq<char>) -> bool {
    p.len() <= s.len() && s.subrange(0, p.len() as int) == p
}

/// `s` ends with `p`.
pub open spec fn ends_with(s: Seq<char>, p: Seq<char>) -> bool {
    p.len() <= s.len() && s.subrange(s.len() - p.len(), s.len() as int) == p
}

/// `find_from` gives the first occurrence, and none only where there is none.
pub proof fn lemma_find_from(s: Seq<char>, p: Seq<char>, from: int)
    requires
        0 <= from,
    ensures
        match find_from(s, p, from) {
            Some(i) => from <= i && occurs_at(s, p, i) && forall|j: int|
                from <= j < i ==> !occurs_at(s, p, j),
            None => forall|j: int| from <= j ==> !occurs_at(s, p, j),
        },
    decreases s.len() - from + 1,
{
    if from + p.len() <= s.len() && s.subrange(from, from + p.len()) != p {
        lemma_find_from(s, p, from + 1);
    }
}

/// `rfind_to` gives the last occurrence, and none only where there is none.
pub proof fn lemma_rfind_to(s: Seq<char>, p: Seq<char>, to: int)
    ensures
        match rfind_to(s, p, to) {
            Some(i) => i <= to && occurs_at(s, p, i) && forall|j: int|
                i < j <= to ==> !occurs_at(s, p, j),
            None => forall|j: int| j <= to ==> !occurs_at(s, p, j),
        },
    decreases to + 1,
{
    if to >= 0 && !occurs_at(s, p, to) {
        lemma_rfind_to(s, p, to - 1);
    }
}

/// Whether `p` stands in `s` at index `i`.
pub fn is_at(s: &[char], p: &[char], i: usize) -> (r: bool)
    ensures
        r == occurs_at(s@, p@, i as int),
{
    if i > s.len() || p.len() > s.len() - i {
        return false;
    }
    let n: usize = s.len();
    let mut j: usize = 0;
    while j < p.len()
        invariant
            n == s@.len(),
            i + p@.len() <= n,
            j <= p@.len(),
            forall|k: int| 0 <= k < j ==> s@[i + k] == p@[k],
        decreases p@.len() - j,
    {
        if s[i + j] != p[j] {
            proof {
                assert(s@.subrange(i as int, i + p@.len())[j as int] == s@[i + j]);
            }
            return false;
        }
        j = j + 1;
    }
    proof {
        assert(s@.subrange(i as int, i + p@.len()) =~= p@);
    }
    true
}

/// The first index from `from` on at which `p` stands in `s`.
pub fn search_from(s: &[char], p: &[char], from: usize) -> (r: Option<usize>)
    requires
        from <= s@.len(),
    ensures
        match r {
            Some(i) => find_from(s@, p@, from as int) == Some(i as int) && from <= i && i + p@.len()
                <= s@.len() <= usize::MAX,
            None => find_from(s@, p@, from as int) is None,
        },
{
    if p.len() > s.len() {
        return None;
    }
    let last: usize = s.len() - p.len();
    let mut i: usize = from;
    while i <= last
        invariant
            p@.len() <= s@.len() <= usize::MAX,
            last == s@.len() - p@.len(),
            from <= i <= s@.len(),
            find_from(s@, p@, from as int) == find_from(s@, p@, i as int),
        decreases s@.len() + 1 - i,
    {
        if is_at(s, p, i) {
            return Some(i);
        }
        if i == last {
            proof {
                reveal_with_fuel(find_from, 2);
            }
            return None;
        }
        i = i + 1;
    }
    None
}

/// The first index from `from` on at which the text `p` stands in `s`.
pub fn search(s: &[char], p: &str, from: usize) -> (r: Option<usize>)
    requires
        from <= s@.len(),
    ensures
        match r {
            Some(i) => find_from(s@, p@, from as int) == Some(i as int) && from <= i && i + p@.len()
                <= s@.len() <= usize::MAX,
            None => find_from(s@, p@, from as int) is None,
        },
{
    let pat = chars_of(p);
    search_from(s, pat.as_slice(), from)
}

/// Whether the text `p` stands somewhere in `s`.
pub fn has_text(s: &[char], p: &str) -> (r: bool)
    ensures
        r == mentions(s@, p@),
{
    match search(s, p, 0) {
        Some(_) => true,
        None => false,
    }
}

/// The last index at which `p` stands in the first `to` characters of `s`.
pub fn search_back(s: &[char], p: &str, to: usize) -> (r: Option<usize>)
    requires
        to <= s@.len(),
        p@.len() > 0,
    ensures
        match r {
            Some(i) => rfind_to(s@.take(to as int), p@, to - p@.len()) == Some(i as int) && i
                + p@.len() <= to,
            None => rfind_to(s@.take(to as int), p@, to - p@.len()) is None,
        },
{
    let pat = chars_of(p);
    if pat.len() > to {
        return None;
    }
    let head = slice_subrange(s, 0, to);
    proof {
        assert(head@ =~= s@.take(to as int));
    }
    let mut i: usize = to - pat.len();
    loop
        invariant
            pat@ == p@,
            p@.len() > 0,
            head@ == s@.take(to as int),
            head@.len() == to,
            i <= to - p@.len(),
            rfind_to(head@, p@, to - p@.len()) == rfind_to(head@, p@, i as int),
        decreases i,
    {
        if is_at(head, pat.as_slice(), i) {
            return Some(i);
        }
        if i == 0 {
            proof {
                reveal_with_fuel(rfind_to, 2);
            }
            return None;
        }
        i = i - 1;
    }
}

/// Whether `s` begins with the text `p`.
pub fn begins(s: &[char], p: &str) -> (r: bool)
    ensures
        r == starts_with(s@, p@),
{
    let pat = chars_of(p);
    is_at(s, pat.as_slice(), 0)
}

/// Whether `s` ends with the text `p`.
pub fn ends(s: &[char], p: &str) -> (r: bool)
    ensures
        r == ends_with(s@, p@),
{
    let pat = chars_of(p);
    if pat.len() > s.len() {
        return false;
    }
    is_at(s, pat.as_slice(), s.len() - pat.len())
}

/// Searching from index `k` on is searching in what follows index `k`.
pub proof fn lemma_find_skip(s: Seq<char>, p: Seq<char>, k: int, from: int)
    requires
        0 <= k <= s.len(),
        0 <= from,
    ensures
        find_from(s, p, k + from) == (match find_from(s.skip(k), p, from) {
            Some(i) => Some(i + k),
            None => None,
        }),
    decreases s.len() - from + 1,
{
    let t = s.skip(k);
    if k + from + p.len() <= s.len() {
        assert(t.subrange(from, from + p.len()) =~= s.subrange(k + from, k + from + p.len()));
        if s.subrange(k + from, k + from + p.len()) != p {
            lemma_find_skip(s, p, k, from + 1);
        }
    }
}

// ---------------------------------------------------------------------------
// White space and trimming

/// The characters with Unicode's `White_Space` property.
pub open spec fn is_white(c: char) -> bool {
    ||| '\u{9}' <= c <= '\u{d}'
    ||| c == ' '
    ||| c == '\u{85}'
    ||| c == '\u{a0}'
    ||| c == '\u{1680}'
    ||| '\u{2000}' <= c <= '\u{200a}'
    ||| c == '\u{2028}'
    ||| c == '\u{2029}'
    ||| c == '\u{202f}'
    ||| c == '\u{205f}'
    ||| c == '\u{3000}'
}

/// `s` without its leading white space.
pub open spec fn trim_start(s: Seq<char>) -> Seq<char>
    decreases s.len(),
{
    if s.len() > 0 && is_white(s[0]) {
        trim_start(s.skip(1))
    } else {
        s
    }
}

/// `s` without its trailing white space.
pub open spec fn trim_end(s: Seq<char>) -> Seq<char>
    decreases s.len(),
{
    if s.len() > 0 && is_white(s.last()) {
        trim_end(s.drop_last())
    } else {
        s
    }
}

/// `s` without the white space around it.
pub open spec fn trim(s: Seq<char>) -> Seq<char> {
    trim_end(trim_start(s))
}

/// Whether a character is white space.
pub fn white(c: char) -> (r: bool)
    ensures
        r == is_white(c),
{
    ('\u{9}' <= c && c <= '\u{d}') || c == ' ' || c == '\u{85}' || c == '\u{a0}' || c == '\u{1680}'
        || ('\u{2000}' <= c && c <= '\u{200a}') || c == '\u{2028}' || c == '\u{2029}' || c
        == '\u{202f}' || c == '\u{205f}' || c == '\u{3000}'
}

/// The text without its leading white space.
pub fn trimmed_start(s: &[char]) -> (r: &[char])
    ensures
        r@ == trim_start(s@),
{
    let mut i: usize = 0;
    proof {
        assert(s@.skip(0) =~= s@);
    }
    while i < s.len() && white(s[i])
        invariant
            i <= s@.len(),
            trim_start(s@) == trim_start(s@.skip(i as int)),
        decreases s@.len() - i,
    {
        proof {
            assert(s@.skip(i as int).skip(1) =~= s@.skip(i + 1));
        }
        i = i + 1;
    }
    proof {
        assert(s@.subrange(i as int, s@.len() as int) =~= s@.skip(i as int));
    }
    slice_subrange(s, i, s.len())
}

/// The text without its trailing white space.
pub fn trimmed_end(s: &[char]) -> (r: &[char])
    ensures
        r@ == trim_end(s@),
{
    let mut n: usize = s.len();
    proof {
        assert(s@.take(n as int) =~= s@);
    }
    while n > 0 && white(s[n - 1])
        invariant
            n <= s@.len(),
            trim_end(s@) == trim_end(s@.take(n as int)),
        decreases n,
    {
        proof {
            assert(s@.take(n as int).drop_last() =~= s@.take(n - 1));
        }
        n = n - 1;
    }
    proof {
        assert(s@.subrange(0, n as int) =~= s@.take(n as int));
    }
    slice_subrange(s, 0, n)
}

/// The text without the white space around it.
pub fn trimmed(s: &[char]) -> (r: &[char])
    ensures
        r@ == trim(s@),
{
    trimmed_end(trimmed_start(s))
}

/// `s` without the leading characters that stand in `set`.
pub open spec fn strip_front(s: Seq<char>, set: Seq<char>) -> Seq<char>
    decreases s.len(),
{
    if s.len() > 0 && set.contains(s[0]) {
        strip_front(s.skip(1), set)
    } else {
        s
    }
}

/// `s` without the trailing characters that stand in `set`.
pub open spec fn strip_back(s: Seq<char>, set: Seq<char>) -> Seq<char>
    decreases s.len(),
{
    if s.len() > 0 && set.contains(s.last()) {
        strip_back(s.drop_last(), set)
    } else {
        s
    }
}

/// `s` without the characters of `set` around it.
pub open spec fn strip_set(s: Seq<char>, set: Seq<char>) -> Seq<char> {
    strip_back(strip_front(s, set), set)
}

/// Whether a character stands in a text.
pub fn stands_in(c: char, set: &[char]) -> (r: bool)
    ensures
        r == set@.contains(c),
{
    let mut i: usize = 0;
    while i < set.len()
        invariant
            i <= set@.len(),
            forall|j: int| 0 <= j < i ==> set@[j] != c,
        decreases set@.len() - i,
    {
        if set[i] == c {
            return true;
        }
        i = i + 1;
    }
    false
}

/// The text without the characters of `set` around it.
pub fn stripped<'a>(s: &'a [char], set: &str) -> (r: &'a [char])
    ensures
        r@ == strip_set(s@, set@),
{
    let marks = chars_of(set);
    let mut i: usize = 0;
    proof {
        assert(s@.skip(0) =~= s@);
    }
    while i < s.len() && stands_in(s[i], marks.as_slice())
        invariant
            marks@ == set@,
            i <= s@.len(),
            strip_front(s@, set@) == strip_front(s@.skip(i as int), set@),
        decreases s@.len() - i,
    {
        proof {
            assert(s@.skip(i as int).skip(1) =~= s@.skip(i + 1));
        }
        i = i + 1;
    }
    let t = slice_subrange(s, i, s.len());
    proof {
        assert(t@ =~= s@.skip(i as int));
    }
    let mut n: usize = t.len();
    proof {
        assert(t@.take(n as int) =~= t@);
    }
    while n > 0 && stands_in(t[n - 1], marks.as_slice())
        invariant
            marks@ == set@,
            n <= t@.len(),
            strip_back(t@, set@) == strip_back(t@.take(n as int), set@),
        decreases n,
    {
        proof {
            assert(t@.take(n as int).drop_last() =~= t@.take(n - 1));
        }
        n = n - 1;
    }
    proof {
        assert(t@.subrange(0, n as int) =~= t@.take(n as int));
    }
    slice_subrange(t, 0, n)
}

// ---------------------------------------------------------------------------
// Cutting and replacing

/// `s` without the characters from index `a` up to index `b`.
pub open spec fn cut(s: Seq<char>, a: int, b: int) -> Seq<char> {
    s.subrange(0, a) + s.subrange(b, s.len() as int)
}

/// Removes the characters from index `a` up to index `b`.
pub fn cut_out(s: &[char], a: usize, b: usize) -> (r: Vec<char>)
    requires
        a <= b <= s@.len(),
    ensures
        r@ == cut(s@, a as int, b as int),
        r@.len() == s@.len() - (b - a),
{
    let mut out = copy_chars(slice_subrange(s, 0, a));
    push_all(&mut out, slice_subrange(s, b, s.len()));
    out
}

/// `s` with every occurrence of `p`, taken from the left and without overlap,
/// replaced by `by`; with `p` empty, `s` itself.
pub open spec fn replace_all(s: Seq<char>, p: Seq<char>, by: Seq<char>) -> Seq<char>
    decreases s.len(),
{
    match find(s, p) {
        Some(i) if p.len() > 0 => {
            proof {
                lemma_find_from(s, p, 0);
            }
            s.take(i) + by + replace_all(s.skip(i + p.len()), p, by)
        },
        _ => s,
    }
}

/// Replaces every occurrence of `p` by `by`; an empty `p` is not replaced.
pub fn replaced(s: &[char], p: &str, by: &str) -> (r: Vec<char>)
    ensures
        r@ == replace_all(s@, p@, by@),
{
    let pat = chars_of(p);
    if pat.len() == 0 {
        return copy_chars(s);
    }
    let sub = chars_of(by);
    let n: usize = s.len();
    let mut out: Vec<char> = Vec::new();
    let mut pos: usize = 0;
    proof {
        assert(s@.skip(0) =~= s@);
        assert(Seq::<char>::empty() + replace_all(s@, p@, by@) =~= replace_all(s@, p@, by@));
    }
    loop
        invariant
            pat@ == p@,
            sub@ == by@,
            p@.len() > 0,
            n == s@.len(),
            pos <= n,
            replace_all(s@, p@, by@) == out@ + replace_all(s@.skip(pos as int), p@, by@),
        decreases s@.len() - pos,
    {
        let ghost before = out@;
        let ghost rest = s@.skip(pos as int);
        proof {
            lemma_find_skip(s@, p@, pos as int, 0);
            lemma_find_from(rest, p@, 0);
        }
        match search_from(s, pat.as_slice(), pos) {
            Some(i) => {
                push_all(&mut out, slice_subrange(s, pos, i));
                push_all(&mut out, sub.as_slice());
                let next: usize = i + pat.len();
                proof {
                    let k = i - pos;
                    assert(rest.take(k) =~= s@.subrange(pos as int, i as int));
                    assert(rest.skip(k + p@.len()) =~= s@.skip(next as int));
                    let tail = replace_all(s@.skip(next as int), p@, by@);
                    assert(before + (rest.take(k) + by@ + tail) =~= before + rest.take(k) + by@
                        + tail);
                }
                pos = next;
            },
            None => {
                push_all(&mut out, slice_subrange(s, pos, s.len()));
                proof {
                    assert(rest =~= s@.subrange(pos as int, s@.len() as int));
                }
                return out;
            },
        }
    }
}

/// `s` with the character `a` replaced by `b` wherever it stands.
pub open spec fn swap_char(s: Seq<char>, a: char, b: char) -> Seq<char> {
    Seq::new(s.len(), |i: int| if s[i] == a { b } else { s[i] })
}

/// Replaces the character `a` by `b`.
pub fn swapped(s: &[char], a: char, b: char) -> (r: Vec<char>)
    ensures
        r@ == swap_char(s@, a, b),
{
    let mut out: Vec<char> = Vec::new();
    let mut i: usize = 0;
    while i < s.len()
        invariant
            i <= s@.len(),
            out@ == swap_char(s@, a, b).take(i as int),
        decreases s@.len() - i,
    {
        let c = s[i];
        proof {
            let all = swap_char(s@, a, b);
            assert(all.take(i + 1) =~= all.take(i as int).push(all[i as int]));
        }
        out.push(if c == a { b } else { c });
        i = i + 1;
    }
    proof {
        assert(swap_char(s@, a, b).take(s@.len() as int) =~= swap_char(s@, a, b));
    }
    out
}

/// The parts of `s` between the characters `c`.
pub open spec fn split(s: Seq<char>, c: char) -> Seq<Seq<char>>
    decreases s.len(),
{
    match find(s, seq![c]) {
        Some(i) => {
            proof {
                lemma_find_from(s, seq![c], 0);
            }
            seq![s.take(i)] + split(s.skip(i + 1), c)
        },
        None => seq![s],
    }
}

/// The parts of `s` between the characters `c`.
pub fn split_parts(s: &[char], c: char) -> (r: Vec<Vec<char>>)
    ensures
        r@.len() == split(s@, c).len(),
        forall|i: int| 0 <= i < r@.len() ==> #[trigger] r@[i]@ == split(s@, c)[i],
{
    let mut pat: Vec<char> = Vec::new();
    pat.push(c);
    let n: usize = s.len();
    let mut out: Vec<Vec<char>> = Vec::new();
    let mut pos: usize = 0;
    proof {
        assert(pat@ =~= seq![c]);
        assert(s@.skip(0) =~= s@);
    }
    loop
        invariant
            pat@ == seq![c],
            n == s@.len(),
            pos <= n,
            split(s@, c).len() == out@.len() + split(s@.skip(pos as int), c).len(),
            forall|i: int| 0 <= i < out@.len() ==> #[trigger] out@[i]@ == split(s@, c)[i],
            forall|i: int|
                0 <= i < split(s@.skip(pos as int), c).len() ==> #[trigger] split(
                    s@.skip(pos as int),
                    c,
                )[i] == split(s@, c)[out@.len() + i],
        decreases n - pos,
    {
        let ghost rest = s@.skip(pos as int);
        let ghost done = out@;
        proof {
            lemma_find_skip(s@, pat@, pos as int, 0);
            lemma_find_from(rest, pat@, 0);
        }
        match search_from(s, pat.as_slice(), pos) {
            Some(i) => {
                let part = copy_chars(slice_subrange(s, pos, i));
                proof {
                    assert(rest.take(i - pos) =~= s@.subrange(pos as int, i as int));
                    assert(rest.skip(i - pos + 1) =~= s@.skip(i + 1));
                    let parts = split(rest, c);
                    let later = split(s@.skip(i + 1), c);
                    assert(parts == seq![rest.take(i - pos)] + later);
                    assert(parts[0] == split(s@, c)[done.len() as int]);
                    assert forall|k: int| 0 <= k < later.len() implies #[trigger] later[k] == split(
                        s@,
                        c,
                    )[done.len() + 1 + k] by {
                        assert(parts[k + 1] == later[k]);
                    }
                }
                out.push(part);
                pos = i + 1;
            },
            None => {
                let part = copy_chars(slice_subrange(s, pos, n));
                proof {
                    assert(rest =~= s@.subrange(pos as int, n as int));
                    assert(split(rest, c)[0] == split(s@, c)[done.len() as int]);
                }
                out.push(part);
                return out;
            },
        }
    }
}

// ---------------------------------------------------------------------------
// Characters and their bytes

/// The number of bytes of a character in UTF-8.
pub open spec fn width(c: char) -> int {
    if (c as int) < 0x80 {
        1
    } else if (c as int) < 0x800 {
        2
    } else if (c as int) < 0x10000 {
        3
    } else {
        4
    }
}

/// The number of bytes of a text in UTF-8.
pub open spec fn byte_len(s: Seq<char>) -> int
    decreases s.len(),
{
    if s.len() == 0 {
        0
    } else {
        byte_len(s.drop_last()) + width(s.last())
    }
}

/// The index `n` bytes after index `i`, or the end of the text where it comes
/// first. None where that falls inside a character.
pub open spec fn skip_bytes(s: Seq<char>, i: int, n: int) -> Option<int>
    decreases s.len() - i,
{
    if i >= s.len() {
        Some(s.len() as int)
    } else if n <= 0 {
        Some(i)
    } else if width(s[i]) > n {
        None
    } else {
        skip_bytes(s, i + 1, n - width(s[i]))
    }
}

/// Skipping bytes does not go back, goes on where there is something to skip, and
/// stays in the text.
pub proof fn lemma_skip_bytes(s: Seq<char>, i: int, n: int)
    requires
        0 <= i <= s.len(),
    ensures
        skip_bytes(s, i, n) matches Some(j) ==> i <= j <= s.len(),
        skip_bytes(s, i, n) matches Some(j) ==> (i < s.len() && n > 0 ==> i < j),
    decreases s.len() - i,
{
    if i < s.len() && n > 0 && width(s[i]) <= n {
        lemma_skip_bytes(s, i + 1, n - width(s[i]));
    }
}

/// The number of bytes of a character in UTF-8.
pub fn width_of(c: char) -> (r: usize)
    ensures
        r == width(c),
{
    let code: u32 = c as u32;
    if code < 0x80 {
        1
    } else if code < 0x800 {
        2
    } else if code < 0x10000 {
        3
    } else {
        4
    }
}

/// The index `n` bytes after index `i`.
pub fn skipped_bytes(s: &[char], i: usize, n: usize) -> (r: Option<usize>)
    requires
        i <= s@.len(),
    ensures
        match r {
            Some(j) => skip_bytes(s@, i as int, n as int) == Some(j as int) && i <= j <= s@.len(),
            None => skip_bytes(s@, i as int, n as int) is None,
        },
{
    let mut j: usize = i;
    let mut left: usize = n;
    while j < s.len() && left > 0
        invariant
            i <= j <= s@.len(),
            skip_bytes(s@, i as int, n as int) == skip_bytes(s@, j as int, left as int),
        decreases s@.len() - j,
    {
        let w: usize = width_of(s[j]);
        if w > left {
            return None;
        }
        left = left - w;
        j = j + 1;
    }
    Some(j)
}

/// Whether a text has more than `n` bytes.
pub fn is_longer(s: &[char], n: usize) -> (r: bool)
    requires
        n <= usize::MAX - 4,
    ensures
        r == (byte_len(s@) > n),
{
    let mut i: usize = 0;
    let mut total: usize = 0;
    let mut over: bool = false;
    proof {
        assert(s@.take(0) =~= Seq::<char>::empty());
    }
    while i < s.len()
        invariant
            n <= usize::MAX - 4,
            i <= s@.len(),
            over ==> byte_len(s@.take(i as int)) > n,
            !over ==> total == byte_len(s@.take(i as int)) && total <= n,
        decreases s@.len() - i,
    {
        proof {
            assert(s@.take(i + 1).drop_last() =~= s@.take(i as int));
        }
        if !over {
            total = total + width_of(s[i]);
            if total > n {
                over = true;
            }
        }
        i = i + 1;
    }
    proof {
        assert(s@.take(s@.len() as int) =~= s@);
    }
    over
}

// ---------------------------------------------------------------------------
// Letter case and order

/// The character with an ASCII capital letter made small.
pub open spec fn ascii_lower(c: char) -> char {
    if 'A' <= c <= 'Z' {
        ((c as u32 + 32) as u32) as char
    } else {
        c
    }
}

/// The texts differ at most in the case of ASCII letters.
pub open spec fn same_ignoring_case(a: Seq<char>, b: Seq<char>) -> bool {
    a.len() == b.len() && forall|i: int|
        0 <= i < a.len() ==> ascii_lower(#[trigger] a[i]) == ascii_lower(b[i])
}

/// The character with an ASCII capital letter made small.
fn lowered(c: char) -> (r: char)
    ensures
        r == ascii_lower(c),
{
    if 'A' <= c && c <= 'Z' {
        ((c as u8) + 32) as char
    } else {
        c
    }
}

/// Whether two texts differ at most in the case of ASCII letters.
pub fn alike(a: &[char], b: &[char]) -> (r: bool)
    ensures
        r == same_ignoring_case(a@, b@),
{
    if a.len() != b.len() {
        return false;
    }
    let mut i: usize = 0;
    while i < a.len()
        invariant
            a@.len() == b@.len(),
            i <= a@.len(),
            forall|j: int| 0 <= j < i ==> ascii_lower(#[trigger] a@[j]) == ascii_lower(b@[j]),
        decreases a@.len() - i,
    {
        if lowered(a[i]) != lowered(b[i]) {
            return false;
        }
        i = i + 1;
    }
    true
}

/// The text consists of ASCII characters.
pub open spec fn is_ascii_text(s: Seq<char>) -> bool {
    forall|i: int| 0 <= i < s.len() ==> ((#[trigger] s[i]) as int) < 0x80
}

/// The text with its ASCII capital letters made small.
pub open spec fn ascii_lowered(s: Seq<char>) -> Seq<char> {
    Seq::new(s.len(), |i: int| ascii_lower(s[i]))
}

/// The text with its capital letters made small; none where it does not consist of
/// ASCII characters.
pub fn lowered_ascii(s: &[char]) -> (r: Option<Vec<char>>)
    ensures
        match r {
            Some(t) => is_ascii_text(s@) && t@ == ascii_lowered(s@),
            None => !is_ascii_text(s@),
        },
{
    let mut out: Vec<char> = Vec::new();
    let mut i: usize = 0;
    while i < s.len()
        invariant
            i <= s@.len(),
            out@.len() == i,
            forall|k: int|
                0 <= k < i ==> ((#[trigger] s@[k]) as int) < 0x80 && out@[k] == ascii_lower(s@[k]),
        decreases s@.len() - i,
    {
        let c = s[i];
        if c >= '\u{80}' {
            proof {
                assert(s@[i as int] == c);
            }
            return None;
        }
        out.push(lowered(c));
        i = i + 1;
    }
    proof {
        assert(out@ =~= ascii_lowered(s@));
    }
    Some(out)
}

/// `a` comes before `b` in the order of strings: by the first character in
/// which they differ, a proper prefix first.
pub open spec fn precedes(a: Seq<char>, b: Seq<char>) -> bool
    decreases a.len(),
{
    if b.len() == 0 {
        false
    } else if a.len() == 0 {
        true
    } else if a[0] != b[0] {
        a[0] < b[0]
    } else {
        precedes(a.skip(1), b.skip(1))
    }
}

/// Whether `a` comes before `b` in the order of strings.
pub fn is_before(a: &[char], b: &[char]) -> (r: bool)
    ensures
        r == precedes(a@, b@),
{
    let mut i: usize = 0;
    proof {
        assert(a@.skip(0) =~= a@);
        assert(b@.skip(0) =~= b@);
    }
    while i < a.len() && i < b.len() && a[i] == b[i]
        invariant
            i <= a@.len(),
            i <= b@.len(),
            precedes(a@, b@) == precedes(a@.skip(i as int), b@.skip(i as int)),
        decreases a@.len() - i,
    {
        proof {
            assert(a@.skip(i as int).skip(1) =~= a@.skip(i + 1));
            assert(b@.skip(i as int).skip(1) =~= b@.skip(i + 1));
        }
        i = i + 1;
    }
    if i >= b.len() {
        false
    } else if i >= a.len() {
        true
    } else {
        a[i] < b[i]
    }
}

/// The order of strings is total.
pub proof fn lemma_precedes_total(a: Seq<char>, b: Seq<char>)
    ensures
        a != b ==> (precedes(a, b) || precedes(b, a)),
        !(precedes(a, b) && precedes(b, a)),
        a == b ==> !precedes(a, b),
    decreases a.len(),
{
    if a.len() > 0 && b.len() > 0 && a[0] == b[0] {
        lemma_precedes_total(a.skip(1), b.skip(1));
        if a.skip(1) == b.skip(1) {
            assert(a =~= seq![a[0]] + a.skip(1));
            assert(b =~= seq![b[0]] + b.skip(1));
        }
    } else if a.len() == 0 && b.len() == 0 {
        assert(a =~= b);
    }
}

/// The order of strings is transitive.
pub proof fn lemma_precedes_transitive(a: Seq<char>, b: Seq<char>, c: Seq<char>)
    requires
        precedes(a, b),
        precedes(b, c),
    ensures
        precedes(a, c),
    decreases a.len(),
{
    if a.len() > 0 && b.len() > 0 && c.len() > 0 && a[0] == b[0] && b[0] == c[0] {
        lemma_precedes_transitive(a.skip(1), b.skip(1), c.skip(1));
    }
}

} // verus!
