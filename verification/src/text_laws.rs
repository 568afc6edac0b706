//! Laws of texts: what is cut off, taken apart and put in another's place.

use vstd::prelude::*;

use crate::registry_laws::lemma_find_after;
use crate::syntax_laws::is_blank;
use crate::syntax_laws::lemma_lacks_char;
use crate::text::is_white;
use crate::text::lemma_find_from;
use crate::text::occurs_at;
use crate::text::precedes;
use crate::text::replace_all;
use crate::text::split;
use crate::text::strip_back;
use crate::text::strip_front;
use crate::text::strip_set;
use crate::text::trim;
use crate::text::trim_end;
use crate::text::trim_start;

verus! {

/// Which characters are white space.
pub proof fn law_white_space(c: char)
    ensures
        is_white(c) <==> {
            let n = c as int;
            ||| 9 <= n <= 13
            ||| n == 32
            ||| n == 133
            ||| n == 160
            ||| n == 5760
            ||| 8192 <= n <= 8202
            ||| n == 8232
            ||| n == 8233
            ||| n == 8239
            ||| n == 8287
            ||| n == 12288
        },
{
}

pub(crate) proof fn lemma_blank_skip(s: Seq<char>)
    requires
        s.len() > 0,
        is_blank(s),
    ensures
        is_white(s[0]),
        is_white(s.last()),
        is_blank(s.skip(1)),
        is_blank(s.drop_last()),
{
    let t = s.skip(1);
    assert forall|i: int| 0 <= i < t.len() implies is_white(#[trigger] t[i]) by {
        assert(t[i] == s[i + 1]);
    }
    let u = s.drop_last();
    assert forall|i: int| 0 <= i < u.len() implies is_white(#[trigger] u[i]) by {
        assert(u[i] == s[i]);
    }
}

proof fn lemma_trim_front(before: Seq<char>, s: Seq<char>)
    requires
        is_blank(before),
        s.len() > 0 ==> !is_white(s[0]),
    ensures
        trim_start(before + s) == s,
    decreases before.len(),
{
    if before.len() == 0 {
        assert(before + s =~= s);
    } else {
        lemma_blank_skip(before);
        lemma_trim_front(before.skip(1), s);
        assert((before + s).skip(1) =~= before.skip(1) + s);
    }
}

proof fn lemma_trim_back(s: Seq<char>, after: Seq<char>)
    requires
        is_blank(after),
        s.len() > 0 ==> !is_white(s.last()),
    ensures
        trim_end(s + after) == s,
    decreases after.len(),
{
    if after.len() == 0 {
        assert(s + after =~= s);
    } else {
        lemma_blank_skip(after);
        lemma_trim_back(s, after.drop_last());
        assert((s + after).drop_last() =~= s + after.drop_last());
    }
}

/// Of a text between white space only the text is left, with the white space that
/// stands within it.
pub proof fn law_white_space_around_is_cut(before: Seq<char>, s: Seq<char>, after: Seq<char>)
    requires
        is_blank(before),
        is_blank(after),
        s.len() > 0 ==> !is_white(s[0]) && !is_white(s.last()),
    ensures
        trim(before + s + after) == s,
        trim_start(before + s) == s,
        trim_end(s + after) == s,
{
    lemma_trim_front(before, s);
    lemma_trim_back(s, after);
    if s.len() > 0 {
        assert(before + s + after =~= before + (s + after));
        lemma_trim_front(before, s + after);
    } else {
        assert forall|i: int| 0 <= i < (before + s + after).len() implies is_white(
            #[trigger] (before + s + after)[i],
        ) by {
            if i < before.len() {
                assert((before + s + after)[i] == before[i]);
            } else {
                assert((before + s + after)[i] == after[i - before.len()]);
            }
        }
        let all = before + s + after;
        assert(all + s =~= all);
        lemma_trim_front(all, s);
        assert(s =~= Seq::empty());
    }
}

proof fn lemma_strip_front(before: Seq<char>, s: Seq<char>, marks: Seq<char>)
    requires
        forall|i: int| 0 <= i < before.len() ==> marks.contains(#[trigger] before[i]),
        s.len() > 0 ==> !marks.contains(s[0]),
    ensures
        strip_front(before + s, marks) == s,
    decreases before.len(),
{
    if before.len() == 0 {
        assert(before + s =~= s);
    } else {
        let t = before.skip(1);
        assert(marks.contains(before[0]));
        assert forall|i: int| 0 <= i < t.len() implies marks.contains(#[trigger] t[i]) by {
            assert(t[i] == before[i + 1]);
        }
        lemma_strip_front(t, s, marks);
        assert((before + s).skip(1) =~= t + s);
    }
}

proof fn lemma_strip_back(s: Seq<char>, after: Seq<char>, marks: Seq<char>)
    requires
        forall|i: int| 0 <= i < after.len() ==> marks.contains(#[trigger] after[i]),
        s.len() > 0 ==> !marks.contains(s.last()),
    ensures
        strip_back(s + after, marks) == s,
    decreases after.len(),
{
    if after.len() == 0 {
        assert(s + after =~= s);
    } else {
        let t = after.drop_last();
        assert(marks.contains(after[after.len() - 1]));
        assert forall|i: int| 0 <= i < t.len() implies marks.contains(#[trigger] t[i]) by {
            assert(t[i] == after[i]);
        }
        lemma_strip_back(s, t, marks);
        assert((s + after).drop_last() =~= s + t);
    }
}

/// Of a text between marks only the text is left, with the marks that stand within
/// it.
pub proof fn law_marks_around_are_cut(
    before: Seq<char>,
    s: Seq<char>,
    after: Seq<char>,
    marks: Seq<char>,
)
    requires
        forall|i: int| 0 <= i < before.len() ==> marks.contains(#[trigger] before[i]),
        forall|i: int| 0 <= i < after.len() ==> marks.contains(#[trigger] after[i]),
        s.len() > 0,
        !marks.contains(s[0]),
        !marks.contains(s.last()),
    ensures
        strip_set(before + s + after, marks) == s,
{
    assert(before + s + after =~= before + (s + after));
    lemma_strip_front(before, s + after, marks);
    lemma_strip_back(s, after, marks);
}

/// The texts one behind the other, with `c` between them.
pub open spec fn spelled(parts: Seq<Seq<char>>, c: char) -> Seq<char>
    decreases parts.len(),
{
    if parts.len() == 0 {
        Seq::empty()
    } else if parts.len() == 1 {
        parts[0]
    } else {
        parts[0] + seq![c] + spelled(parts.skip(1), c)
    }
}

/// Texts with a character between them are taken apart again at that character, as
/// long as none of them holds it.
pub proof fn law_parts_are_taken_apart(parts: Seq<Seq<char>>, c: char)
    requires
        parts.len() > 0,
        forall|i: int| 0 <= i < parts.len() ==> !(#[trigger] parts[i]).contains(c),
    ensures
        split(spelled(parts, c), c) == parts,
    decreases parts.len(),
{
    let s = spelled(parts, c);
    let a = parts[0];
    if parts.len() == 1 {
        lemma_lacks_char(a, c);
        assert(split(s, c) =~= parts);
    } else {
        let rest = parts.skip(1);
        let b = spelled(rest, c);
        assert forall|i: int| 0 <= i < rest.len() implies !(#[trigger] rest[i]).contains(c) by {
            assert(rest[i] == parts[i + 1]);
        }
        law_parts_are_taken_apart(rest, c);
        lemma_find_after(a, c, b);
        assert(s.take(a.len() as int) =~= a);
        assert(s.skip(a.len() as int + 1) =~= b);
        assert(seq![a] + rest =~= parts);
    }
}

/// Each occurrence of a text is replaced, from the left to the right, and what stands
/// around it is kept.
pub proof fn law_each_occurrence_is_replaced(
    a: Seq<char>,
    p: Seq<char>,
    b: Seq<char>,
    by: Seq<char>,
)
    requires
        p.len() > 0,
        forall|i: int| 0 <= i < a.len() ==> !#[trigger] occurs_at(a + p + b, p, i),
    ensures
        replace_all(a + p + b, p, by) == a + by + replace_all(b, p, by),
{
    let s = a + p + b;
    let n = a.len() as int;
    lemma_find_from(s, p, 0);
    assert(s.subrange(n, n + p.len()) =~= p);
    assert(occurs_at(s, p, n));
    assert(s.take(n) =~= a);
    assert(s.skip(n + p.len()) =~= b);
}

/// A text that does not hold another is left as it is.
pub proof fn law_nothing_else_is_replaced(s: Seq<char>, p: Seq<char>, by: Seq<char>)
    requires
        forall|i: int| 0 <= i ==> !#[trigger] occurs_at(s, p, i),
    ensures
        replace_all(s, p, by) == s,
{
    lemma_find_from(s, p, 0);
}

/// One text comes before another in order exactly where it is a shorter beginning of
/// it, or holds the smaller character where they first differ.
pub proof fn law_order_of_texts(a: Seq<char>, b: Seq<char>)
    ensures
        precedes(a, b) <==> exists|n: int|
            0 <= n <= a.len() && n < b.len() && #[trigger] a.take(n) == b.take(n) && (n == a.len()
                || a[n] < b[n]),
    decreases a.len(),
{
    if b.len() > 0 {
        if a.len() == 0 {
            assert(a.take(0) =~= b.take(0));
        } else if a[0] != b[0] {
            if a[0] < b[0] {
                assert(a.take(0) =~= b.take(0));
            } else {
                assert forall|n: int| 0 < n <= a.len() && n < b.len() implies #[trigger] a.take(n)
                    != b.take(n) by {
                    assert(a.take(n)[0] == a[0]);
                    assert(b.take(n)[0] == b[0]);
                }
            }
            assert forall|n: int| 0 < n <= a.len() && n < b.len() implies #[trigger] a.take(n)
                != b.take(n) by {
                assert(a.take(n)[0] == a[0]);
                assert(b.take(n)[0] == b[0]);
            }
        } else {
            let x = a.skip(1);
            let y = b.skip(1);
            law_order_of_texts(x, y);
            if precedes(x, y) {
                let n = choose|n: int|
                    0 <= n <= x.len() && n < y.len() && #[trigger] x.take(n) == y.take(n) && (n
                        == x.len() || x[n] < y[n]);
                assert(a.take(n + 1) =~= seq![a[0]] + x.take(n));
                assert(b.take(n + 1) =~= seq![b[0]] + y.take(n));
                assert(a.take(n + 1) == b.take(n + 1));
            }
            if exists|n: int|
                0 <= n <= a.len() && n < b.len() && #[trigger] a.take(n) == b.take(n) && (n
                    == a.len() || a[n] < b[n]) {
                let n = choose|n: int|
                    0 <= n <= a.len() && n < b.len() && #[trigger] a.take(n) == b.take(n) && (n
                        == a.len() || a[n] < b[n]);
                assert(n > 0);
                assert(x.take(n - 1) =~= a.take(n).skip(1));
                assert(y.take(n - 1) =~= b.take(n).skip(1));
                assert(x.take(n - 1) == y.take(n - 1));
            }
        }
    }
}

} // verus!
