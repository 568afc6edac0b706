//! Laws of the arguments of calls: keys without quotation marks and bare pairs.

use vstd::prelude::*;

use crate::call_syntax::bare_value;
use crate::call_syntax::begins_word;
use crate::call_syntax::continues_word;
use crate::call_syntax::gap_end;
use crate::call_syntax::lemma_gap_of;
use crate::call_syntax::lemma_quote_shift;
use crate::call_syntax::lemma_quote_string;
use crate::call_syntax::lemma_word_of;
use crate::call_syntax::pairs_members;
use crate::call_syntax::quote_keys;
use crate::call_syntax::simple_members;
use crate::call_syntax::with_pair;
use crate::call_syntax::word_end;
use crate::json::quoted;
use crate::number::integer_of;
use crate::number::signed_decimal;
use crate::number_laws::are_digits;
use crate::number_laws::law_only_integers_are_read;
use crate::number_laws::law_written_integer_is_read_back;
use crate::number_laws::place;
use crate::registry_laws::lemma_find_after;
use crate::syntax_laws::is_blank;
use crate::text::is_white;
use crate::text::strip_set;
use crate::text::trim;
use crate::text_laws::law_marks_around_are_cut;
use crate::text_laws::law_parts_are_taken_apart;
use crate::text_laws::law_white_space_around_is_cut;
use crate::text_laws::spelled;

verus! {

// ---------------------------------------------------------------------------
// Keys without quotation marks

/// An ASCII letter or an underscore.
pub open spec fn is_letter(c: char) -> bool {
    'a' <= c <= 'z' || 'A' <= c <= 'Z' || c == '_'
}

/// A word of ASCII letters, digits and underscores that begins with no digit.
pub open spec fn is_word(s: Seq<char>) -> bool {
    s.len() > 0 && is_letter(s[0]) && forall|i: int|
        0 <= i < s.len() ==> is_letter(#[trigger] s[i]) || '0' <= s[i] <= '9'
}

proof fn lemma_word_there(word: Seq<char>, gap: Seq<char>, rest: Seq<char>)
    requires
        is_word(word),
        is_blank(gap),
        gap.len() > 0 || rest.len() == 0 || !continues_word(rest[0]),
        rest.len() > 0 ==> !is_white(rest[0]),
    ensures
        word_end(word + gap + rest, 1) == word.len(),
        gap_end(word + gap + rest, word.len() as int) == word.len() + gap.len(),
        begins_word((word + gap + rest)[0]),
        (word + gap + rest)[0] != '"',
{
    let after = gap + rest;
    assert(word + gap + rest =~= word + after);
    if gap.len() > 0 {
        assert(is_white(gap[0]));
        assert(after[0] == gap[0]);
    } else {
        assert(after =~= rest);
    }
    lemma_word_of(word, after, 1);
    lemma_gap_of(word, gap, rest, 0);
    assert(is_letter(word[0]));
}

/// A word outside strings that a colon follows, with or without white space between
/// them, gets quotation marks.
pub proof fn law_each_key_is_marked(word: Seq<char>, gap: Seq<char>, rest: Seq<char>)
    requires
        is_word(word),
        is_blank(gap),
    ensures
        quote_keys(word + gap + seq![':'] + rest, 0, false, false) == seq!['"'] + word + seq!['"']
            + gap + seq![':'] + quote_keys(rest, 0, false, false),
{
    let tail = seq![':'] + rest;
    let s = word + gap + tail;
    assert(word + gap + seq![':'] + rest =~= s);
    lemma_word_there(word, gap, tail);
    let j = word.len() as int;
    let k = j + gap.len();
    assert(s[k] == ':');
    assert(s.subrange(0, j) =~= word);
    assert(s.subrange(j, k) =~= gap);
    lemma_quote_shift(word + gap, tail, 0, false, false);
    lemma_quote_shift(seq![':'], rest, 0, false, false);
    assert(quote_keys(tail, 0, false, false) == seq![':'] + quote_keys(rest, 0, false, false));
    assert(quote_keys(s, 0, false, false) == seq!['"'] + word + seq!['"'] + gap + quote_keys(
        tail,
        0,
        false,
        false,
    ));
    assert(seq!['"'] + word + seq!['"'] + gap + (seq![':'] + quote_keys(rest, 0, false, false))
        =~= seq!['"'] + word + seq!['"'] + gap + seq![':'] + quote_keys(rest, 0, false, false));
}

/// A word that no colon follows is left as it is.
pub proof fn law_other_words_are_kept(word: Seq<char>, gap: Seq<char>, rest: Seq<char>)
    requires
        is_word(word),
        is_blank(gap),
        rest.len() > 0 ==> rest[0] != ':' && !is_white(rest[0]) && (rest[0] as int) < 0x80,
        rest.len() > 0 && gap.len() == 0 ==> !is_letter(rest[0]) && !('0' <= rest[0] <= '9'),
    ensures
        quote_keys(word + gap + rest, 0, false, false) == word + gap + quote_keys(
            rest,
            0,
            false,
            false,
        ),
{
    let s = word + gap + rest;
    lemma_word_there(word, gap, rest);
    let j = word.len() as int;
    let k = j + gap.len();
    if rest.len() > 0 {
        assert(s[k] == rest[0]);
    }
    assert(s.subrange(0, j) =~= word);
    assert(s.subrange(j, k) =~= gap);
    lemma_quote_shift(word + gap, rest, 0, false, false);
}

/// What stands in a string is left as it is, keys among it.
pub proof fn law_strings_are_kept(inner: Seq<char>, rest: Seq<char>)
    requires
        forall|i: int| 0 <= i < inner.len() ==> (#[trigger] inner[i]) != '"' && inner[i] != '\\',
    ensures
        quote_keys(seq!['"'] + inner + seq!['"'] + rest, 0, false, false) == seq!['"'] + inner
            + seq!['"'] + quote_keys(rest, 0, false, false),
{
    let close = seq!['"'] + rest;
    let s = seq!['"'] + (inner + close);
    assert(seq!['"'] + inner + seq!['"'] + rest =~= s);
    lemma_quote_shift(seq!['"'], inner + close, 0, true, false);
    lemma_quote_string(inner, close);
    lemma_quote_shift(seq!['"'], rest, 0, false, false);
    assert(quote_keys(close, 0, true, false) == seq!['"'] + quote_keys(rest, 0, false, false));
    assert(quote_keys(s, 0, false, false) == seq!['"'] + (inner + quote_keys(
        close,
        0,
        true,
        false,
    )));
    assert(seq!['"'] + (inner + (seq!['"'] + quote_keys(rest, 0, false, false))) =~= seq!['"']
        + inner + seq!['"'] + quote_keys(rest, 0, false, false));
}

/// A quotation mark behind a backslash does not end a string.
pub proof fn law_string_goes_on_after_backslash(
    inner: Seq<char>,
    c: char,
    more: Seq<char>,
    rest: Seq<char>,
)
    requires
        forall|i: int| 0 <= i < inner.len() ==> (#[trigger] inner[i]) != '"' && inner[i] != '\\',
        forall|i: int| 0 <= i < more.len() ==> (#[trigger] more[i]) != '"' && more[i] != '\\',
    ensures
        quote_keys(
            seq!['"'] + inner + seq!['\\', c] + more + seq!['"'] + rest,
            0,
            false,
            false,
        ) == seq!['"'] + inner + seq!['\\', c] + more + seq!['"'] + quote_keys(
            rest,
            0,
            false,
            false,
        ),
{
    let close = seq!['"'] + rest;
    let after = more + close;
    let pair = seq!['\\', c];
    let s = seq!['"'] + (inner + (pair + after));
    let done = quote_keys(rest, 0, false, false);
    assert(seq!['"'] + inner + pair + more + seq!['"'] + rest =~= s);
    lemma_quote_shift(seq!['"'], inner + (pair + after), 0, true, false);
    lemma_quote_string(inner, pair + after);
    let both = pair + after;
    assert(both[0] == '\\' && both[1] == c);
    lemma_quote_shift(pair, after, 0, true, false);
    assert(quote_keys(both, 0, true, false) == seq!['\\'] + quote_keys(both, 1, true, true));
    assert(quote_keys(both, 1, true, true) == seq![c] + quote_keys(both, 2, true, false));
    assert(quote_keys(both, 0, true, false) =~= pair + quote_keys(after, 0, true, false));
    lemma_quote_string(more, close);
    lemma_quote_shift(seq!['"'], rest, 0, false, false);
    assert(quote_keys(close, 0, true, false) == seq!['"'] + done);
    assert(seq!['"'] + (inner + (pair + (more + (seq!['"'] + done)))) =~= seq!['"'] + inner + pair
        + more + seq!['"'] + done);
}

/// A character that is part of no word and of no string is left as it is.
pub proof fn law_other_characters_are_kept(c: char, rest: Seq<char>)
    requires
        (c as int) < 0x80,
        !is_letter(c),
        c != '"',
    ensures
        quote_keys(seq![c] + rest, 0, false, false) == seq![c] + quote_keys(rest, 0, false, false),
{
    lemma_quote_shift(seq![c], rest, 0, false, false);
}

// ---------------------------------------------------------------------------
// Bare pairs

/// Decimal digits that stand for a number of 64 bits are the number.
pub proof fn law_bare_number(n: i64)
    ensures
        bare_value(signed_decimal(n as int)) == signed_decimal(n as int),
{
    law_written_integer_is_read_back(n);
}

/// `true` and `false` are truth values.
pub proof fn law_bare_truth_value(s: Seq<char>)
    requires
        s == seq!['t', 'r', 'u', 'e'] || s == seq!['f', 'a', 'l', 's', 'e'],
    ensures
        bare_value(s) == s,
{
    reveal_strlit("true");
    reveal_strlit("false");
    assert("true"@ =~= seq!['t', 'r', 'u', 'e']);
    assert("false"@ =~= seq!['f', 'a', 'l', 's', 'e']);
    if integer_of(s) is Some {
        law_only_integers_are_read(s);
        assert(place(s[0]) >= 0 || s[0] == '+' || s[0] == '-');
        assert(place(s[0]) < 10);
    }
}

/// Anything else is a string.
pub proof fn law_bare_text(s: Seq<char>)
    requires
        !are_digits(s, 10),
        s.len() > 0 && (s[0] == '+' || s[0] == '-') ==> !are_digits(s.skip(1), 10),
        s != seq!['t', 'r', 'u', 'e'],
        s != seq!['f', 'a', 'l', 's', 'e'],
    ensures
        bare_value(s) == quoted(s),
{
    reveal_strlit("true");
    reveal_strlit("false");
    assert("true"@ =~= seq!['t', 'r', 'u', 'e']);
    assert("false"@ =~= seq!['f', 'a', 'l', 's', 'e']);
    if integer_of(s) is Some {
        law_only_integers_are_read(s);
    }
}

/// `text` is `plain` between white space, with or without quotation marks around it.
pub open spec fn stands_for(text: Seq<char>, plain: Seq<char>) -> bool {
    &&& plain.len() > 0
    &&& !is_white(plain[0]) && !is_white(plain.last())
    &&& plain[0] != '"' && plain.last() != '"'
    &&& exists|before: Seq<char>, after: Seq<char>|
        is_blank(before) && is_blank(after) && (text == #[trigger] (before + plain + after) || text
            == before + (seq!['"'] + plain + seq!['"']) + after)
}

proof fn lemma_stands_for(text: Seq<char>, plain: Seq<char>)
    requires
        stands_for(text, plain),
    ensures
        strip_set(trim(text), seq!['"']) == plain,
{
    let (before, after) = choose|before: Seq<char>, after: Seq<char>|
        is_blank(before) && is_blank(after) && (text == #[trigger] (before + plain + after) || text
            == before + (seq!['"'] + plain + seq!['"']) + after);
    let marks = seq!['"'];
    let none = Seq::<char>::empty();
    assert(marks.contains(marks[0]));
    if text == before + plain + after {
        law_white_space_around_is_cut(before, plain, after);
        law_marks_around_are_cut(none, plain, none, marks);
        assert(none + plain + none =~= plain);
    } else {
        let inner = marks + plain + marks;
        assert(inner[0] == '"' && inner.last() == '"');
        law_white_space_around_is_cut(before, inner, after);
        law_marks_around_are_cut(marks, plain, marks, marks);
    }
}

/// A key and a value with a colon between them.
pub open spec fn is_pair(pair: Seq<char>, key: Seq<char>, value: Seq<char>) -> bool {
    exists|k: Seq<char>, v: Seq<char>|
        pair == #[trigger] (k + seq![':'] + v) && !k.contains(':') && stands_for(k, key)
            && stands_for(v, value)
}

/// The keys and the values of pairs.
pub open spec fn are_pairs(
    pairs: Seq<Seq<char>>,
    keys: Seq<Seq<char>>,
    values: Seq<Seq<char>>,
) -> bool {
    &&& keys.len() == pairs.len()
    &&& values.len() == pairs.len()
    &&& forall|i: int| 0 <= i < pairs.len() ==> #[trigger] is_pair(pairs[i], keys[i], values[i])
}

/// No later key is the same.
pub open spec fn is_last(keys: Seq<Seq<char>>, i: int) -> bool {
    0 <= i < keys.len() && forall|j: int| i < j < keys.len() ==> keys[j] != keys[i]
}

proof fn lemma_pair(
    members: Map<Seq<char>, Seq<char>>,
    pair: Seq<char>,
    k: Seq<char>,
    v: Seq<char>,
    key: Seq<char>,
    value: Seq<char>,
)
    requires
        pair == k + seq![':'] + v,
        !k.contains(':'),
        stands_for(k, key),
        stands_for(v, value),
    ensures
        with_pair(members, pair) == members.insert(key, bare_value(value)),
{
    lemma_find_after(k, ':', v);
    let n = k.len() as int;
    assert(pair.subrange(0, n) =~= k);
    assert(pair.subrange(n + 1, pair.len() as int) =~= v);
    lemma_stands_for(k, key);
    lemma_stands_for(v, value);
}

proof fn lemma_pairs(pairs: Seq<Seq<char>>, keys: Seq<Seq<char>>, values: Seq<Seq<char>>)
    requires
        are_pairs(pairs, keys, values),
    ensures
        ({
            let members = pairs_members(pairs);
            &&& forall|key: Seq<char>| #[trigger]
                members.contains_key(key) <==> keys.contains(key)
            &&& forall|i: int| #[trigger]
                is_last(keys, i) ==> members[keys[i]] == bare_value(values[i])
        }),
    decreases pairs.len(),
{
    if pairs.len() > 0 {
        let n = pairs.len() - 1;
        let fewer = pairs.drop_last();
        let ks = keys.drop_last();
        let vs = values.drop_last();
        assert forall|i: int| 0 <= i < fewer.len() implies #[trigger] is_pair(
            fewer[i],
            ks[i],
            vs[i],
        ) by {
            assert(is_pair(pairs[i], keys[i], values[i]));
        }
        lemma_pairs(fewer, ks, vs);
        let before = pairs_members(fewer);
        assert(is_pair(pairs[n], keys[n], values[n]));
        let (k, v) = choose|k: Seq<char>, v: Seq<char>|
            pairs[n] == #[trigger] (k + seq![':'] + v) && !k.contains(':') && stands_for(k, keys[n])
                && stands_for(v, values[n]);
        lemma_pair(before, pairs[n], k, v, keys[n], values[n]);
        let members = pairs_members(pairs);
        assert(members == before.insert(keys[n], bare_value(values[n])));
        assert forall|key: Seq<char>| #[trigger] members.contains_key(key) <==> keys.contains(
            key,
        ) by {
            if keys.contains(key) {
                let i = choose|i: int| 0 <= i < keys.len() && keys[i] == key;
                if i < n {
                    assert(ks[i] == key);
                    assert(ks.contains(key));
                }
            }
            if ks.contains(key) {
                let i = choose|i: int| 0 <= i < ks.len() && ks[i] == key;
                assert(keys[i] == key);
            }
            assert(before.contains_key(key) <==> ks.contains(key));
            assert(keys.contains(keys[n]));
        }
        assert forall|i: int| #[trigger] is_last(keys, i) implies members[keys[i]]
            == bare_value(values[i]) by {
            if i < n {
                assert(keys[n] != keys[i]);
                assert forall|j: int| i < j < ks.len() implies ks[j] != ks[i] by {
                    assert(keys[j] != keys[i]);
                }
                assert(is_last(ks, i));
                assert(ks[i] == keys[i] && vs[i] == values[i]);
            }
        }
    }
}

/// Of `{key: value, key: value}`, in which white space and quotation marks do not
/// matter, each key is a member, with the value that stands behind it; of two values
/// of one key the later one is taken.
pub proof fn law_bare_pairs_are_members(
    pairs: Seq<Seq<char>>,
    keys: Seq<Seq<char>>,
    values: Seq<Seq<char>>,
)
    requires
        pairs.len() > 0,
        are_pairs(pairs, keys, values),
        forall|i: int| 0 <= i < pairs.len() ==> !(#[trigger] pairs[i]).contains(','),
        ({
            let inner = spelled(pairs, ',');
            inner[0] != '{' && inner[0] != '}' && inner.last() != '{' && inner.last() != '}'
        }),
    ensures
        ({
            let members = simple_members(seq!['{'] + spelled(pairs, ',') + seq!['}']);
            &&& forall|key: Seq<char>| #[trigger]
                members.contains_key(key) <==> keys.contains(key)
            &&& forall|i: int| #[trigger]
                is_last(keys, i) ==> members[keys[i]] == bare_value(values[i])
        }),
{
    let inner = spelled(pairs, ',');
    let marks = seq!['{', '}'];
    assert(marks.contains(marks[0]) && marks.contains(marks[1]));
    assert(is_pair(pairs[0], keys[0], values[0]));
    let (k, v) = choose|k: Seq<char>, v: Seq<char>|
        pairs[0] == #[trigger] (k + seq![':'] + v) && !k.contains(':') && stands_for(k, keys[0])
            && stands_for(v, values[0]);
    assert(pairs[0].len() > 0);
    assert(inner.len() > 0);
    law_marks_around_are_cut(seq!['{'], inner, seq!['}'], marks);
    law_parts_are_taken_apart(pairs, ',');
    lemma_pairs(pairs, keys, values);
}

} // verus!
