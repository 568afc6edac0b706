//! Laws of reading tool calls: every call that stands in an output, in each of the
//! syntaxes, is given, in order, and the text around the calls is kept.

use vstd::prelude::*;

use crate::blocks::block;
use crate::blocks::block_inner;
use crate::call_syntax::is_steady_call;
use crate::call_syntax::json_call;
use crate::call_syntax::reads_back;
use crate::chat::call_object;
use crate::chat::chatml_calls;
use crate::cleaning::visible;
use crate::json::json_node;
use crate::json::NodeView;
use crate::json::Shape;
use crate::ollama_types::CallView;
use crate::parsing_laws::lemma_no_call_in_nothing;
use crate::parsing_laws::lemma_shown_call;
use crate::parsing_laws::lemma_shown_lacks;
use crate::streaming::joined;
use crate::text::cut;
use crate::text::find;
use crate::text::lemma_find_from;
use crate::text::lemma_find_skip;
use crate::text::mentions;
use crate::text::occurs_at;
use crate::text::trim;
use crate::text::trim_end;
use crate::text::trim_start;
use crate::tool_calls::are_shown_clearly;
use crate::tool_calls::call_blocks;
use crate::tool_calls::extraction;
use crate::tool_calls::gemma_bare;
use crate::tool_calls::gemma_tags;
use crate::tool_calls::harmony;
use crate::tool_calls::is_shown_clearly;
use crate::tool_calls::json_tags;
use crate::tool_calls::reads_blocks;
use crate::tool_calls::reads_shown_calls;
use crate::tool_calls::tagged;
use crate::tool_calls::with_block;
use crate::tool_calls::xml_calls;
use crate::tool_calls::Scan;
use crate::tool_calls::Syntax;

verus! {

// ---------------------------------------------------------------------------
// Texts and what stands between them

/// Texts and what stands between them, one after the other: there is one text more
/// than there are pieces between them.
pub open spec fn laid_out(texts: Seq<Seq<char>>, pieces: Seq<Seq<char>>) -> Seq<char>
    decreases pieces.len(),
{
    if pieces.len() == 0 {
        texts[0]
    } else {
        texts[0] + pieces[0] + laid_out(texts.skip(1), pieces.skip(1))
    }
}

/// The texts with the first two of them joined.
pub open spec fn merged(texts: Seq<Seq<char>>) -> Seq<Seq<char>> {
    seq![texts[0] + texts[1]] + texts.skip(2)
}

pub(crate) proof fn lemma_joined_front(texts: Seq<Seq<char>>)
    requires
        texts.len() > 0,
    ensures
        joined(texts) == texts[0] + joined(texts.skip(1)),
    decreases texts.len(),
{
    let front = texts.drop_last();
    if front.len() == 0 {
        assert(texts.skip(1) =~= Seq::<Seq<char>>::empty());
        assert(joined(front) =~= Seq::<char>::empty());
        assert(joined(texts) =~= texts[0] + joined(texts.skip(1)));
    } else {
        lemma_joined_front(front);
        assert(front.skip(1) =~= texts.skip(1).drop_last());
        assert(texts.skip(1).last() == texts.last());
        assert(joined(texts) =~= texts[0] + joined(texts.skip(1)));
    }
}

pub(crate) proof fn lemma_merged(texts: Seq<Seq<char>>, pieces: Seq<Seq<char>>)
    requires
        texts.len() == pieces.len() + 1,
        pieces.len() > 0,
    ensures
        merged(texts).len() == pieces.skip(1).len() + 1,
        joined(merged(texts)) == joined(texts),
        laid_out(merged(texts), pieces.skip(1)) == texts[0] + laid_out(
            texts.skip(1),
            pieces.skip(1),
        ),
{
    let m = merged(texts);
    let rest = texts.skip(1);
    lemma_joined_front(texts);
    lemma_joined_front(rest);
    lemma_joined_front(m);
    assert(m.skip(1) =~= texts.skip(2));
    assert(rest.skip(1) =~= texts.skip(2));
    assert(joined(m) =~= joined(texts));
    assert(laid_out(m, pieces.skip(1)) =~= texts[0] + laid_out(rest, pieces.skip(1)));
}

/// No beginning of the text is an end of it too, but the whole.
pub open spec fn has_no_border(p: Seq<char>) -> bool {
    forall|j: int|
        0 < j < p.len() ==> #[trigger] p[j] != p[0] || (j + 1 < p.len() && p[j + 1] != p[1]) || (j + 2
            < p.len() && p[j + 2] != p[2])
}

/// A text that does not hold `p` may stand before it without another `p` coming about.
pub open spec fn stands_clear(a: Seq<char>, p: Seq<char>) -> bool {
    !mentions(a, p) && (has_no_border(p) || !a.contains(p[0]))
}

pub(crate) proof fn lemma_first_there(a: Seq<char>, p: Seq<char>, b: Seq<char>)
    requires
        p.len() > 0,
        stands_clear(a, p),
    ensures
        find(a + p + b, p) == Some(a.len() as int),
{
    let s = a + p + b;
    let n = a.len() as int;
    lemma_find_from(s, p, 0);
    lemma_find_from(a, p, 0);
    assert(s.subrange(n, n + p.len()) =~= p);
    assert(occurs_at(s, p, n));
    let i = find(s, p)->0;
    if i < n {
        let own = s.subrange(i, i + p.len());
        assert(own[0] == s[i] && s[i] == a[i]);
        if i + p.len() <= n {
            assert(a.subrange(i, i + p.len()) =~= own);
            assert(occurs_at(a, p, i));
        } else if !a.contains(p[0]) {
            assert(a.contains(a[i]));
        } else {
            let j = n - i;
            assert(own[j] == s[n] && s[n] == p[0]);
            assert(p[j] == p[0]);
            if j + 1 < p.len() {
                assert(own[j + 1] == s[n + 1] && s[n + 1] == p[1]);
            }
            if j + 2 < p.len() {
                assert(own[j + 2] == s[n + 2] && s[n + 2] == p[2]);
            }
        }
    }
}

/// The first of two texts, one after the other, does not hold what the whole does not.
pub(crate) proof fn lemma_part_lacks(a: Seq<char>, b: Seq<char>, c: Seq<char>, p: Seq<char>)
    requires
        !mentions(a + b + c, p),
    ensures
        !mentions(b, p),
{
    let s = a + b + c;
    lemma_find_from(s, p, 0);
    lemma_find_from(b, p, 0);
    if let Some(i) = find(b, p) {
        let k = a.len() + i;
        assert(s.subrange(k, k + p.len()) =~= b.subrange(i, i + p.len()));
        assert(occurs_at(s, p, k));
    }
}

pub(crate) proof fn lemma_clear_front(a: Seq<char>, b: Seq<char>, p: Seq<char>)
    requires
        stands_clear(a + b, p),
    ensures
        stands_clear(a, p),
{
    let none = Seq::<char>::empty();
    assert(none + a + b =~= a + b);
    lemma_part_lacks(none, a, b, p);
    if a.contains(p[0]) {
        let i = choose|i: int| 0 <= i < a.len() && a[i] == p[0];
        assert((a + b)[i] == p[0]);
    }
}

pub(crate) proof fn lemma_front_of_joined(texts: Seq<Seq<char>>, p: Seq<char>)
    requires
        texts.len() > 0,
        stands_clear(joined(texts), p),
    ensures
        stands_clear(texts[0], p),
{
    lemma_joined_front(texts);
    lemma_clear_front(texts[0], joined(texts.skip(1)), p);
}

pub(crate) proof fn lemma_not_in_nothing(p: Seq<char>)
    requires
        p.len() > 0,
    ensures
        !mentions(Seq::empty(), p),
        stands_clear(Seq::empty(), p),
{
    lemma_find_from(Seq::<char>::empty(), p, 0);
}

// ---------------------------------------------------------------------------
// Calls in blocks

/// The blocks between two tags, with their tags.
pub open spec fn tagged_blocks(inners: Seq<Seq<char>>, open: Seq<char>, close: Seq<char>) -> Seq<
    Seq<char>,
> {
    Seq::new(inners.len(), |i: int| open + inners[i] + close)
}

/// The first block of a text that begins with another text, a tag, and what stands
/// between the tags.
pub(crate) proof fn lemma_block_at(
    lead: Seq<char>,
    open: Seq<char>,
    inner: Seq<char>,
    close: Seq<char>,
    rest: Seq<char>,
)
    requires
        open.len() > 0,
        close.len() > 0,
        stands_clear(lead, open),
        stands_clear(inner, close),
    ensures
        ({
            let s = lead + (open + inner + close) + rest;
            let end = lead.len() + open.len() + inner.len();
            &&& block(s, open, close) == Some(
                (lead.len() as int, end as int, (end + close.len()) as int),
            )
            &&& block_inner(s, open, close) == inner
            &&& cut(s, lead.len() as int, (end + close.len()) as int) == lead + rest
        }),
{
    let s = lead + (open + inner + close) + rest;
    let from = lead.len() as int;
    let k = from + open.len();
    lemma_first_there(lead, open, inner + close + rest);
    assert(s =~= lead + open + (inner + close + rest));
    lemma_first_there(inner, close, rest);
    assert(s.skip(k) =~= inner + close + rest);
    lemma_find_skip(s, close, k, 0);
    assert(s.subrange(k, k + inner.len()) =~= inner);
    let to = from + open.len() + inner.len() + close.len();
    assert(cut(s, from, to) =~= lead + rest);
}

/// Blocks that each give one call are all read, in order, and the text around them is
/// kept.
proof fn lemma_all_blocks(
    texts: Seq<Seq<char>>,
    inners: Seq<Seq<char>>,
    open: Seq<char>,
    close: Seq<char>,
    syntax: Syntax,
    before: Seq<CallView>,
    calls: Seq<CallView>,
)
    requires
        texts.len() == inners.len() + 1,
        calls.len() == inners.len(),
        open.len() > 0,
        close.len() > 0,
        stands_clear(joined(texts), open),
        forall|i: int| 0 <= i < inners.len() ==> stands_clear(#[trigger] inners[i], close),
        forall|i: int, some: Seq<CallView>|
            #![trigger with_block(some, inners[i], syntax)]
            0 <= i < inners.len() ==> with_block(some, inners[i], syntax) == some.push(calls[i]),
    ensures
        call_blocks(
            Scan {
                text: laid_out(texts, tagged_blocks(inners, open, close)),
                calls: before,
            },
            open,
            close,
            syntax,
        ) == (Scan { text: joined(texts), calls: before + calls }),
    decreases inners.len(),
{
    let pieces = tagged_blocks(inners, open, close);
    let s = laid_out(texts, pieces);
    let start = Scan { text: s, calls: before };
    if inners.len() == 0 {
        lemma_joined_front(texts);
        assert(texts.skip(1) =~= Seq::<Seq<char>>::empty());
        assert(joined(texts) =~= texts[0]);
        assert(block(s, open, close) is None);
        assert(before + calls =~= before);
    } else {
        let lead = texts[0];
        let rest = laid_out(texts.skip(1), pieces.skip(1));
        lemma_front_of_joined(texts, open);
        assert(stands_clear(inners[0], close));
        lemma_block_at(lead, open, inners[0], close, rest);
        assert(s == lead + (open + inners[0] + close) + rest);
        lemma_merged(texts, pieces);
        let more = inners.skip(1);
        let calls_after = calls.skip(1);
        assert(tagged_blocks(more, open, close) =~= pieces.skip(1));
        assert forall|i: int| 0 <= i < more.len() implies stands_clear(#[trigger] more[i], close) by {
            assert(more[i] == inners[i + 1]);
        }
        assert forall|i: int, some: Seq<CallView>|
            #![trigger with_block(some, more[i], syntax)]
            0 <= i < more.len() implies with_block(some, more[i], syntax) == some.push(
            calls_after[i],
        ) by {
            assert(more[i] == inners[i + 1]);
            assert(with_block(some, inners[i + 1], syntax) == some.push(calls[i + 1]));
        }
        let next = before.push(calls[0]);
        lemma_all_blocks(merged(texts), more, open, close, syntax, next, calls_after);
        assert(with_block(before, inners[0], syntax) == next);
        assert(next + calls_after =~= before + calls);
        assert(call_blocks(start, open, close, syntax) == call_blocks(
            Scan { text: lead + rest, calls: next },
            open,
            close,
            syntax,
        ));
    }
}

/// A text without the opening tags has no blocks.
pub(crate) proof fn lemma_no_blocks(
    start: Scan,
    tags: Seq<(Seq<char>, Seq<char>)>,
    syntax: Syntax,
)
    requires
        forall|k: int| 0 <= k < tags.len() ==> !mentions(start.text, (#[trigger] tags[k]).0),
    ensures
        tagged(start, tags, syntax) == start,
    decreases tags.len(),
{
    if tags.len() > 0 {
        assert(!mentions(start.text, tags[0].0));
        let rest = tags.skip(1);
        assert forall|k: int| 0 <= k < rest.len() implies !mentions(
            start.text,
            (#[trigger] rest[k]).0,
        ) by {
            assert(rest[k] == tags[k + 1]);
        }
        lemma_no_blocks(start, rest, syntax);
    }
}

/// Blocks between one pair of tags, where the tags of the pairs before it do not stand
/// in the text, nor any in what is left.
pub(crate) proof fn lemma_one_pair(
    texts: Seq<Seq<char>>,
    inners: Seq<Seq<char>>,
    tags: Seq<(Seq<char>, Seq<char>)>,
    k: int,
    syntax: Syntax,
    before: Seq<CallView>,
    calls: Seq<CallView>,
)
    requires
        0 <= k < tags.len(),
        texts.len() == inners.len() + 1,
        calls.len() == inners.len(),
        tags[k].0.len() > 0,
        tags[k].1.len() > 0,
        stands_clear(joined(texts), tags[k].0),
        forall|j: int|
            0 <= j < k ==> !mentions(
                laid_out(texts, tagged_blocks(inners, tags[k].0, tags[k].1)),
                (#[trigger] tags[j]).0,
            ),
        forall|j: int| k < j < tags.len() ==> !mentions(joined(texts), (#[trigger] tags[j]).0),
        forall|i: int| 0 <= i < inners.len() ==> stands_clear(#[trigger] inners[i], tags[k].1),
        forall|i: int, some: Seq<CallView>|
            #![trigger with_block(some, inners[i], syntax)]
            0 <= i < inners.len() ==> with_block(some, inners[i], syntax) == some.push(calls[i]),
    ensures
        tagged(
            Scan {
                text: laid_out(texts, tagged_blocks(inners, tags[k].0, tags[k].1)),
                calls: before,
            },
            tags,
            syntax,
        ) == (Scan { text: joined(texts), calls: before + calls }),
    decreases k,
{
    let s = laid_out(texts, tagged_blocks(inners, tags[k].0, tags[k].1));
    let start = Scan { text: s, calls: before };
    let rest = tags.skip(1);
    assert forall|j: int| 0 <= j < rest.len() implies #[trigger] rest[j] == tags[j + 1] by {}
    if k == 0 {
        lemma_all_blocks(texts, inners, tags[0].0, tags[0].1, syntax, before, calls);
        let end = Scan { text: joined(texts), calls: before + calls };
        assert forall|j: int| 0 <= j < rest.len() implies !mentions(
            end.text,
            (#[trigger] rest[j]).0,
        ) by {
            assert(rest[j] == tags[j + 1]);
        }
        lemma_no_blocks(end, rest, syntax);
    } else {
        assert(!mentions(s, tags[0].0));
        assert(call_blocks(start, tags[0].0, tags[0].1, syntax) == start);
        assert(rest[k - 1] == tags[k]);
        lemma_one_pair(texts, inners, rest, k - 1, syntax, before, calls);
    }
}

// ---------------------------------------------------------------------------
// Calls as JSON

/// A JSON text stands for a call: it has the name as a string under `name`, and the
/// arguments as an object under `arguments`.
pub open spec fn states_call(text: Seq<char>, call: CallView) -> bool {
    &&& json_node(text, "/name"@) matches Some(name) && name.shape == Shape::Str(call.name)
    &&& json_node(text, "/arguments"@) == Some(
        NodeView { text: call.arguments, shape: Shape::Object },
    )
}

/// The text holds no mark of a call in a syntax other than JSON.
pub open spec fn lacks_other_marks(s: Seq<char>) -> bool {
    !mentions(s, "to=functions."@) && !mentions(s, "call:"@) && !mentions(s, "<function="@)
}

/// The text holds no opening mark of a call as JSON.
pub open spec fn lacks_json_marks(s: Seq<char>) -> bool {
    !mentions(s, "<tool_call>"@) && !mentions(s, "<toolcall>"@) && !mentions(s, "```tool_call"@)
        && !mentions(s, "<|tool_call>"@) && !mentions(s, "[TOOL_CALLS]"@)
}

/// A text without marks of other syntaxes reaches the reading of JSON as it is.
pub(crate) proof fn lemma_reaches_json(s: Seq<char>)
    requires
        lacks_other_marks(s),
    ensures
        ({
            let start = Scan { text: s, calls: Seq::<CallView>::empty() };
            &&& harmony(s, Seq::empty()) == Some(start)
            &&& tagged(start, gemma_tags(), Syntax::Gemma) == start
            &&& gemma_bare(s, Seq::empty()) == start
            &&& xml_calls(s, Seq::empty()) == Some(start)
        }),
{
    let start = Scan { text: s, calls: Seq::<CallView>::empty() };
    let mark = "call:"@;
    reveal_strlit("call:");
    reveal_strlit("<|tool_call>call:");
    reveal_strlit("<tool_call>call:");
    assert("<|tool_call>call:"@.subrange(12, 17) =~= mark);
    assert("<tool_call>call:"@.subrange(11, 16) =~= mark);
    lemma_lacks_longer(s, "<|tool_call>call:"@, mark, 12);
    lemma_lacks_longer(s, "<tool_call>call:"@, mark, 11);
    let tags = gemma_tags();
    assert forall|k: int| 0 <= k < tags.len() implies !mentions(s, (#[trigger] tags[k]).0) by {}
    lemma_no_blocks(start, tags, Syntax::Gemma);
}

pub(crate) proof fn lemma_lacks_longer(s: Seq<char>, p: Seq<char>, q: Seq<char>, n: int)
    requires
        0 <= n,
        n + q.len() <= p.len(),
        p.subrange(n, n + q.len()) == q,
        !mentions(s, q),
    ensures
        !mentions(s, p),
{
    lemma_find_from(s, p, 0);
    lemma_find_from(s, q, 0);
    if let Some(i) = find(s, p) {
        assert(s.subrange(i + n, i + n + q.len()) =~= s.subrange(i, i + p.len()).subrange(
            n,
            n + q.len(),
        ));
        assert(occurs_at(s, q, i + n));
    }
}

/// The pairs of tags around calls as JSON.
pub open spec fn is_json_pair(k: int, open: Seq<char>, close: Seq<char>) -> bool {
    ||| k == 0 && open == "<tool_call>"@ && close == "</tool_call>"@
    ||| k == 1 && open == "<toolcall>"@ && close == "</toolcall>"@
    ||| k == 2 && open == "```tool_call"@ && close == "```"@
    ||| k == 3 && open == "<|tool_call>"@ && close == "<tool_call|>"@
    ||| k == 4 && open == "[TOOL_CALLS]"@ && close == "[/TOOL_CALLS]"@
}

/// The text holds none of the opening marks of the first `k` pairs of tags.
pub open spec fn lacks_earlier_marks(s: Seq<char>, k: int) -> bool {
    &&& k > 0 ==> !mentions(s, "<tool_call>"@)
    &&& k > 1 ==> !mentions(s, "<toolcall>"@)
    &&& k > 2 ==> !mentions(s, "```tool_call"@)
    &&& k > 3 ==> !mentions(s, "<|tool_call>"@)
}

pub(crate) proof fn lemma_json_pair(k: int, open: Seq<char>, close: Seq<char>)
    requires
        is_json_pair(k, open, close),
    ensures
        0 <= k < json_tags().len(),
        json_tags()[k] == (open, close),
        open.len() > 0,
        close.len() > 0,
        has_no_border(open),
{
    reveal_strlit("<tool_call>");
    reveal_strlit("</tool_call>");
    reveal_strlit("<toolcall>");
    reveal_strlit("</toolcall>");
    reveal_strlit("```tool_call");
    reveal_strlit("```");
    reveal_strlit("<|tool_call>");
    reveal_strlit("<tool_call|>");
    reveal_strlit("[TOOL_CALLS]");
    reveal_strlit("[/TOOL_CALLS]");
}

proof fn lemma_json_blocks(
    texts: Seq<Seq<char>>,
    inners: Seq<Seq<char>>,
    k: int,
    open: Seq<char>,
    close: Seq<char>,
    calls: Seq<CallView>,
)
    requires
        is_json_pair(k, open, close),
        texts.len() == inners.len() + 1,
        calls.len() == inners.len(),
        forall|i: int| 0 <= i < inners.len() ==> stands_clear(#[trigger] inners[i], close),
        forall|i: int|
            0 <= i < inners.len() ==> json_call(trim(#[trigger] inners[i])) == Some(calls[i]),
        lacks_other_marks(laid_out(texts, tagged_blocks(inners, open, close))),
        lacks_earlier_marks(laid_out(texts, tagged_blocks(inners, open, close)), k),
        lacks_json_marks(joined(texts)),
    ensures
        extraction(laid_out(texts, tagged_blocks(inners, open, close))) == Some(
            Scan { text: trim(visible(joined(texts))), calls },
        ),
{
    let raw = laid_out(texts, tagged_blocks(inners, open, close));
    let tags = json_tags();
    let none = Seq::<CallView>::empty();
    lemma_json_pair(k, open, close);
    lemma_reaches_json(raw);
    assert forall|i: int, some: Seq<CallView>|
        #![trigger with_block(some, inners[i], Syntax::Json)]
        0 <= i < inners.len() implies with_block(some, inners[i], Syntax::Json) == some.push(
        calls[i],
    ) by {
        assert(json_call(trim(inners[i])) == Some(calls[i]));
    }
    assert forall|j: int| 0 <= j < k implies !mentions(raw, (#[trigger] tags[j]).0) by {}
    assert forall|j: int| k < j < tags.len() implies !mentions(
        joined(texts),
        (#[trigger] tags[j]).0,
    ) by {}
    lemma_one_pair(texts, inners, tags, k, Syntax::Json, none, calls);
    assert(none + calls =~= calls);
}

/// Where calls as JSON stand between tags of one kind, all of them are given, in
/// order, and what is left is the text around them.
pub proof fn law_all_json_blocks_are_read(
    texts: Seq<Seq<char>>,
    inners: Seq<Seq<char>>,
    k: int,
    open: Seq<char>,
    close: Seq<char>,
    calls: Seq<CallView>,
)
    requires
        is_json_pair(k, open, close),
        texts.len() == inners.len() + 1,
        calls.len() == inners.len(),
        forall|i: int| 0 <= i < inners.len() ==> stands_clear(#[trigger] inners[i], close),
        forall|i: int| 0 <= i < inners.len() ==> states_call(trim(#[trigger] inners[i]), calls[i]),
        lacks_other_marks(laid_out(texts, tagged_blocks(inners, open, close))),
        lacks_earlier_marks(laid_out(texts, tagged_blocks(inners, open, close)), k),
        lacks_json_marks(joined(texts)),
    ensures
        extraction(laid_out(texts, tagged_blocks(inners, open, close))) == Some(
            Scan { text: trim(visible(joined(texts))), calls },
        ),
{
    assert forall|i: int| 0 <= i < inners.len() implies json_call(trim(#[trigger] inners[i]))
        == Some(calls[i]) by {
        assert(states_call(trim(inners[i]), calls[i]));
    }
    lemma_json_blocks(texts, inners, k, open, close, calls);
}

// ---------------------------------------------------------------------------
// Calls as a ChatML prompt shows them

proof fn lemma_shown_front(calls: Seq<CallView>)
    requires
        calls.len() > 0,
    ensures
        chatml_calls(calls) == chatml_calls(seq![calls[0]]) + chatml_calls(calls.skip(1)),
    decreases calls.len(),
{
    let none = Seq::<CallView>::empty();
    assert(chatml_calls(none) =~= Seq::<char>::empty());
    if calls.len() == 1 {
        assert(calls =~= seq![calls[0]]);
        assert(calls.skip(1) =~= none);
        assert(chatml_calls(calls) + Seq::<char>::empty() =~= chatml_calls(calls));
    } else {
        let front = calls.drop_last();
        lemma_shown_front(front);
        assert(front.skip(1) =~= calls.skip(1).drop_last());
        assert(calls.skip(1).last() == calls.last());
        assert(chatml_calls(calls) =~= chatml_calls(seq![calls[0]]) + chatml_calls(calls.skip(1)));
    }
}

/// What stands in neither of two texts, of which the second begins with `<`, does not
/// stand in both together, where it has no `<` but at its beginning.
pub(crate) proof fn lemma_both_lack(a: Seq<char>, b: Seq<char>, p: Seq<char>)
    requires
        p.len() > 0,
        !mentions(a, p),
        !mentions(b, p),
        b.len() > 0,
        b[0] == '<',
        forall|j: int| 0 < j < p.len() ==> #[trigger] p[j] != '<',
    ensures
        !mentions(a + b, p),
{
    let s = a + b;
    let n = a.len() as int;
    lemma_find_from(s, p, 0);
    lemma_find_from(a, p, 0);
    lemma_find_from(b, p, 0);
    if let Some(i) = find(s, p) {
        let own = s.subrange(i, i + p.len());
        if i + p.len() <= n {
            assert(a.subrange(i, i + p.len()) =~= own);
            assert(occurs_at(a, p, i));
        } else if i < n {
            assert(own[n - i] == s[n] && s[n] == '<');
        } else {
            assert(b.subrange(i - n, i - n + p.len()) =~= own);
            assert(occurs_at(b, p, i - n));
        }
    }
}

/// A call is shown so that it can be told from the text around it: nothing in its
/// object looks like the beginning of a call in another syntax, or like the end of a
/// block.
pub open spec fn is_plainly_shown(call: CallView) -> bool {
    lacks_other_marks(call_object(call)) && !mentions(call_object(call), "</tool_call>"@)
}

proof fn lemma_shown_lack(calls: Seq<CallView>, p: Seq<char>, c: char, n: int)
    requires
        forall|i: int| 0 <= i < calls.len() ==> !mentions(call_object(#[trigger] calls[i]), p),
        0 <= n < p.len(),
        p[n] == c,
        c == '=' || c == ':',
        forall|j: int| 0 < j < p.len() ==> #[trigger] p[j] != '<',
        !p.contains('\n'),
    ensures
        !mentions(chatml_calls(calls), p),
    decreases calls.len(),
{
    if calls.len() == 0 {
        lemma_not_in_nothing(p);
    } else {
        let front = calls.drop_last();
        let last = calls.last();
        assert forall|i: int| 0 <= i < front.len() implies !mentions(
            call_object(#[trigger] front[i]),
            p,
        ) by {
            assert(front[i] == calls[i]);
        }
        lemma_shown_lack(front, p, c, n);
        assert(!mentions(call_object(calls[calls.len() - 1]), p));
        reveal_strlit("<tool_call>\n");
        reveal_strlit("\n</tool_call>");
        lemma_shown_lacks(call_object(last), p, c, n);
        let shown = "<tool_call>\n"@ + call_object(last) + "\n</tool_call>"@;
        assert(shown[0] == '<');
        lemma_both_lack(chatml_calls(front), shown, p);
        assert(chatml_calls(calls) =~= chatml_calls(front) + shown);
    }
}

/// Calls that a ChatML prompt shows, as blocks with nothing around them.
proof fn lemma_shown_layout(calls: Seq<CallView>)
    ensures
        ({
            let texts = Seq::new(calls.len() + 1, |i: int| Seq::<char>::empty());
            let inners = Seq::new(
                calls.len(),
                |i: int| seq!['\n'] + call_object(calls[i]) + seq!['\n'],
            );
            &&& chatml_calls(calls) == laid_out(
                texts,
                tagged_blocks(inners, "<tool_call>"@, "</tool_call>"@),
            )
            &&& joined(texts) == Seq::<char>::empty()
        }),
    decreases calls.len(),
{
    let open = "<tool_call>"@;
    let close = "</tool_call>"@;
    let texts = Seq::new(calls.len() + 1, |i: int| Seq::<char>::empty());
    let inners = Seq::new(calls.len(), |i: int| seq!['\n'] + call_object(calls[i]) + seq!['\n']);
    let pieces = tagged_blocks(inners, open, close);
    if calls.len() == 0 {
        assert(texts =~= seq![Seq::<char>::empty()]);
        lemma_joined_front(texts);
        assert(texts.skip(1) =~= Seq::<Seq<char>>::empty());
        assert(joined(texts) =~= Seq::<char>::empty());
    } else {
        let rest = calls.skip(1);
        lemma_shown_layout(rest);
        let texts2 = Seq::new(rest.len() + 1, |i: int| Seq::<char>::empty());
        let inners2 = Seq::new(rest.len(), |i: int| seq!['\n'] + call_object(rest[i]) + seq!['\n']);
        assert(texts.skip(1) =~= texts2);
        assert(inners.skip(1) =~= inners2);
        assert(pieces.skip(1) =~= tagged_blocks(inners2, open, close));
        lemma_joined_front(texts);
        assert(joined(texts) =~= Seq::<char>::empty());
        lemma_shown_front(calls);
        lemma_shown_call(calls[0]);
        reveal_strlit("<tool_call>\n");
        reveal_strlit("\n</tool_call>");
        reveal_strlit("<tool_call>");
        reveal_strlit("</tool_call>");
        assert("<tool_call>\n"@ =~= open + seq!['\n']);
        assert("\n</tool_call>"@ =~= seq!['\n'] + close);
        assert(chatml_calls(seq![calls[0]]) =~= pieces[0]);
        assert(chatml_calls(calls) =~= Seq::<char>::empty() + pieces[0] + laid_out(
            texts.skip(1),
            pieces.skip(1),
        ));
    }
}

proof fn lemma_shown_inner(object: Seq<char>)
    requires
        object.len() >= 2,
        object[0] == '{',
        object.last() == '}',
        !mentions(object, "</tool_call>"@),
    ensures
        trim(seq!['\n'] + object + seq!['\n']) == object,
        stands_clear(seq!['\n'] + object + seq!['\n'], "</tool_call>"@),
{
    reveal_strlit("</tool_call>");
    let p = "</tool_call>"@;
    let line = seq!['\n'];
    let inner = line + object + line;
    let tail = inner.skip(1);
    assert(tail =~= object + line);
    assert(tail[0] == '{');
    assert(trim_start(tail) == tail);
    assert(trim_start(inner) == tail);
    assert(tail.last() == '\n');
    assert(tail.drop_last() =~= object);
    assert(trim_end(object) == object);
    lemma_find_from(inner, p, 0);
    lemma_find_from(object, p, 0);
    if let Some(i) = find(inner, p) {
        let own = inner.subrange(i, i + 12);
        if i == 0 {
            assert(own[0] == inner[0]);
        } else if i + 12 > 1 + object.len() {
            let j = 1 + object.len() - i;
            assert(own[j] == inner[object.len() as int + 1]);
        } else {
            assert(object.subrange(i - 1, i + 11) =~= own);
            assert(occurs_at(object, p, i - 1));
        }
    }
}

proof fn lemma_list_lacks_marks(calls: Seq<CallView>)
    requires
        forall|i: int| 0 <= i < calls.len() ==> is_plainly_shown(#[trigger] calls[i]),
    ensures
        lacks_other_marks(chatml_calls(calls)),
{
    reveal_strlit("to=functions.");
    reveal_strlit("call:");
    reveal_strlit("<function=");
    assert forall|i: int| 0 <= i < calls.len() implies {
        let object = call_object(#[trigger] calls[i]);
        !mentions(object, "to=functions."@) && !mentions(object, "call:"@) && !mentions(
            object,
            "<function="@,
        )
    } by {
        assert(is_plainly_shown(calls[i]));
    }
    lemma_shown_lack(calls, "to=functions."@, '=', 2);
    lemma_shown_lack(calls, "call:"@, ':', 4);
    lemma_shown_lack(calls, "<function="@, '=', 9);
}

proof fn lemma_shown_list(calls: Seq<CallView>)
    requires
        forall|i: int| 0 <= i < calls.len() ==> is_plainly_shown(#[trigger] calls[i]),
        forall|i: int|
            0 <= i < calls.len() ==> json_call(call_object(#[trigger] calls[i])) == Some(calls[i]),
    ensures
        extraction(chatml_calls(calls)) == Some(Scan { text: Seq::empty(), calls }),
{
    let open = "<tool_call>"@;
    let close = "</tool_call>"@;
    let texts = Seq::new(calls.len() + 1, |i: int| Seq::<char>::empty());
    let inners = Seq::new(calls.len(), |i: int| seq!['\n'] + call_object(calls[i]) + seq!['\n']);
    lemma_shown_layout(calls);
    lemma_no_call_in_nothing();
    lemma_list_lacks_marks(calls);
    reveal_strlit("<tool_call>");
    reveal_strlit("<toolcall>");
    reveal_strlit("```tool_call");
    reveal_strlit("<|tool_call>");
    reveal_strlit("[TOOL_CALLS]");
    lemma_not_in_nothing("<tool_call>"@);
    lemma_not_in_nothing("<toolcall>"@);
    lemma_not_in_nothing("```tool_call"@);
    lemma_not_in_nothing("<|tool_call>"@);
    lemma_not_in_nothing("[TOOL_CALLS]"@);
    assert forall|i: int| 0 <= i < inners.len() implies stands_clear(#[trigger] inners[i], close)
        && json_call(trim(inners[i])) == Some(calls[i]) by {
        lemma_shown_call(calls[i]);
        assert(is_plainly_shown(calls[i]));
        lemma_shown_inner(call_object(calls[i]));
        assert(json_call(call_object(calls[i])) == Some(calls[i]));
    }
    lemma_json_blocks(texts, inners, 0, open, close, calls);
}

/// Tool calls as a ChatML prompt shows them, one after the other, are all read back:
/// one for each block, in the order of the blocks, and no text beside them.
pub proof fn law_all_shown_calls_are_read_back(calls: Seq<CallView>)
    requires
        forall|i: int| 0 <= i < calls.len() ==> is_plainly_shown(#[trigger] calls[i]),
        forall|i: int|
            0 <= i < calls.len() ==> states_call(call_object(#[trigger] calls[i]), calls[i]),
    ensures
        extraction(chatml_calls(calls)) == Some(Scan { text: Seq::empty(), calls }),
{
    assert forall|i: int| 0 <= i < calls.len() implies json_call(call_object(#[trigger] calls[i]))
        == Some(calls[i]) by {
        assert(states_call(call_object(calls[i]), calls[i]));
    }
    lemma_shown_list(calls);
}

/// Blocks between two tags that are read as calls where they are calls.
proof fn lemma_each_block_reads(
    texts: Seq<Seq<char>>,
    inners: Seq<Seq<char>>,
    open: Seq<char>,
    close: Seq<char>,
)
    requires
        texts.len() == inners.len() + 1,
        open.len() > 0,
        close.len() > 0,
        stands_clear(joined(texts), open),
        forall|i: int| 0 <= i < inners.len() ==> stands_clear(#[trigger] inners[i], close),
        reads_blocks(laid_out(texts, tagged_blocks(inners, open, close)), open, close),
    ensures
        forall|i: int| 0 <= i < inners.len() ==> reads_back(trim(#[trigger] inners[i])),
    decreases inners.len(),
{
    let pieces = tagged_blocks(inners, open, close);
    let s = laid_out(texts, pieces);
    if inners.len() > 0 {
        let lead = texts[0];
        let rest = laid_out(texts.skip(1), pieces.skip(1));
        lemma_front_of_joined(texts, open);
        assert(stands_clear(inners[0], close));
        lemma_block_at(lead, open, inners[0], close, rest);
        assert(s == lead + (open + inners[0] + close) + rest);
        lemma_merged(texts, pieces);
        let more = inners.skip(1);
        assert(tagged_blocks(more, open, close) =~= pieces.skip(1));
        assert forall|i: int| 0 <= i < more.len() implies stands_clear(#[trigger] more[i], close) by {
            assert(more[i] == inners[i + 1]);
        }
        assert(reads_blocks(lead + rest, open, close));
        lemma_each_block_reads(merged(texts), more, open, close);
        assert forall|i: int| 0 <= i < inners.len() implies reads_back(
            trim(#[trigger] inners[i]),
        ) by {
            if i > 0 {
                assert(inners[i] == more[i - 1]);
            }
        }
    }
}

/// A list of calls as a ChatML prompt shows them is read as JSON: nothing is taken out
/// of it before.
pub(crate) proof fn lemma_list_reaches_json(raw: Seq<char>)
    ensures
        forall|calls: Seq<CallView>|
            raw == chatml_calls(calls) && #[trigger] are_shown_clearly(calls) ==> ({
                let start = Scan { text: raw, calls: Seq::empty() };
                &&& harmony(raw, Seq::empty()) == Some(start)
                &&& tagged(start, gemma_tags(), Syntax::Gemma) == start
                &&& gemma_bare(raw, Seq::empty()) == start
                &&& xml_calls(raw, Seq::empty()) == Some(start)
            }),
{
    assert forall|calls: Seq<CallView>|
        raw == chatml_calls(calls) && #[trigger] are_shown_clearly(calls) implies ({
        let start = Scan { text: raw, calls: Seq::empty() };
        &&& harmony(raw, Seq::empty()) == Some(start)
        &&& tagged(start, gemma_tags(), Syntax::Gemma) == start
        &&& gemma_bare(raw, Seq::empty()) == start
        &&& xml_calls(raw, Seq::empty()) == Some(start)
    }) by {
        assert forall|i: int| 0 <= i < calls.len() implies is_plainly_shown(#[trigger] calls[i]) by {
            assert(is_shown_clearly(calls[i]));
        }
        lemma_list_lacks_marks(calls);
        lemma_reaches_json(raw);
    }
}

/// A list of calls as a ChatML prompt shows them is read back, where each call is read
/// from its block.
pub(crate) proof fn lemma_list_is_read(raw: Seq<char>)
    requires
        forall|calls: Seq<CallView>|
            raw == chatml_calls(calls) && #[trigger] are_shown_clearly(calls) ==> reads_blocks(
                raw,
                "<tool_call>"@,
                "</tool_call>"@,
            ),
    ensures
        reads_shown_calls(raw),
{
    assert forall|calls: Seq<CallView>|
        raw == chatml_calls(calls) && #[trigger] are_shown_clearly(calls) implies extraction(raw)
        == Some(Scan { text: Seq::empty(), calls }) by {
        let open = "<tool_call>"@;
        let close = "</tool_call>"@;
        let texts = Seq::new(calls.len() + 1, |i: int| Seq::<char>::empty());
        let inners = Seq::new(calls.len(), |i: int| seq!['\n'] + call_object(calls[i]) + seq!['\n']);
        reveal_strlit("<tool_call>");
        reveal_strlit("</tool_call>");
        lemma_shown_layout(calls);
        lemma_not_in_nothing(open);
        assert forall|i: int| 0 <= i < calls.len() implies is_plainly_shown(#[trigger] calls[i]) by {
            assert(is_shown_clearly(calls[i]));
        }
        assert forall|i: int| 0 <= i < inners.len() implies stands_clear(#[trigger] inners[i], close)
            && trim(inners[i]) == call_object(calls[i]) by {
            lemma_shown_call(calls[i]);
            assert(is_plainly_shown(calls[i]));
            lemma_shown_inner(call_object(calls[i]));
        }
        lemma_each_block_reads(texts, inners, open, close);
        assert forall|i: int| 0 <= i < calls.len() implies json_call(
            call_object(#[trigger] calls[i]),
        ) == Some(calls[i]) by {
            assert(reads_back(trim(inners[i])));
            assert(is_shown_clearly(calls[i]));
            assert(is_steady_call(calls[i]));
        }
        lemma_shown_list(calls);
    }
}

} // verus!
