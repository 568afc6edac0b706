//! Laws of splitting a model's output into the text for the user and the tool
//! calls in it.

use vstd::prelude::*;

use crate::blocks::block;
use crate::blocks::block_inner;
use crate::blocks::lemma_block;
use crate::call_syntax::brace_end;
use crate::call_syntax::gemma_call;
use crate::call_syntax::is_steady_call;
use crate::call_syntax::json_call;
use crate::call_syntax::object_in;
use crate::call_syntax::reads_back;
use crate::call_syntax::whole;
use crate::chat::call_object;
use crate::chat::chatml_calls;
use crate::cleaning::channel_tags;
use crate::cleaning::header_end;
use crate::cleaning::lemma_header_end;
use crate::cleaning::stray_tokens;
use crate::cleaning::visible;
use crate::cleaning::without_blocks;
use crate::cleaning::without_channels;
use crate::cleaning::without_headers;
use crate::cleaning::without_tokens;
use crate::json::members_text;
use crate::json::no_members;
use crate::json::Shape;
use crate::ollama_types::CallView;
use crate::text::cut;
use crate::text::find;
use crate::text::find_from;
use crate::text::is_white;
use crate::text::lemma_find_from;
use crate::text::mentions;
use crate::text::occurs_at;
use crate::text::replace_all;
use crate::text::starts_with;
use crate::text::trim;
use crate::text::trim_end;
use crate::text::trim_start;
use crate::tool_calls::call_blocks;
use crate::tool_calls::extraction;
use crate::tool_calls::gemma_bare;
use crate::tool_calls::gemma_tags;
use crate::tool_calls::harmony;
use crate::tool_calls::harmony_site;
use crate::tool_calls::is_shown_clearly;
use crate::tool_calls::is_unmarked;
use crate::tool_calls::json_tags;
use crate::tool_calls::json_untagged;
use crate::tool_calls::lemma_brace_end;
use crate::tool_calls::lemma_harmony_site;
use crate::tool_calls::lemma_xml_site;
use crate::tool_calls::parameters;
use crate::tool_calls::reads_first;
use crate::tool_calls::reads_shown_call;
use crate::tool_calls::tagged;
use crate::tool_calls::with_block;
use crate::tool_calls::with_call;
use crate::tool_calls::with_items;
use crate::tool_calls::with_json;
use crate::tool_calls::xml_calls;
use crate::tool_calls::xml_site;
use crate::tool_calls::Scan;
use crate::tool_calls::Syntax;

verus! {

// ---------------------------------------------------------------------------
// A text without calls

/// A call in the Harmony syntax comes first in the text.
pub open spec fn harmony_call_in(s: Seq<char>) -> bool {
    harmony_site(s) matches Some(site) && object_in(site.raw) is Some
}

/// A block between the tags of a pair from `tags` stands in the text.
pub open spec fn block_in(s: Seq<char>, tags: Seq<(Seq<char>, Seq<char>)>) -> bool {
    exists|k: int| 0 <= k < tags.len() && block(s, (#[trigger] tags[k]).0, tags[k].1) is Some
}

/// What follows the first `call:` in the text is a call.
pub open spec fn bare_call_in(s: Seq<char>) -> bool {
    find(s, "call:"@) matches Some(from) && brace_end(s, from + "call:"@.len()) matches Some(end)
        && gemma_call(s.subrange(from + "call:"@.len(), end)) is Some
}

/// What follows the first `[TOOL_CALLS]` in the text is JSON.
pub open spec fn untagged_in(s: Seq<char>) -> bool {
    find(s, "[TOOL_CALLS]"@) matches Some(from) && {
        let rest = trim_start(s.subrange(from + "[TOOL_CALLS]"@.len(), s.len() as int));
        (starts_with(rest, seq!['[']) || starts_with(rest, seq!['{'])) && whole(rest) is Some
    }
}

/// No tool call stands in the text, in any of the syntaxes.
pub open spec fn no_call_in(s: Seq<char>) -> bool {
    &&& !harmony_call_in(s)
    &&& !block_in(s, gemma_tags())
    &&& !bare_call_in(s)
    &&& xml_site(s) is None
    &&& !block_in(s, json_tags())
    &&& !untagged_in(s)
}

proof fn lemma_tagged_idle(start: Scan, tags: Seq<(Seq<char>, Seq<char>)>, syntax: Syntax)
    requires
        !block_in(start.text, tags),
    ensures
        tagged(start, tags, syntax) == start,
    decreases tags.len(),
{
    if tags.len() > 0 {
        assert(block(start.text, tags[0].0, tags[0].1) is None);
        assert forall|k: int| 0 <= k < tags.skip(1).len() implies block(
            start.text,
            (#[trigger] tags.skip(1)[k]).0,
            tags.skip(1)[k].1,
        ) is None by {
            assert(tags.skip(1)[k] == tags[k + 1]);
        }
        lemma_tagged_idle(start, tags.skip(1), syntax);
    }
}

/// What is done after the Harmony calls have been taken out changes no text
/// without calls, but for the cleaning.
proof fn lemma_idle(s: Seq<char>, calls: Seq<CallView>)
    requires
        no_call_in(s),
    ensures
        harmony(s, calls) == Some(Scan { text: s, calls }),
        tagged(Scan { text: s, calls }, gemma_tags(), Syntax::Gemma) == (Scan { text: s, calls }),
        gemma_bare(s, calls) == (Scan { text: s, calls }),
        xml_calls(s, calls) == Some(Scan { text: s, calls }),
        tagged(Scan { text: s, calls }, json_tags(), Syntax::Json) == (Scan { text: s, calls }),
        json_untagged(Scan { text: s, calls }) == (Scan { text: s, calls }),
{
    lemma_tagged_idle(Scan { text: s, calls }, gemma_tags(), Syntax::Gemma);
    lemma_tagged_idle(Scan { text: s, calls }, json_tags(), Syntax::Json);
}

/// A text without tool calls gives none; it is only cleaned and trimmed.
pub proof fn law_text_without_calls(raw: Seq<char>)
    requires
        no_call_in(raw),
    ensures
        extraction(raw) == Some(Scan { text: trim(visible(raw)), calls: Seq::empty() }),
{
    lemma_idle(raw, Seq::empty());
}

// ---------------------------------------------------------------------------
// A text with one call

/// A call in the Harmony syntax that is the only one in a text is given, and what
/// is left is the text around it.
pub proof fn law_harmony_call_is_found(raw: Seq<char>)
    requires
        harmony_call_in(raw),
        harmony_site(raw)->0.to is Some,
        no_call_in(cut(raw, harmony_site(raw)->0.from, harmony_site(raw)->0.to->0)),
    ensures
        ({
            let site = harmony_site(raw)->0;
            extraction(raw) == Some(
                Scan {
                    text: trim(visible(cut(raw, site.from, site.to->0))),
                    calls: seq![
                        CallView { name: site.name, arguments: object_in(site.raw)->0 },
                    ],
                },
            )
        }),
{
    let site = harmony_site(raw)->0;
    let rest = cut(raw, site.from, site.to->0);
    let call = CallView { name: site.name, arguments: object_in(site.raw)->0 };
    let calls = Seq::<CallView>::empty().push(call);
    assert(calls =~= seq![call]);
    lemma_harmony_site(raw);
    lemma_idle(rest, calls);
    assert(harmony(raw, Seq::empty()) == harmony(rest, calls));
}

/// A block between the tags of pair `k` that is the only one is taken out.
proof fn lemma_tagged_one(
    s: Seq<char>,
    tags: Seq<(Seq<char>, Seq<char>)>,
    syntax: Syntax,
    k: int,
    from: int,
    end: int,
    to: int,
)
    requires
        0 <= k < tags.len(),
        forall|j: int| 0 <= j < tags.len() ==> (#[trigger] tags[j]).0.len() > 0,
        forall|j: int| 0 <= j < k ==> block(s, (#[trigger] tags[j]).0, tags[j].1) is None,
        block(s, tags[k].0, tags[k].1) == Some((from, end, to)),
        !block_in(cut(s, from, to), tags),
    ensures
        tagged(Scan { text: s, calls: Seq::empty() }, tags, syntax) == (Scan {
            text: cut(s, from, to),
            calls: with_block(Seq::empty(), block_inner(s, tags[k].0, tags[k].1), syntax),
        }),
    decreases k,
{
    let rest = cut(s, from, to);
    let tail = tags.skip(1);
    let start = Scan { text: s, calls: Seq::<CallView>::empty() };
    assert forall|j: int| 0 <= j < tail.len() implies #[trigger] tail[j] == tags[j + 1] by {}
    assert forall|j: int| 0 <= j < tail.len() implies block(
        rest,
        (#[trigger] tail[j]).0,
        tail[j].1,
    ) is None by {
        assert(tail[j] == tags[j + 1]);
    }
    if k == 0 {
        let next = Scan {
            text: rest,
            calls: with_block(Seq::empty(), block_inner(s, tags[0].0, tags[0].1), syntax),
        };
        lemma_block(s, tags[0].0, tags[0].1);
        assert(block(rest, tags[0].0, tags[0].1) is None);
        assert(call_blocks(next, tags[0].0, tags[0].1, syntax) == next);
        lemma_tagged_idle(next, tail, syntax);
    } else {
        assert(block(s, tags[0].0, tags[0].1) is None);
        assert(call_blocks(start, tags[0].0, tags[0].1, syntax) == start);
        lemma_tagged_one(s, tail, syntax, k - 1, from, end, to);
    }
}

/// A call in the Gemma syntax between the tags of pair `k` that is the only one in
/// a text is given, and what is left is the text around it.
pub proof fn law_gemma_call_is_found(raw: Seq<char>, k: int, from: int, end: int, to: int)
    requires
        !harmony_call_in(raw),
        0 <= k < gemma_tags().len(),
        forall|j: int|
            0 <= j < k ==> block(raw, (#[trigger] gemma_tags()[j]).0, gemma_tags()[j].1) is None,
        block(raw, gemma_tags()[k].0, gemma_tags()[k].1) == Some((from, end, to)),
        no_call_in(cut(raw, from, to)),
    ensures
        extraction(raw) == Some(
            Scan {
                text: trim(visible(cut(raw, from, to))),
                calls: with_call(
                    Seq::empty(),
                    gemma_call(block_inner(raw, gemma_tags()[k].0, gemma_tags()[k].1)),
                ),
            },
        ),
{
    reveal_strlit("<|tool_call>call:");
    reveal_strlit("<tool_call>call:");
    let tags = gemma_tags();
    let calls = with_call(Seq::empty(), gemma_call(block_inner(raw, tags[k].0, tags[k].1)));
    lemma_tagged_one(raw, tags, Syntax::Gemma, k, from, end, to);
    lemma_idle(cut(raw, from, to), calls);
}

/// A call `call:name{...}` without tags that is the only one in a text is given,
/// and what is left is the text around it.
pub proof fn law_bare_call_is_found(raw: Seq<char>)
    requires
        !harmony_call_in(raw),
        !block_in(raw, gemma_tags()),
        bare_call_in(raw),
        ({
            let from = find(raw, "call:"@)->0;
            no_call_in(cut(raw, from, brace_end(raw, from + "call:"@.len())->0))
        }),
    ensures
        ({
            let from = find(raw, "call:"@)->0;
            let start = from + "call:"@.len();
            let end = brace_end(raw, start)->0;
            extraction(raw) == Some(
                Scan {
                    text: trim(visible(cut(raw, from, end))),
                    calls: seq![gemma_call(raw.subrange(start, end))->0],
                },
            )
        }),
{
    let from = find(raw, "call:"@)->0;
    let start = from + "call:"@.len();
    let end = brace_end(raw, start)->0;
    let rest = cut(raw, from, end);
    let call = gemma_call(raw.subrange(start, end))->0;
    let calls = Seq::<CallView>::empty().push(call);
    assert(calls =~= seq![call]);
    lemma_find_from(raw, "call:"@, 0);
    lemma_brace_end(raw, start);
    lemma_tagged_idle(Scan { text: raw, calls: Seq::empty() }, gemma_tags(), Syntax::Gemma);
    lemma_idle(rest, calls);
    assert(gemma_bare(raw, Seq::empty()) == gemma_bare(rest, calls));
}

/// A call in the XML syntax that is the only one in a text is given with its
/// parameters, and what is left is the text around it.
pub proof fn law_xml_call_is_found(raw: Seq<char>)
    requires
        !harmony_call_in(raw),
        !block_in(raw, gemma_tags()),
        !bare_call_in(raw),
        xml_site(raw) is Some,
        xml_site(raw)->0.to is Some,
        no_call_in(cut(raw, xml_site(raw)->0.from, xml_site(raw)->0.to->0)),
    ensures
        ({
            let site = xml_site(raw)->0;
            extraction(raw) == Some(
                Scan {
                    text: trim(visible(cut(raw, site.from, site.to->0))),
                    calls: seq![
                        CallView {
                            name: site.name,
                            arguments: members_text(parameters(site.raw, no_members())),
                        },
                    ],
                },
            )
        }),
{
    let site = xml_site(raw)->0;
    let rest = cut(raw, site.from, site.to->0);
    let call = CallView {
        name: site.name,
        arguments: members_text(parameters(site.raw, no_members())),
    };
    let calls = Seq::<CallView>::empty().push(call);
    assert(calls =~= seq![call]);
    lemma_xml_site(raw);
    lemma_tagged_idle(Scan { text: raw, calls: Seq::empty() }, gemma_tags(), Syntax::Gemma);
    lemma_idle(rest, calls);
    assert(xml_calls(raw, Seq::empty()) == xml_calls(rest, calls));
}

/// The calls in a JSON block between the tags of pair `k`, where there are no
/// others in a text, are given, and what is left is the text around the block.
pub proof fn law_json_calls_are_found(raw: Seq<char>, k: int, from: int, end: int, to: int)
    requires
        !harmony_call_in(raw),
        !block_in(raw, gemma_tags()),
        !bare_call_in(raw),
        xml_site(raw) is None,
        0 <= k < json_tags().len(),
        forall|j: int|
            0 <= j < k ==> block(raw, (#[trigger] json_tags()[j]).0, json_tags()[j].1) is None,
        block(raw, json_tags()[k].0, json_tags()[k].1) == Some((from, end, to)),
        no_call_in(cut(raw, from, to)),
    ensures
        extraction(raw) == Some(
            Scan {
                text: trim(visible(cut(raw, from, to))),
                calls: with_json(
                    Seq::empty(),
                    trim(block_inner(raw, json_tags()[k].0, json_tags()[k].1)),
                ),
            },
        ),
{
    reveal_strlit("<tool_call>");
    reveal_strlit("<toolcall>");
    reveal_strlit("```tool_call");
    reveal_strlit("<|tool_call>");
    reveal_strlit("[TOOL_CALLS]");
    let tags = json_tags();
    let calls = with_json(Seq::empty(), trim(block_inner(raw, tags[k].0, tags[k].1)));
    lemma_tagged_idle(Scan { text: raw, calls: Seq::empty() }, gemma_tags(), Syntax::Gemma);
    lemma_tagged_one(raw, tags, Syntax::Json, k, from, end, to);
    lemma_idle(cut(raw, from, to), calls);
}

/// The calls in the JSON array after a `[TOOL_CALLS]` without an end tag, where
/// there are no others in a text, are given, and what is left is the text before
/// the tag.
pub proof fn law_mistral_calls_are_found(raw: Seq<char>)
    requires
        !harmony_call_in(raw),
        !block_in(raw, gemma_tags()),
        !bare_call_in(raw),
        xml_site(raw) is None,
        !block_in(raw, json_tags()),
        untagged_in(raw),
    ensures
        ({
            let from = find(raw, "[TOOL_CALLS]"@)->0;
            let rest = trim_start(raw.subrange(from + "[TOOL_CALLS]"@.len(), raw.len() as int));
            extraction(raw) == Some(
                Scan {
                    text: trim(visible(raw.subrange(0, from))),
                    calls: match whole(rest)->0.shape {
                        Shape::Array(n) => with_items(Seq::empty(), rest, n),
                        _ => with_call(Seq::empty(), json_call(whole(rest)->0.text)),
                    },
                },
            )
        }),
{
    let start = Scan { text: raw, calls: Seq::<CallView>::empty() };
    lemma_tagged_idle(start, gemma_tags(), Syntax::Gemma);
    lemma_tagged_idle(start, json_tags(), Syntax::Json);
}

// ---------------------------------------------------------------------------
// What is not shown

/// Nothing in the text is kept from the user: no channel, header or control token.
pub open spec fn nothing_hidden(s: Seq<char>) -> bool {
    &&& forall|k: int|
        0 <= k < channel_tags().len() ==> !mentions(s, (#[trigger] channel_tags()[k]).0)
    &&& !mentions(s, "to="@)
    &&& forall|k: int|
        0 <= k < stray_tokens().len() ==> !mentions(s, #[trigger] stray_tokens()[k])
}

proof fn lemma_channels_idle(s: Seq<char>, tags: Seq<(Seq<char>, Seq<char>)>)
    requires
        forall|k: int| 0 <= k < tags.len() ==> !mentions(s, (#[trigger] tags[k]).0),
    ensures
        without_channels(s, tags) == s,
    decreases tags.len(),
{
    if tags.len() > 0 {
        assert(!mentions(s, tags[0].0));
        assert forall|k: int| 0 <= k < tags.skip(1).len() implies !mentions(
            s,
            (#[trigger] tags.skip(1)[k]).0,
        ) by {
            assert(tags.skip(1)[k] == tags[k + 1]);
        }
        lemma_channels_idle(s, tags.skip(1));
    }
}

proof fn lemma_tokens_idle(s: Seq<char>, tokens: Seq<Seq<char>>)
    requires
        forall|k: int| 0 <= k < tokens.len() ==> !mentions(s, #[trigger] tokens[k]),
    ensures
        without_tokens(s, tokens) == s,
    decreases tokens.len(),
{
    if tokens.len() > 0 {
        assert(!mentions(s, tokens[0]));
        assert forall|k: int| 0 <= k < tokens.skip(1).len() implies !mentions(
            s,
            #[trigger] tokens.skip(1)[k],
        ) by {
            assert(tokens.skip(1)[k] == tokens[k + 1]);
        }
        lemma_tokens_idle(s, tokens.skip(1));
    }
}

/// A text without channels, headers and control tokens is shown as it is.
pub proof fn law_plain_text_is_shown(s: Seq<char>)
    requires
        nothing_hidden(s),
    ensures
        visible(s) == s,
{
    lemma_channels_idle(s, channel_tags());
    lemma_tokens_idle(s, stray_tokens());
}

proof fn lemma_channel_one(
    s: Seq<char>,
    tags: Seq<(Seq<char>, Seq<char>)>,
    k: int,
    from: int,
    end: int,
    to: int,
)
    requires
        0 <= k < tags.len(),
        tags[k].0.len() > 0,
        forall|j: int| 0 <= j < k ==> !mentions(s, (#[trigger] tags[j]).0),
        block(s, tags[k].0, tags[k].1) == Some((from, end, to)),
        forall|j: int| 0 <= j < tags.len() ==> !mentions(cut(s, from, to), (#[trigger] tags[j]).0),
    ensures
        without_channels(s, tags) == cut(s, from, to),
    decreases k,
{
    let rest = cut(s, from, to);
    let tail = tags.skip(1);
    assert forall|j: int| 0 <= j < tail.len() implies #[trigger] tail[j] == tags[j + 1] by {}
    if k == 0 {
        lemma_block(s, tags[0].0, tags[0].1);
        assert(!mentions(rest, tags[0].0));
        assert(without_blocks(rest, tags[0].0, tags[0].1) == rest);
        assert(without_blocks(s, tags[0].0, tags[0].1) == rest);
        lemma_channels_idle(rest, tail);
    } else {
        assert(!mentions(s, tags[0].0));
        assert(without_blocks(s, tags[0].0, tags[0].1) == s);
        lemma_channel_one(s, tail, k - 1, from, end, to);
    }
}

/// A thought between the tags of pair `k`, where nothing else of a text is kept
/// from the user, is taken out, and the text around it is shown.
pub proof fn law_thought_is_hidden(s: Seq<char>, k: int, from: int, end: int, to: int)
    requires
        0 <= k < channel_tags().len(),
        forall|j: int| 0 <= j < k ==> !mentions(s, (#[trigger] channel_tags()[j]).0),
        block(s, channel_tags()[k].0, channel_tags()[k].1) == Some((from, end, to)),
        nothing_hidden(cut(s, from, to)),
    ensures
        visible(s) == cut(s, from, to),
{
    reveal_strlit("to=self<|message|>");
    reveal_strlit("<|start|>assistant to=self<|message|>");
    reveal_strlit("<|channel>thought\n");
    reveal_strlit("<|channel>thought");
    reveal_strlit("<|channel|>thought\n");
    reveal_strlit("<|channel|>thought");
    reveal_strlit("<|channel|>analysis\n");
    reveal_strlit("<|channel|>analysis");
    reveal_strlit("<|channel|>commentary\n");
    reveal_strlit("<|channel|>commentary");
    reveal_strlit("<thought>");
    reveal_strlit("<think>");
    lemma_channel_one(s, channel_tags(), k, from, end, to);
    lemma_tokens_idle(cut(s, from, to), stray_tokens());
}

// ---------------------------------------------------------------------------
// Nothing is made up

/// `at` tells for each character of `t` where in `s` it stands, in order.
pub open spec fn picks(at: Seq<int>, t: Seq<char>, s: Seq<char>) -> bool {
    &&& at.len() == t.len()
    &&& forall|i: int| 0 <= i < at.len() ==> 0 <= #[trigger] at[i] < s.len() && t[i] == s[at[i]]
    &&& forall|i: int, j: int| 0 <= i < j < at.len() ==> #[trigger] at[i] < #[trigger] at[j]
}

/// `t` is `s` with some characters left out.
pub open spec fn is_left_of(t: Seq<char>, s: Seq<char>) -> bool {
    exists|at: Seq<int>| picks(at, t, s)
}

proof fn lemma_left_of_chain(a: Seq<char>, b: Seq<char>, c: Seq<char>)
    requires
        is_left_of(a, b),
        is_left_of(b, c),
    ensures
        is_left_of(a, c),
{
    let f = choose|at: Seq<int>| picks(at, a, b);
    let g = choose|at: Seq<int>| picks(at, b, c);
    let h = Seq::new(f.len(), |i: int| g[f[i]]);
    assert forall|i: int| 0 <= i < h.len() implies 0 <= #[trigger] h[i] < c.len() && a[i]
        == c[h[i]] by {
        assert(0 <= f[i] < b.len());
        assert(0 <= g[f[i]] < c.len());
    }
    assert forall|i: int, j: int| 0 <= i < j < h.len() implies #[trigger] h[i] < #[trigger] h[j] by {
        assert(f[i] < f[j]);
        assert(g[f[i]] < g[f[j]]);
    }
    assert(picks(h, a, c));
}

proof fn lemma_left_of_self(s: Seq<char>)
    ensures
        is_left_of(s, s),
{
    assert(picks(Seq::new(s.len(), |i: int| i), s, s));
}

proof fn lemma_left_of_subrange(s: Seq<char>, a: int, b: int)
    requires
        0 <= a <= b <= s.len(),
    ensures
        is_left_of(s.subrange(a, b), s),
{
    assert(picks(Seq::new((b - a) as nat, |i: int| a + i), s.subrange(a, b), s));
}

proof fn lemma_left_of_cut(s: Seq<char>, a: int, b: int)
    requires
        0 <= a <= b <= s.len(),
    ensures
        is_left_of(cut(s, a, b), s),
{
    let at = Seq::new(
        cut(s, a, b).len(),
        |i: int|
            if i < a {
                i
            } else {
                i + b - a
            },
    );
    assert(picks(at, cut(s, a, b), s));
}

proof fn lemma_left_of_trim_start(s: Seq<char>)
    ensures
        is_left_of(trim_start(s), s),
    decreases s.len(),
{
    if s.len() > 0 && is_white(s[0]) {
        lemma_left_of_trim_start(s.skip(1));
        lemma_left_of_subrange(s, 1, s.len() as int);
        lemma_left_of_chain(trim_start(s), s.skip(1), s);
    } else {
        lemma_left_of_self(s);
    }
}

proof fn lemma_left_of_trim_end(s: Seq<char>)
    ensures
        is_left_of(trim_end(s), s),
    decreases s.len(),
{
    if s.len() > 0 && is_white(s.last()) {
        lemma_left_of_trim_end(s.drop_last());
        lemma_left_of_subrange(s, 0, s.len() - 1);
        lemma_left_of_chain(trim_end(s), s.drop_last(), s);
    } else {
        lemma_left_of_self(s);
    }
}

proof fn lemma_left_of_trim(s: Seq<char>)
    ensures
        is_left_of(trim(s), s),
{
    lemma_left_of_trim_start(s);
    lemma_left_of_trim_end(trim_start(s));
    lemma_left_of_chain(trim(s), trim_start(s), s);
}

proof fn lemma_left_of_harmony(text: Seq<char>, calls: Seq<CallView>)
    ensures
        harmony(text, calls) matches Some(scan) ==> is_left_of(scan.text, text),
    decreases text.len(),
{
    lemma_left_of_self(text);
    lemma_harmony_site(text);
    if let Some(site) = harmony_site(text) {
        if let (Some(arguments), Some(to)) = (object_in(site.raw), site.to) {
            let rest = cut(text, site.from, to);
            let next = calls.push(CallView { name: site.name, arguments });
            lemma_left_of_harmony(rest, next);
            lemma_left_of_cut(text, site.from, to);
            if let Some(scan) = harmony(rest, next) {
                lemma_left_of_chain(scan.text, rest, text);
            }
        }
    }
}

proof fn lemma_left_of_blocks(start: Scan, open: Seq<char>, close: Seq<char>, syntax: Syntax)
    ensures
        is_left_of(call_blocks(start, open, close, syntax).text, start.text),
    decreases start.text.len(),
{
    lemma_left_of_self(start.text);
    lemma_block(start.text, open, close);
    if let Some((from, _, to)) = block(start.text, open, close) {
        if open.len() > 0 {
            let rest = cut(start.text, from, to);
            let inner = block_inner(start.text, open, close);
            let next = Scan { text: rest, calls: with_block(start.calls, inner, syntax) };
            lemma_left_of_blocks(next, open, close, syntax);
            lemma_left_of_cut(start.text, from, to);
            lemma_left_of_chain(call_blocks(next, open, close, syntax).text, rest, start.text);
        }
    }
}

proof fn lemma_left_of_tagged(start: Scan, tags: Seq<(Seq<char>, Seq<char>)>, syntax: Syntax)
    ensures
        is_left_of(tagged(start, tags, syntax).text, start.text),
    decreases tags.len(),
{
    lemma_left_of_self(start.text);
    if tags.len() > 0 {
        let next = call_blocks(start, tags[0].0, tags[0].1, syntax);
        lemma_left_of_blocks(start, tags[0].0, tags[0].1, syntax);
        lemma_left_of_tagged(next, tags.skip(1), syntax);
        lemma_left_of_chain(tagged(next, tags.skip(1), syntax).text, next.text, start.text);
    }
}

proof fn lemma_left_of_gemma_bare(text: Seq<char>, calls: Seq<CallView>)
    ensures
        is_left_of(gemma_bare(text, calls).text, text),
    decreases text.len(),
{
    lemma_left_of_self(text);
    lemma_find_from(text, "call:"@, 0);
    if let Some(from) = find(text, "call:"@) {
        let start = from + "call:"@.len();
        lemma_brace_end(text, start);
        if let Some(end) = brace_end(text, start) {
            if let Some(call) = gemma_call(text.subrange(start, end)) {
                let rest = cut(text, from, end);
                lemma_left_of_gemma_bare(rest, calls.push(call));
                lemma_left_of_cut(text, from, end);
                lemma_left_of_chain(gemma_bare(rest, calls.push(call)).text, rest, text);
            }
        }
    }
}

proof fn lemma_left_of_xml(text: Seq<char>, calls: Seq<CallView>)
    ensures
        xml_calls(text, calls) matches Some(scan) ==> is_left_of(scan.text, text),
    decreases text.len(),
{
    lemma_left_of_self(text);
    lemma_xml_site(text);
    if let Some(site) = xml_site(text) {
        if let Some(to) = site.to {
            let rest = cut(text, site.from, to);
            let arguments = members_text(parameters(site.raw, no_members()));
            let next = calls.push(CallView { name: site.name, arguments });
            lemma_left_of_xml(rest, next);
            lemma_left_of_cut(text, site.from, to);
            if let Some(scan) = xml_calls(rest, next) {
                lemma_left_of_chain(scan.text, rest, text);
            }
        }
    }
}

proof fn lemma_left_of_json_untagged(start: Scan)
    ensures
        is_left_of(json_untagged(start).text, start.text),
{
    lemma_left_of_self(start.text);
    lemma_find_from(start.text, "[TOOL_CALLS]"@, 0);
    if let Some(from) = find(start.text, "[TOOL_CALLS]"@) {
        lemma_left_of_subrange(start.text, 0, from);
    }
}

proof fn lemma_left_of_without_blocks(s: Seq<char>, open: Seq<char>, close: Seq<char>)
    ensures
        is_left_of(without_blocks(s, open, close), s),
    decreases s.len(),
{
    lemma_left_of_self(s);
    lemma_find_from(s, open, 0);
    lemma_block(s, open, close);
    if let Some(from) = find(s, open) {
        if open.len() > 0 {
            let to = match block(s, open, close) {
                Some((_, _, to)) => to,
                None => from + open.len(),
            };
            let rest = cut(s, from, to);
            lemma_left_of_without_blocks(rest, open, close);
            lemma_left_of_cut(s, from, to);
            lemma_left_of_chain(without_blocks(rest, open, close), rest, s);
        }
    }
}

proof fn lemma_left_of_without_channels(s: Seq<char>, tags: Seq<(Seq<char>, Seq<char>)>)
    ensures
        is_left_of(without_channels(s, tags), s),
    decreases tags.len(),
{
    lemma_left_of_self(s);
    if tags.len() > 0 {
        let next = without_blocks(s, tags[0].0, tags[0].1);
        lemma_left_of_without_blocks(s, tags[0].0, tags[0].1);
        lemma_left_of_without_channels(next, tags.skip(1));
        lemma_left_of_chain(without_channels(next, tags.skip(1)), next, s);
    }
}

proof fn lemma_left_of_without_headers(s: Seq<char>)
    ensures
        is_left_of(without_headers(s), s),
    decreases s.len(),
{
    reveal_strlit("to=");
    lemma_left_of_self(s);
    lemma_find_from(s, "to="@, 0);
    if let Some(from) = find(s, "to="@) {
        let to = header_end(s, from);
        lemma_header_end(s, from);
        let rest = cut(s, from, to);
        lemma_left_of_without_headers(rest);
        lemma_left_of_cut(s, from, to);
        lemma_left_of_chain(without_headers(rest), rest, s);
    }
}

proof fn lemma_left_of_replace(s: Seq<char>, p: Seq<char>)
    ensures
        is_left_of(replace_all(s, p, Seq::empty()), s),
    decreases s.len(),
{
    lemma_left_of_self(s);
    lemma_find_from(s, p, 0);
    if let Some(i) = find(s, p) {
        if p.len() > 0 {
            let k = i + p.len();
            let tail = s.skip(k);
            let kept = replace_all(tail, p, Seq::empty());
            lemma_left_of_replace(tail, p);
            let f = choose|at: Seq<int>| picks(at, kept, tail);
            let at = Seq::new(
                (i + f.len()) as nat,
                |j: int|
                    if j < i {
                        j
                    } else {
                        k + f[j - i]
                    },
            );
            let all = replace_all(s, p, Seq::empty());
            assert(all =~= s.take(i) + kept);
            assert forall|j: int| 0 <= j < at.len() implies 0 <= #[trigger] at[j] < s.len() && all[j]
                == s[at[j]] by {
                if j >= i {
                    assert(0 <= f[j - i] < tail.len());
                    assert(kept[j - i] == tail[f[j - i]]);
                }
            }
            assert forall|a: int, b: int| 0 <= a < b < at.len() implies #[trigger] at[a]
                < #[trigger] at[b] by {
                if a >= i {
                    assert(f[a - i] < f[b - i]);
                } else if b >= i {
                    assert(0 <= f[b - i]);
                }
            }
            assert(picks(at, all, s));
        }
    }
}

proof fn lemma_left_of_without_tokens(s: Seq<char>, tokens: Seq<Seq<char>>)
    ensures
        is_left_of(without_tokens(s, tokens), s),
    decreases tokens.len(),
{
    lemma_left_of_self(s);
    if tokens.len() > 0 {
        let next = replace_all(s, tokens[0], Seq::empty());
        lemma_left_of_replace(s, tokens[0]);
        lemma_left_of_without_tokens(next, tokens.skip(1));
        lemma_left_of_chain(without_tokens(next, tokens.skip(1)), next, s);
    }
}

/// What is shown of a text is the text with some characters left out.
pub proof fn law_shown_text_is_left_of_text(s: Seq<char>)
    ensures
        is_left_of(visible(s), s),
{
    let a = without_channels(s, channel_tags());
    let b = without_headers(a);
    lemma_left_of_without_channels(s, channel_tags());
    lemma_left_of_without_headers(a);
    lemma_left_of_without_tokens(b, stray_tokens());
    lemma_left_of_chain(b, a, s);
    lemma_left_of_chain(visible(s), b, s);
}

/// The text for the user is the model's output with some characters left out:
/// nothing is added and nothing changes its place.
pub proof fn law_content_is_left_of_output(raw: Seq<char>)
    ensures
        extraction(raw) matches Some(scan) ==> is_left_of(scan.text, raw),
{
    lemma_left_of_harmony(raw, Seq::empty());
    if let Some(a) = harmony(raw, Seq::empty()) {
        let b = tagged(a, gemma_tags(), Syntax::Gemma);
        lemma_left_of_tagged(a, gemma_tags(), Syntax::Gemma);
        lemma_left_of_chain(b.text, a.text, raw);
        let c = gemma_bare(b.text, b.calls);
        lemma_left_of_gemma_bare(b.text, b.calls);
        lemma_left_of_chain(c.text, b.text, raw);
        lemma_left_of_xml(c.text, c.calls);
        if let Some(d) = xml_calls(c.text, c.calls) {
            lemma_left_of_chain(d.text, c.text, raw);
            let e = tagged(d, json_tags(), Syntax::Json);
            lemma_left_of_tagged(d, json_tags(), Syntax::Json);
            lemma_left_of_chain(e.text, d.text, raw);
            let f = json_untagged(e);
            lemma_left_of_json_untagged(e);
            lemma_left_of_chain(f.text, e.text, raw);
            law_shown_text_is_left_of_text(f.text);
            lemma_left_of_chain(visible(f.text), f.text, raw);
            lemma_left_of_trim(visible(f.text));
            lemma_left_of_chain(trim(visible(f.text)), visible(f.text), raw);
        }
    }
}

proof fn lemma_trim_start_head(s: Seq<char>)
    ensures
        trim_start(s).len() > 0 ==> !is_white(trim_start(s)[0]),
    decreases s.len(),
{
    if s.len() > 0 && is_white(s[0]) {
        lemma_trim_start_head(s.skip(1));
    }
}

proof fn lemma_trim_end_ends(s: Seq<char>)
    ensures
        trim_end(s).len() <= s.len(),
        trim_end(s).len() > 0 ==> !is_white(trim_end(s).last()) && trim_end(s)[0] == s[0],
    decreases s.len(),
{
    if s.len() > 0 && is_white(s.last()) {
        lemma_trim_end_ends(s.drop_last());
    }
}

/// The text for the user has no white space at its beginning and end.
pub proof fn law_content_is_trimmed(raw: Seq<char>)
    ensures
        extraction(raw) matches Some(scan) ==> trim(scan.text) == scan.text,
{
    if let Some(scan) = extraction(raw) {
        let s = choose|s: Seq<char>| scan.text == #[trigger] trim(s);
        lemma_trim_start_head(s);
        lemma_trim_end_ends(trim_start(s));
    }
}

// ---------------------------------------------------------------------------
// Calls that a prompt shows

/// A text that does not hold a part of `p` does not hold `p`.
proof fn lemma_part_absent(s: Seq<char>, p: Seq<char>, q: Seq<char>, n: int)
    requires
        0 <= n,
        n + q.len() <= p.len(),
        p.subrange(n, n + q.len()) == q,
        find(s, q) is None,
    ensures
        find(s, p) is None,
{
    lemma_find_from(s, p, 0);
    lemma_find_from(s, q, 0);
    if let Some(i) = find(s, p) {
        assert(s.subrange(i + n, i + n + q.len()) =~= s.subrange(i, i + p.len()).subrange(
            n,
            n + q.len(),
        ));
        assert(occurs_at(s, q, i + n));
    }
}

/// No call stands in an empty text.
pub(crate) proof fn lemma_no_call_in_nothing()
    ensures
        no_call_in(Seq::empty()),
        trim(visible(Seq::<char>::empty())) == Seq::<char>::empty(),
{
    let none = Seq::<char>::empty();
    reveal_strlit("to=functions.");
    reveal_strlit("<|tool_call>call:");
    reveal_strlit("<tool_call>call:");
    reveal_strlit("call:");
    reveal_strlit("<function=");
    reveal_strlit("<tool_call>");
    reveal_strlit("<toolcall>");
    reveal_strlit("```tool_call");
    reveal_strlit("<|tool_call>");
    reveal_strlit("[TOOL_CALLS]");
    assert forall|k: int| 0 <= k < gemma_tags().len() implies block(
        none,
        (#[trigger] gemma_tags()[k]).0,
        gemma_tags()[k].1,
    ) is None by {
        assert(gemma_tags()[k].0.len() > 0);
    }
    assert forall|k: int| 0 <= k < json_tags().len() implies block(
        none,
        (#[trigger] json_tags()[k]).0,
        json_tags()[k].1,
    ) is None by {
        assert(json_tags()[k].0.len() > 0);
    }
    law_shown_text_is_left_of_text(none);
    let at = choose|at: Seq<int>| picks(at, visible(none), none);
    if visible(none).len() > 0 {
        assert(0 <= at[0] < none.len());
    }
    assert(visible(none) =~= none);
}

/// A call as a ChatML prompt shows it.
pub(crate) proof fn lemma_shown_call(call: CallView)
    ensures
        chatml_calls(seq![call]) == "<tool_call>\n"@ + call_object(call) + "\n</tool_call>"@,
        call_object(call).len() >= 2,
        call_object(call)[0] == '{',
        call_object(call).last() == '}',
{
    let none = Seq::<CallView>::empty();
    assert(seq![call].drop_last() =~= none);
    assert(chatml_calls(none) == Seq::<char>::empty());
    assert(chatml_calls(seq![call]) == chatml_calls(none) + "<tool_call>\n"@ + call_object(call)
        + "\n</tool_call>"@);
    assert(chatml_calls(seq![call]) =~= "<tool_call>\n"@ + call_object(call) + "\n</tool_call>"@);
}

/// What stands between two lines and in neither of them does not stand in the whole,
/// unless it stands in what is between them.
proof fn lemma_between_lines(head: Seq<char>, s: Seq<char>, foot: Seq<char>, p: Seq<char>, i: int)
    requires
        head.len() > 0,
        head.last() == '\n',
        foot.len() > 0,
        foot[0] == '\n',
        !p.contains('\n'),
        p.len() > 0,
        occurs_at(head + s + foot, p, i),
        !mentions(s, p),
    ensures
        i + p.len() < head.len() && occurs_at(head, p, i) || i > head.len() + s.len() && occurs_at(
            foot,
            p,
            i - head.len() - s.len(),
        ),
{
    let raw = head + s + foot;
    let n = head.len() as int;
    let m = (head.len() + s.len()) as int;
    let own = raw.subrange(i, i + p.len());
    if i < n <= i + p.len() {
        assert(own[n - 1 - i] == raw[n - 1]);
        assert(raw[n - 1] == head.last());
        assert(p.contains(p[n - 1 - i]));
    }
    if i <= m < i + p.len() {
        assert(own[m - i] == raw[m]);
        assert(raw[m] == foot[0]);
        assert(p.contains(p[m - i]));
    }
    if n <= i && i + p.len() <= m {
        assert(s.subrange(i - n, i - n + p.len()) =~= own);
        assert(occurs_at(s, p, i - n));
        lemma_find_from(s, p, 0);
    }
    if i + p.len() < n {
        assert(head.subrange(i, i + p.len()) =~= own);
    }
    if i > m {
        assert(foot.subrange(i - m, i - m + p.len()) =~= own);
    }
}

/// What stands neither in a call that a ChatML prompt shows nor in the lines around
/// it does not stand in the whole.
pub(crate) proof fn lemma_shown_lacks(object: Seq<char>, p: Seq<char>, c: char, n: int)
    requires
        !mentions(object, p),
        !p.contains('\n'),
        0 <= n < p.len(),
        p[n] == c,
        !"<tool_call>\n"@.contains(c),
        !"\n</tool_call>"@.contains(c),
    ensures
        find("<tool_call>\n"@ + object + "\n</tool_call>"@, p) is None,
{
    let head = "<tool_call>\n"@;
    let foot = "\n</tool_call>"@;
    let raw = head + object + foot;
    reveal_strlit("<tool_call>\n");
    reveal_strlit("\n</tool_call>");
    lemma_find_from(raw, p, 0);
    if let Some(i) = find(raw, p) {
        lemma_between_lines(head, object, foot, p, i);
        if i + p.len() < head.len() {
            assert(head.subrange(i, i + p.len())[n] == head[i + n]);
        } else {
            let j = i - head.len() - object.len();
            assert(foot.subrange(j, j + p.len())[n] == foot[j + n]);
        }
    }
}

/// Where the tags of a call stand that a ChatML prompt shows, and what is between
/// them.
proof fn lemma_shown_block(object: Seq<char>)
    requires
        object.len() >= 2,
        object[0] == '{',
        object.last() == '}',
        !mentions(object, "</tool_call>"@),
    ensures
        ({
            let raw = "<tool_call>\n"@ + object + "\n</tool_call>"@;
            let end = object.len() as int + 13;
            &&& block(raw, "<tool_call>"@, "</tool_call>"@) == Some((0int, end, raw.len() as int))
            &&& trim(block_inner(raw, "<tool_call>"@, "</tool_call>"@)) == object
            &&& cut(raw, 0, raw.len() as int) == Seq::<char>::empty()
        }),
{
    let head = "<tool_call>\n"@;
    let foot = "\n</tool_call>"@;
    let raw = head + object + foot;
    let open = "<tool_call>"@;
    let close = "</tool_call>"@;
    let end = object.len() as int + 13;
    reveal_strlit("<tool_call>\n");
    reveal_strlit("\n</tool_call>");
    reveal_strlit("<tool_call>");
    reveal_strlit("</tool_call>");
    assert(raw.subrange(0, 11) =~= open);
    assert(raw.subrange(end, end + 12) =~= close);
    assert(occurs_at(raw, close, end));
    lemma_find_from(raw, close, 11);
    let e = find_from(raw, close, 11)->0;
    lemma_between_lines(head, object, foot, close, e);
    assert(e == end);
    let inner = raw.subrange(11, end);
    assert(inner =~= seq!['\n'] + object + seq!['\n']);
    assert(inner.skip(1) =~= object + seq!['\n']);
    let tail = inner.skip(1);
    assert(tail[0] == '{');
    assert(trim_start(tail) == tail);
    assert(trim_start(inner) == tail);
    assert(tail.last() == '\n');
    assert(tail.drop_last() =~= object);
    assert(trim_end(object) == object);
    assert(cut(raw, 0, raw.len() as int) =~= Seq::<char>::empty());
}

/// A call that a ChatML prompt shows holds no call in another syntax.
proof fn lemma_shown_alone(object: Seq<char>)
    requires
        is_unmarked(object),
    ensures
        ({
            let raw = "<tool_call>\n"@ + object + "\n</tool_call>"@;
            &&& !harmony_call_in(raw)
            &&& !block_in(raw, gemma_tags())
            &&& !bare_call_in(raw)
            &&& xml_site(raw) is None
        }),
{
    let raw = "<tool_call>\n"@ + object + "\n</tool_call>"@;
    reveal_strlit("<tool_call>\n");
    reveal_strlit("\n</tool_call>");
    reveal_strlit("to=functions.");
    reveal_strlit("<function=");
    reveal_strlit("call:");
    reveal_strlit("<|tool_call>call:");
    reveal_strlit("<tool_call>call:");
    let mark = "call:"@;
    lemma_shown_lacks(object, "to=functions."@, '=', 2);
    lemma_shown_lacks(object, "<function="@, '=', 9);
    lemma_shown_lacks(object, mark, ':', 4);
    assert("<|tool_call>call:"@.subrange(12, 17) =~= mark);
    assert("<tool_call>call:"@.subrange(11, 16) =~= mark);
    lemma_part_absent(raw, "<|tool_call>call:"@, mark, 12);
    lemma_part_absent(raw, "<tool_call>call:"@, mark, 11);
}

/// A call as a ChatML prompt shows it is read as JSON: nothing is taken out of it
/// before.
pub(crate) proof fn lemma_shown_reaches_json(raw: Seq<char>)
    ensures
        forall|call: CallView|
            raw == chatml_calls(seq![call]) && #[trigger] is_shown_clearly(call) ==> ({
                let start = Scan { text: raw, calls: Seq::empty() };
                &&& harmony(raw, Seq::empty()) == Some(start)
                &&& tagged(start, gemma_tags(), Syntax::Gemma) == start
                &&& gemma_bare(raw, Seq::empty()) == start
                &&& xml_calls(raw, Seq::empty()) == Some(start)
            }),
{
    assert forall|call: CallView|
        raw == chatml_calls(seq![call]) && #[trigger] is_shown_clearly(call) implies ({
        let start = Scan { text: raw, calls: Seq::empty() };
        &&& harmony(raw, Seq::empty()) == Some(start)
        &&& tagged(start, gemma_tags(), Syntax::Gemma) == start
        &&& gemma_bare(raw, Seq::empty()) == start
        &&& xml_calls(raw, Seq::empty()) == Some(start)
    }) by {
        lemma_shown_call(call);
        lemma_shown_alone(call_object(call));
        lemma_tagged_idle(Scan { text: raw, calls: Seq::empty() }, gemma_tags(), Syntax::Gemma);
    }
}

/// A call as a ChatML prompt shows it is read back, where the call is read from its
/// block.
pub(crate) proof fn lemma_shown_is_read(raw: Seq<char>)
    requires
        forall|call: CallView|
            raw == chatml_calls(seq![call]) && #[trigger] is_shown_clearly(call) ==> reads_first(
                raw,
                "<tool_call>"@,
                "</tool_call>"@,
            ),
    ensures
        reads_shown_call(raw),
{
    assert forall|call: CallView|
        raw == chatml_calls(seq![call]) && #[trigger] is_shown_clearly(call) implies extraction(raw)
        == Some(Scan { text: Seq::empty(), calls: seq![call] }) by {
        lemma_shown_call(call);
        lemma_shown_block(call_object(call));
        assert(reads_back(call_object(call)));
        assert(is_steady_call(call));
        lemma_shown_object(call);
    }
}

/// A tool call as a ChatML prompt shows it gives the same call, and no text beside
/// it, where it is read from its own object and that holds no mark of another call.
proof fn lemma_shown_object(call: CallView)
    requires
        json_call(call_object(call)) == Some(call),
        is_unmarked(call_object(call)),
    ensures
        extraction(chatml_calls(seq![call])) == Some(
            Scan { text: Seq::empty(), calls: seq![call] },
        ),
{
    let object = call_object(call);
    lemma_shown_call(call);
    lemma_shown_block(object);
    lemma_shown_alone(object);
    lemma_no_call_in_nothing();
    let raw = chatml_calls(seq![call]);
    assert(json_tags()[0] == ("<tool_call>"@, "</tool_call>"@));
    law_json_calls_are_found(raw, 0, 0, object.len() as int + 13, raw.len() as int);
    assert(Seq::<CallView>::empty().push(call) =~= seq![call]);
}

} // verus!
