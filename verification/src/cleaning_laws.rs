//! Laws of texts that hold several thoughts, headers or control tokens: each is taken
//! out for itself, and what else the text holds is cleaned as if it were not there.

use vstd::prelude::*;

use crate::blocks::block;
use crate::blocks::lemma_block;
use crate::call_laws::laid_out;
use crate::call_laws::lemma_block_at;
use crate::call_laws::lemma_first_there;
use crate::call_laws::lemma_joined_front;
use crate::call_laws::stands_clear;
use crate::cleaning::channel_tags;
use crate::cleaning::header_end;
use crate::cleaning::stray_tokens;
use crate::cleaning::visible;
use crate::cleaning::without_blocks;
use crate::cleaning::without_channels;
use crate::cleaning::without_headers;
use crate::cleaning::without_tokens;
use crate::streaming::joined;
use crate::syntax_laws::lemma_lacks_char;
use crate::syntax_laws::lemma_next_there;
use crate::text::cut;
use crate::text::lemma_find_from;
use crate::text::lemma_find_skip;
use crate::text::mentions;
use crate::text::replace_all;
use crate::visible_laws::lemma_channels_off;
use crate::visible_laws::lemma_tokens_off;

verus! {

/// The tags around thoughts and messages to others, in the order in which they are
/// sought.
pub open spec fn thought_tags() -> Seq<(Seq<char>, Seq<char>)> {
    let own = "to=self<|message|>"@;
    let whole = "<|start|>assistant to=self<|message|>"@;
    seq![
        (own, "<|eom|>"@),
        (own, "<|eot|>"@),
        (own, "<|start|>"@),
        (whole, "<|eom|>"@),
        (whole, "<|eot|>"@),
        (whole, "<|start|>"@),
        ("<|channel>thought\n"@, "<channel|>"@),
        ("<|channel>thought"@, "<channel|>"@),
        ("<|channel|>thought\n"@, "<|end|>"@),
        ("<|channel|>thought"@, "<|end|>"@),
        ("<|channel|>thought\n"@, "<channel|>"@),
        ("<|channel|>thought"@, "<channel|>"@),
        ("<|channel|>analysis\n"@, "<|end|>"@),
        ("<|channel|>analysis"@, "<|end|>"@),
        ("<|channel|>commentary\n"@, "<|end|>"@),
        ("<|channel|>commentary"@, "<|end|>"@),
        ("<thought>"@, "</thought>"@),
        ("<think>"@, "</think>"@),
    ]
}

/// The text holds none of the first `n` opening tags.
pub open spec fn lacks_thoughts(s: Seq<char>, n: int) -> bool {
    forall|j: int| 0 <= j < n ==> !mentions(s, (#[trigger] thought_tags()[j]).0)
}

proof fn lemma_tags(k: int)
    requires
        0 <= k < 18,
    ensures
        channel_tags() =~= thought_tags(),
        channel_tags().len() == 18,
        thought_tags()[k].0.len() > 0,
        thought_tags()[k].1.len() > 0,
{
    reveal_strlit("to=self<|message|>");
    reveal_strlit("<|start|>assistant to=self<|message|>");
    reveal_strlit("<|channel>thought");
    reveal_strlit("<|channel>thought\n");
    reveal_strlit("<|channel|>thought");
    reveal_strlit("<|channel|>thought\n");
    reveal_strlit("<|channel|>analysis");
    reveal_strlit("<|channel|>analysis\n");
    reveal_strlit("<|channel|>commentary");
    reveal_strlit("<|channel|>commentary\n");
    reveal_strlit("<thought>");
    reveal_strlit("<think>");
    reveal_strlit("<channel|>");
    reveal_strlit("<|end|>");
    reveal_strlit("<|eom|>");
    reveal_strlit("<|eot|>");
    reveal_strlit("<|start|>");
    reveal_strlit("</thought>");
    reveal_strlit("</think>");
}

proof fn lemma_same_channels(
    s: Seq<char>,
    left: Seq<char>,
    tags: Seq<(Seq<char>, Seq<char>)>,
    k: int,
)
    requires
        0 <= k < tags.len(),
        forall|j: int|
            0 <= j < k ==> !mentions(s, (#[trigger] tags[j]).0) && !mentions(left, tags[j].0),
        without_blocks(s, tags[k].0, tags[k].1) == without_blocks(left, tags[k].0, tags[k].1),
    ensures
        without_channels(s, tags) == without_channels(left, tags),
    decreases k,
{
    if k > 0 {
        let rest = tags.skip(1);
        assert(!mentions(s, tags[0].0) && !mentions(left, tags[0].0));
        assert(without_blocks(s, tags[0].0, tags[0].1) == s);
        assert(without_blocks(left, tags[0].0, tags[0].1) == left);
        assert forall|j: int| 0 <= j < k - 1 implies !mentions(s, (#[trigger] rest[j]).0)
            && !mentions(left, rest[j].0) by {
            assert(rest[j] == tags[j + 1]);
        }
        assert(rest[k - 1] == tags[k]);
        lemma_same_channels(s, left, rest, k - 1);
    }
}

/// The first thought between the tags of a pair is not shown, and everything else is
/// cleaned as if it were not there.
pub proof fn law_thought_and_more(
    lead: Seq<char>,
    thought: Seq<char>,
    rest: Seq<char>,
    k: int,
)
    requires
        0 <= k < 18,
        stands_clear(lead, thought_tags()[k].0),
        stands_clear(thought, thought_tags()[k].1),
        lacks_thoughts(
            lead + (thought_tags()[k].0 + thought + thought_tags()[k].1) + rest,
            k,
        ),
        lacks_thoughts(lead + rest, k),
    ensures
        visible(lead + (thought_tags()[k].0 + thought + thought_tags()[k].1) + rest) == visible(
            lead + rest,
        ),
{
    lemma_tags(k);
    let (open, close) = thought_tags()[k];
    let s = lead + (open + thought + close) + rest;
    lemma_block_at(lead, open, thought, close, rest);
    lemma_block(s, open, close);
    lemma_find_from(s, open, 0);
    assert(without_blocks(s, open, close) == without_blocks(lead + rest, open, close));
    lemma_same_channels(s, lead + rest, channel_tags(), k);
}

/// Of a thought that does not end only the tag is taken out, and everything else is
/// cleaned as if it were not there.
pub proof fn law_thought_without_end(lead: Seq<char>, rest: Seq<char>, k: int)
    requires
        0 <= k < 18,
        stands_clear(lead, thought_tags()[k].0),
        !mentions(rest, thought_tags()[k].1),
        lacks_thoughts(lead + thought_tags()[k].0 + rest, k),
        lacks_thoughts(lead + rest, k),
    ensures
        visible(lead + thought_tags()[k].0 + rest) == visible(lead + rest),
{
    lemma_tags(k);
    let (open, close) = thought_tags()[k];
    let s = lead + open + rest;
    let from = lead.len() as int;
    let inner = from + open.len();
    lemma_first_there(lead, open, rest);
    lemma_find_from(s, open, 0);
    assert(s.skip(inner) =~= rest);
    lemma_find_skip(s, close, inner, 0);
    assert(block(s, open, close) is None);
    assert(cut(s, from, inner) =~= lead + rest);
    assert(without_blocks(s, open, close) == without_blocks(lead + rest, open, close));
    lemma_same_channels(s, lead + rest, channel_tags(), k);
}

proof fn lemma_headers_out(s: Seq<char>, left: Seq<char>)
    requires
        lacks_thoughts(s, 18),
        lacks_thoughts(left, 18),
        without_headers(s) == without_headers(left),
    ensures
        visible(s) == visible(left),
{
    lemma_tags(0);
    let tags = channel_tags();
    assert forall|k: int| 0 <= k < tags.len() implies !mentions(s, (#[trigger] tags[k]).0)
        && !mentions(left, tags[k].0) by {
        assert(!mentions(s, thought_tags()[k].0) && !mentions(left, thought_tags()[k].0));
    }
    lemma_channels_off(s, tags);
    lemma_channels_off(left, tags);
}

/// The first header up to its `<|message|>` is not shown, and everything else is cleaned
/// as if it were not there.
pub proof fn law_header_and_more(lead: Seq<char>, header: Seq<char>, rest: Seq<char>)
    requires
        !mentions(lead, "to="@),
        !mentions("to="@ + header, "<|message|>"@),
        lacks_thoughts(lead + "to="@ + header + "<|message|>"@ + rest, 18),
        lacks_thoughts(lead + rest, 18),
    ensures
        visible(lead + "to="@ + header + "<|message|>"@ + rest) == visible(lead + rest),
{
    reveal_strlit("to=");
    reveal_strlit("<|message|>");
    let to = "to="@;
    let mark = "<|message|>"@;
    let s = lead + to + header + mark + rest;
    let from = lead.len() as int;
    assert(s =~= lead + to + (header + mark + rest));
    lemma_first_there(lead, to, header + mark + rest);
    assert(s.skip(from) =~= (to + header) + mark + rest);
    lemma_next_there(s, from, to + header, mark, rest);
    let end = from + 3 + header.len() + 11;
    assert(header_end(s, from) == end);
    assert(cut(s, from, end) =~= lead + rest);
    assert(without_headers(s) == without_headers(lead + rest));
    lemma_headers_out(s, lead + rest);
}

/// Without any `<|message|>` behind it, a header goes up to the end of its line, or else
/// up to the end of the text.
pub proof fn law_header_line_and_more(lead: Seq<char>, header: Seq<char>, rest: Seq<char>)
    requires
        !mentions(lead, "to="@),
        !header.contains('\n'),
        !mentions("to="@ + header + seq!['\n'] + rest, "<|message|>"@),
        !mentions("to="@ + header, "<|message|>"@),
        lacks_thoughts(lead + "to="@ + header + seq!['\n'] + rest, 18),
        lacks_thoughts(lead + "to="@ + header, 18),
        lacks_thoughts(lead + rest, 18),
        lacks_thoughts(lead, 18),
    ensures
        visible(lead + "to="@ + header + seq!['\n'] + rest) == visible(lead + rest),
        visible(lead + "to="@ + header) == visible(lead),
{
    reveal_strlit("to=");
    reveal_strlit("<|message|>");
    let to = "to="@;
    let mark = "<|message|>"@;
    let line = seq!['\n'];
    let from = lead.len() as int;
    let own = to + header;
    assert(!own.contains('\n')) by {
        if own.contains('\n') {
            let i = choose|i: int| 0 <= i < own.len() && own[i] == '\n';
            if i >= 3 {
                assert(header[i - 3] == '\n');
            } else {
                assert(to[i] == '\n');
            }
        }
    }
    lemma_lacks_char(own, '\n');
    let s = lead + to + header + line + rest;
    assert(s =~= lead + to + (header + line + rest));
    lemma_first_there(lead, to, header + line + rest);
    assert(s.skip(from) =~= own + line + rest);
    lemma_find_skip(s, mark, from, 0);
    lemma_next_there(s, from, own, line, rest);
    let end = from + own.len() + 1;
    assert(header_end(s, from) == end);
    assert(cut(s, from, end) =~= lead + rest);
    assert(without_headers(s) == without_headers(lead + rest));
    lemma_headers_out(s, lead + rest);
    let t = lead + to + header;
    assert(t =~= lead + to + header);
    lemma_first_there(lead, to, header);
    assert(t.skip(from) =~= own);
    lemma_find_skip(t, mark, from, 0);
    lemma_find_skip(t, line, from, 0);
    assert(header_end(t, from) == t.len());
    assert(cut(t, from, t.len() as int) =~= lead);
    assert(without_headers(t) == without_headers(lead));
    lemma_headers_out(t, lead);
}

// ---------------------------------------------------------------------------
// Control tokens

/// The control tokens, in the order in which they are sought.
pub open spec fn control_tokens() -> Seq<Seq<char>> {
    seq![
        "<|channel|>final<|message|>"@,
        "<|channel|>final"@,
        "<|start|>assistant"@,
        "<|start|>"@,
        "<|end|>"@,
        "<|return|>"@,
        "<|call|>"@,
        "<|message|>"@,
        "<|header_start|>assistant<|header_end|>"@,
        "<|header_start|>"@,
        "<|header_end|>"@,
        "<|eot|>"@,
        "<|im_start|>assistant"@,
        "<|im_start|>"@,
        "<|im_end|>"@,
        "to=user"@,
        "to=self"@,
        "<atem:function_calls>"@,
        "</atem:function_calls>"@,
    ]
}

proof fn lemma_each_out(texts: Seq<Seq<char>>, p: Seq<char>)
    requires
        texts.len() > 0,
        p.len() > 0,
        forall|i: int| 0 <= i < texts.len() ==> stands_clear(#[trigger] texts[i], p),
    ensures
        replace_all(
            laid_out(texts, Seq::new((texts.len() - 1) as nat, |i: int| p)),
            p,
            Seq::empty(),
        ) == joined(texts),
    decreases texts.len(),
{
    let none = Seq::<char>::empty();
    let pieces = Seq::new((texts.len() - 1) as nat, |i: int| p);
    let s = laid_out(texts, pieces);
    let a = texts[0];
    assert(stands_clear(texts[0], p));
    lemma_joined_front(texts);
    if texts.len() == 1 {
        assert(texts.skip(1) =~= Seq::<Seq<char>>::empty());
        assert(joined(texts) =~= a);
        assert(!mentions(a, p));
    } else {
        let more = texts.skip(1);
        let fewer = Seq::new((more.len() - 1) as nat, |i: int| p);
        assert(pieces.skip(1) =~= fewer);
        let b = laid_out(more, fewer);
        assert forall|i: int| 0 <= i < more.len() implies stands_clear(#[trigger] more[i], p) by {
            assert(more[i] == texts[i + 1]);
        }
        lemma_each_out(more, p);
        lemma_first_there(a, p, b);
        assert(s == a + p + b);
        assert(s.take(a.len() as int) =~= a);
        assert(s.skip(a.len() as int + p.len()) =~= b);
        assert(replace_all(s, p, none) == a + none + replace_all(b, p, none));
        assert(a + none + replace_all(b, p, none) =~= a + joined(more));
    }
}

proof fn lemma_same_tokens(s: Seq<char>, left: Seq<char>, tokens: Seq<Seq<char>>, k: int)
    requires
        0 <= k < tokens.len(),
        forall|j: int| 0 <= j < k ==> !mentions(s, #[trigger] tokens[j]),
        replace_all(s, tokens[k], Seq::empty()) == left,
        forall|j: int| k < j < tokens.len() ==> !mentions(left, #[trigger] tokens[j]),
    ensures
        without_tokens(s, tokens) == left,
    decreases k,
{
    let rest = tokens.skip(1);
    assert forall|j: int| 0 <= j < rest.len() implies #[trigger] rest[j] == tokens[j + 1] by {}
    if k == 0 {
        assert forall|j: int| 0 <= j < rest.len() implies !mentions(left, #[trigger] rest[j]) by {
            assert(rest[j] == tokens[j + 1]);
        }
        lemma_tokens_off(left, rest);
    } else {
        assert(!mentions(s, tokens[0]));
        assert(replace_all(s, tokens[0], Seq::empty()) == s);
        assert forall|j: int| 0 <= j < k - 1 implies !mentions(s, #[trigger] rest[j]) by {
            assert(rest[j] == tokens[j + 1]);
        }
        assert(rest[k - 1] == tokens[k]);
        assert forall|j: int| k - 1 < j < rest.len() implies !mentions(left, #[trigger] rest[j]) by {
            assert(rest[j] == tokens[j + 1]);
        }
        lemma_same_tokens(s, left, rest, k - 1);
    }
}

/// A control token is not shown, however often it stands in a text; the texts between are.
pub proof fn law_each_control_token_is_dropped(texts: Seq<Seq<char>>, k: int)
    requires
        0 <= k < 19,
        texts.len() > 0,
        forall|i: int|
            0 <= i < texts.len() ==> stands_clear(#[trigger] texts[i], control_tokens()[k]),
        ({
            let s = laid_out(
                texts,
                Seq::new((texts.len() - 1) as nat, |i: int| control_tokens()[k]),
            );
            &&& lacks_thoughts(s, 18)
            &&& !mentions(s, "to="@)
            &&& forall|j: int| 0 <= j < k ==> !mentions(s, #[trigger] control_tokens()[j])
        }),
        forall|j: int|
            k < j < 19 ==> !mentions(joined(texts), #[trigger] control_tokens()[j]),
    ensures
        visible(
            laid_out(texts, Seq::new((texts.len() - 1) as nat, |i: int| control_tokens()[k])),
        ) == joined(texts),
{
    let token = control_tokens()[k];
    let s = laid_out(texts, Seq::new((texts.len() - 1) as nat, |i: int| token));
    lemma_control_tokens();
    assert(control_tokens()[k].len() > 0);
    lemma_each_out(texts, token);
    lemma_tags(0);
    let tags = channel_tags();
    assert forall|j: int| 0 <= j < tags.len() implies !mentions(s, (#[trigger] tags[j]).0) by {
        assert(!mentions(s, thought_tags()[j].0));
    }
    lemma_channels_off(s, tags);
    assert(without_headers(s) == s);
    lemma_same_tokens(s, joined(texts), control_tokens(), k);
}

proof fn lemma_control_tokens()
    ensures
        stray_tokens() =~= control_tokens(),
        forall|k: int| 0 <= k < 19 ==> (#[trigger] control_tokens()[k]).len() > 0,
{
    reveal_strlit("<|channel|>final<|message|>");
    reveal_strlit("<|channel|>final");
    reveal_strlit("<|start|>assistant");
    reveal_strlit("<|start|>");
    reveal_strlit("<|end|>");
    reveal_strlit("<|return|>");
    reveal_strlit("<|call|>");
    reveal_strlit("<|message|>");
    reveal_strlit("<|header_start|>assistant<|header_end|>");
    reveal_strlit("<|header_start|>");
    reveal_strlit("<|header_end|>");
    reveal_strlit("<|eot|>");
    reveal_strlit("<|im_start|>assistant");
    reveal_strlit("<|im_start|>");
    reveal_strlit("<|im_end|>");
    reveal_strlit("to=user");
    reveal_strlit("to=self");
    reveal_strlit("<atem:function_calls>");
    reveal_strlit("</atem:function_calls>");
}

} // verus!
