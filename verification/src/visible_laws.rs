//! Laws of cleaning: what of a model's output a client gets to see, and what not.

use vstd::prelude::*;

use crate::blocks::block;
use crate::blocks::lemma_block;
use crate::call_laws::lemma_first_there;
use crate::call_laws::lemma_lacks_longer;
use crate::call_laws::stands_clear;
use crate::cleaning::channel_tags;
use crate::cleaning::header_end;
use crate::cleaning::stray_tokens;
use crate::cleaning::visible;
use crate::cleaning::without_blocks;
use crate::cleaning::without_channels;
use crate::cleaning::without_headers;
use crate::cleaning::without_tokens;
use crate::registry_laws::lemma_find_after;
use crate::syntax_laws::lacks_later_marks;
use crate::syntax_laws::lemma_lacks_tag;
use crate::syntax_laws::lemma_left_alone;
use crate::text::cut;
use crate::text::ends_with;
use crate::text::find;
use crate::text::find_from;
use crate::text::lemma_find_from;
use crate::text::lemma_find_skip;
use crate::text::mentions;
use crate::text::occurs_at;
use crate::text::replace_all;
use crate::text::starts_with;
use crate::text::trim;
use crate::tool_calls::extraction;
use crate::tool_calls::Scan;

verus! {

// ---------------------------------------------------------------------------
// Texts in which nothing is to be cleaned

/// The text holds no tag of a thought, no header and no control token.
pub open spec fn is_clean(s: Seq<char>) -> bool {
    &&& !mentions(s, "to="@)
    &&& !mentions(s, "<think>"@) && !mentions(s, "<thought>"@) && !mentions(s, "<|channel>thought"@)
    &&& !mentions(s, "<|channel|>thought"@) && !mentions(s, "<|channel|>analysis"@) && !mentions(
        s,
        "<|channel|>commentary"@,
    ) && !mentions(s, "<|channel|>final"@)
    &&& !mentions(s, "<|start|>"@) && !mentions(s, "<|end|>"@) && !mentions(s, "<|return|>"@)
        && !mentions(s, "<|call|>"@) && !mentions(s, "<|message|>"@)
    &&& !mentions(s, "<|header_start|>"@) && !mentions(s, "<|header_end|>"@) && !mentions(
        s,
        "<|eot|>"@,
    )
    &&& !mentions(s, "<|im_start|>"@) && !mentions(s, "<|im_end|>"@)
    &&& !mentions(s, "<atem:function_calls>"@) && !mentions(s, "</atem:function_calls>"@)
}

proof fn lemma_lacks_front(s: Seq<char>, p: Seq<char>, q: Seq<char>)
    requires
        starts_with(p, q),
        !mentions(s, q),
    ensures
        !mentions(s, p),
{
    assert(p.subrange(0, q.len() as int) == q);
    lemma_lacks_longer(s, p, q, 0);
}

pub(crate) proof fn lemma_channels_off(s: Seq<char>, tags: Seq<(Seq<char>, Seq<char>)>)
    requires
        forall|k: int| 0 <= k < tags.len() ==> !mentions(s, (#[trigger] tags[k]).0),
    ensures
        without_channels(s, tags) == s,
    decreases tags.len(),
{
    if tags.len() > 0 {
        assert(!mentions(s, tags[0].0));
        assert(without_blocks(s, tags[0].0, tags[0].1) == s);
        let rest = tags.skip(1);
        assert forall|k: int| 0 <= k < rest.len() implies !mentions(s, (#[trigger] rest[k]).0) by {
            assert(rest[k] == tags[k + 1]);
        }
        lemma_channels_off(s, rest);
    }
}

pub(crate) proof fn lemma_tokens_off(s: Seq<char>, tokens: Seq<Seq<char>>)
    requires
        forall|k: int| 0 <= k < tokens.len() ==> !mentions(s, #[trigger] tokens[k]),
    ensures
        without_tokens(s, tokens) == s,
    decreases tokens.len(),
{
    if tokens.len() > 0 {
        assert(!mentions(s, tokens[0]));
        assert(replace_all(s, tokens[0], Seq::empty()) == s);
        let rest = tokens.skip(1);
        assert forall|k: int| 0 <= k < rest.len() implies !mentions(s, #[trigger] rest[k]) by {
            assert(rest[k] == tokens[k + 1]);
        }
        lemma_tokens_off(s, rest);
    }
}

proof fn lemma_clean_channels(s: Seq<char>)
    requires
        is_clean(s),
    ensures
        forall|k: int|
            0 <= k < channel_tags().len() ==> !mentions(s, (#[trigger] channel_tags()[k]).0),
{
    reveal_strlit("to=");
    reveal_strlit("to=self<|message|>");
    reveal_strlit("<|start|>");
    reveal_strlit("<|start|>assistant to=self<|message|>");
    reveal_strlit("<|channel>thought");
    reveal_strlit("<|channel>thought\n");
    reveal_strlit("<|channel|>thought");
    reveal_strlit("<|channel|>thought\n");
    reveal_strlit("<|channel|>analysis");
    reveal_strlit("<|channel|>analysis\n");
    reveal_strlit("<|channel|>commentary");
    reveal_strlit("<|channel|>commentary\n");
    assert("to=self<|message|>"@.subrange(0, 3) =~= "to="@);
    lemma_lacks_front(s, "to=self<|message|>"@, "to="@);
    assert("<|start|>assistant to=self<|message|>"@.subrange(0, 9) =~= "<|start|>"@);
    lemma_lacks_front(s, "<|start|>assistant to=self<|message|>"@, "<|start|>"@);
    assert("<|channel>thought\n"@.subrange(0, 17) =~= "<|channel>thought"@);
    lemma_lacks_front(s, "<|channel>thought\n"@, "<|channel>thought"@);
    assert("<|channel|>thought\n"@.subrange(0, 18) =~= "<|channel|>thought"@);
    lemma_lacks_front(s, "<|channel|>thought\n"@, "<|channel|>thought"@);
    assert("<|channel|>analysis\n"@.subrange(0, 19) =~= "<|channel|>analysis"@);
    lemma_lacks_front(s, "<|channel|>analysis\n"@, "<|channel|>analysis"@);
    assert("<|channel|>commentary\n"@.subrange(0, 21) =~= "<|channel|>commentary"@);
    lemma_lacks_front(s, "<|channel|>commentary\n"@, "<|channel|>commentary"@);
}

proof fn lemma_clean_tokens(s: Seq<char>)
    requires
        is_clean(s),
    ensures
        forall|k: int| 0 <= k < stray_tokens().len() ==> !mentions(s, #[trigger] stray_tokens()[k]),
{
    reveal_strlit("to=");
    reveal_strlit("to=user");
    reveal_strlit("to=self");
    reveal_strlit("<|channel|>final");
    reveal_strlit("<|channel|>final<|message|>");
    reveal_strlit("<|start|>");
    reveal_strlit("<|start|>assistant");
    reveal_strlit("<|header_start|>");
    reveal_strlit("<|header_start|>assistant<|header_end|>");
    reveal_strlit("<|im_start|>");
    reveal_strlit("<|im_start|>assistant");
    assert("to=user"@.subrange(0, 3) =~= "to="@);
    lemma_lacks_front(s, "to=user"@, "to="@);
    assert("to=self"@.subrange(0, 3) =~= "to="@);
    lemma_lacks_front(s, "to=self"@, "to="@);
    assert("<|channel|>final<|message|>"@.subrange(0, 16) =~= "<|channel|>final"@);
    lemma_lacks_front(s, "<|channel|>final<|message|>"@, "<|channel|>final"@);
    assert("<|start|>assistant"@.subrange(0, 9) =~= "<|start|>"@);
    lemma_lacks_front(s, "<|start|>assistant"@, "<|start|>"@);
    assert("<|header_start|>assistant<|header_end|>"@.subrange(0, 16) =~= "<|header_start|>"@);
    lemma_lacks_front(s, "<|header_start|>assistant<|header_end|>"@, "<|header_start|>"@);
    assert("<|im_start|>assistant"@.subrange(0, 12) =~= "<|im_start|>"@);
    lemma_lacks_front(s, "<|im_start|>assistant"@, "<|im_start|>"@);
}

/// A text that holds no tag of a thought, no header and no control token is shown as
/// it is.
pub proof fn law_clean_text_is_shown(s: Seq<char>)
    requires
        is_clean(s),
    ensures
        visible(s) == s,
{
    lemma_clean_channels(s);
    lemma_clean_tokens(s);
    lemma_channels_off(s, channel_tags());
    lemma_tokens_off(s, stray_tokens());
}

/// An output without calls, thoughts, headers and control tokens is given as it is,
/// without the white space around it.
pub proof fn law_ordinary_output_is_kept(raw: Seq<char>)
    requires
        is_clean(raw),
        lacks_later_marks(raw),
    ensures
        extraction(raw) == Some(Scan { text: trim(raw), calls: Seq::empty() }),
{
    law_clean_text_is_shown(raw);
    reveal_strlit("to=");
    reveal_strlit("to=functions.");
    assert("to=functions."@.subrange(0, 3) =~= "to="@);
    lemma_lacks_front(raw, "to=functions."@, "to="@);
    lemma_left_alone(raw, Seq::empty());
}

/// A text without `<` holds no tag.
proof fn lemma_clean_without_tags(s: Seq<char>)
    requires
        !s.contains('<'),
        !mentions(s, "to="@),
    ensures
        is_clean(s),
{
    reveal_strlit("<think>");
    reveal_strlit("<thought>");
    reveal_strlit("<|channel>thought");
    reveal_strlit("<|channel|>thought");
    reveal_strlit("<|channel|>analysis");
    reveal_strlit("<|channel|>commentary");
    reveal_strlit("<|channel|>final");
    reveal_strlit("<|start|>");
    reveal_strlit("<|end|>");
    reveal_strlit("<|return|>");
    reveal_strlit("<|call|>");
    reveal_strlit("<|message|>");
    reveal_strlit("<|header_start|>");
    reveal_strlit("<|header_end|>");
    reveal_strlit("<|eot|>");
    reveal_strlit("<|im_start|>");
    reveal_strlit("<|im_end|>");
    reveal_strlit("<atem:function_calls>");
    reveal_strlit("</atem:function_calls>");
    lemma_lacks_tag(s, "<think>"@);
    lemma_lacks_tag(s, "<thought>"@);
    lemma_lacks_tag(s, "<|channel>thought"@);
    lemma_lacks_tag(s, "<|channel|>thought"@);
    lemma_lacks_tag(s, "<|channel|>analysis"@);
    lemma_lacks_tag(s, "<|channel|>commentary"@);
    lemma_lacks_tag(s, "<|channel|>final"@);
    lemma_lacks_tag(s, "<|start|>"@);
    lemma_lacks_tag(s, "<|end|>"@);
    lemma_lacks_tag(s, "<|return|>"@);
    lemma_lacks_tag(s, "<|call|>"@);
    lemma_lacks_tag(s, "<|message|>"@);
    lemma_lacks_tag(s, "<|header_start|>"@);
    lemma_lacks_tag(s, "<|header_end|>"@);
    lemma_lacks_tag(s, "<|eot|>"@);
    lemma_lacks_tag(s, "<|im_start|>"@);
    lemma_lacks_tag(s, "<|im_end|>"@);
    lemma_lacks_tag(s, "<atem:function_calls>"@);
    lemma_lacks_tag(s, "</atem:function_calls>"@);
}

// ---------------------------------------------------------------------------
// Thoughts

/// Tags around a thought, of which the first holds one `<` and the second too, and the
/// place of the pair among all.
pub open spec fn is_thought_pair(k: int, open: Seq<char>, close: Seq<char>) -> bool {
    ||| k == 6 && open == "<|channel>thought\n"@ && close == "<channel|>"@
    ||| k == 7 && open == "<|channel>thought"@ && close == "<channel|>"@
    ||| k == 8 && open == "<|channel|>thought\n"@ && close == "<|end|>"@
    ||| k == 9 && open == "<|channel|>thought"@ && close == "<|end|>"@
    ||| k == 12 && open == "<|channel|>analysis\n"@ && close == "<|end|>"@
    ||| k == 13 && open == "<|channel|>analysis"@ && close == "<|end|>"@
    ||| k == 14 && open == "<|channel|>commentary\n"@ && close == "<|end|>"@
    ||| k == 15 && open == "<|channel|>commentary"@ && close == "<|end|>"@
    ||| k == 16 && open == "<thought>"@ && close == "</thought>"@
    ||| k == 17 && open == "<think>"@ && close == "</think>"@
}

/// `q`, whose first `<` stands at index `m`, differs early from `t`.
pub open spec fn differs(q: Seq<char>, m: int, t: Seq<char>) -> bool {
    ||| m + 1 < q.len() && 1 < t.len() && q[m + 1] != t[1]
    ||| m + 2 < q.len() && 2 < t.len() && q[m + 2] != t[2]
    ||| m + 3 < q.len() && 3 < t.len() && q[m + 3] != t[3]
    ||| m + 5 < q.len() && 5 < t.len() && q[m + 5] != t[5]
    ||| m + 9 < q.len() && 9 < t.len() && q[m + 9] != t[9]
    ||| m + 11 < q.len() && 11 < t.len() && q[m + 11] != t[11]
}

/// In a text with one tag or two, `q` does not stand where it differs from both.
proof fn lemma_not_among(
    pre: Seq<char>,
    open: Seq<char>,
    x: Seq<char>,
    close: Seq<char>,
    post: Seq<char>,
    q: Seq<char>,
    m: int,
)
    requires
        0 <= m < q.len(),
        q[m] == '<',
        !pre.contains('<'),
        !x.contains('<'),
        !post.contains('<'),
        forall|j: int| 0 < j < open.len() ==> #[trigger] open[j] != '<',
        forall|j: int| 0 < j < close.len() ==> #[trigger] close[j] != '<',
        differs(q, m, open),
        close.len() > 0 ==> differs(q, m, close),
    ensures
        !mentions(pre + open + x + close + post, q),
{
    let s = pre + open + x + close + post;
    let n = pre.len() as int;
    let e = n + open.len() + x.len();
    lemma_find_from(s, q, 0);
    if let Some(i) = find(s, q) {
        let own = s.subrange(i, i + q.len());
        let k = i + m;
        assert(own[m] == s[k]);
        assert(s[k] == '<');
        if k < n {
            assert(s[k] == pre[k]);
            assert(pre.contains(pre[k]));
        } else if k < n + open.len() {
            assert(s[k] == open[k - n]);
            assert(k == n);
            lemma_differs_here(s, k, open, q, m, i);
        } else if k < e {
            assert(s[k] == x[k - n - open.len()]);
            assert(x.contains(s[k]));
        } else if k < e + close.len() {
            assert(s[k] == close[k - e]);
            assert(k == e);
            lemma_differs_here(s, k, close, q, m, i);
        } else {
            assert(s[k] == post[k - e - close.len()]);
            assert(post.contains(s[k]));
        }
    }
}

proof fn lemma_differs_here(s: Seq<char>, k: int, t: Seq<char>, q: Seq<char>, m: int, i: int)
    requires
        0 <= m < q.len(),
        0 <= i,
        k == i + m,
        i + q.len() <= s.len(),
        k + t.len() <= s.len(),
        forall|j: int| 0 <= j < t.len() ==> s[k + j] == #[trigger] t[j],
        differs(q, m, t),
    ensures
        s.subrange(i, i + q.len()) != q,
{
    let own = s.subrange(i, i + q.len());
    if m + 1 < q.len() && 1 < t.len() && q[m + 1] != t[1] {
        assert(own[m + 1] == s[k + 1]);
        assert(s[k + 1] == t[1]);
    } else if m + 2 < q.len() && 2 < t.len() && q[m + 2] != t[2] {
        assert(own[m + 2] == s[k + 2]);
        assert(s[k + 2] == t[2]);
    } else if m + 3 < q.len() && 3 < t.len() && q[m + 3] != t[3] {
        assert(own[m + 3] == s[k + 3]);
        assert(s[k + 3] == t[3]);
    } else if m + 5 < q.len() && 5 < t.len() && q[m + 5] != t[5] {
        assert(own[m + 5] == s[k + 5]);
        assert(s[k + 5] == t[5]);
    } else if m + 9 < q.len() && 9 < t.len() && q[m + 9] != t[9] {
        assert(own[m + 9] == s[k + 9]);
        assert(s[k + 9] == t[9]);
    } else {
        assert(own[m + 11] == s[k + 11]);
        assert(s[k + 11] == t[11]);
    }
}

/// A tag with a line break behind it does not stand where another character follows.
proof fn lemma_not_with_line(
    pre: Seq<char>,
    open: Seq<char>,
    x: Seq<char>,
    close: Seq<char>,
    post: Seq<char>,
    q: Seq<char>,
)
    requires
        open.len() > 0,
        open[0] == '<',
        q == open + seq!['\n'],
        !pre.contains('<'),
        !x.contains('<'),
        !post.contains('<'),
        forall|j: int| 0 < j < open.len() ==> #[trigger] open[j] != '<',
        forall|j: int| 0 < j < close.len() ==> #[trigger] close[j] != '<',
        close.len() > 0,
        close[0] == '<',
        x.len() > 0 ==> x[0] != '\n',
        differs(q, 0, close),
    ensures
        !mentions(pre + open + x + close + post, q),
{
    let s = pre + open + x + close + post;
    let n = pre.len() as int;
    let e = n + open.len() + x.len();
    lemma_find_from(s, q, 0);
    if let Some(i) = find(s, q) {
        let own = s.subrange(i, i + q.len());
        assert(own[0] == s[i]);
        if i < n {
            assert(s[i] == pre[i]);
            assert(pre.contains(pre[i]));
        } else if i < n + open.len() {
            assert(s[i] == open[i - n]);
            assert(i == n);
            assert(own[open.len() as int] == s[n + open.len()]);
            assert(s[n + open.len()] == (x + close)[0]);
        } else if i < e {
            assert(s[i] == x[i - n - open.len()]);
            assert(x.contains(s[i]));
        } else if i < e + close.len() {
            assert(s[i] == close[i - e]);
            assert(i == e);
            lemma_differs_here(s, i, close, q, 0, i);
        } else {
            assert(s[i] == post[i - e - close.len()]);
            assert(post.contains(s[i]));
        }
    }
}

/// A block between the tags of pair `k`, where no tag before it stands in the text and
/// none in what is left.
proof fn lemma_channel_out(
    s: Seq<char>,
    tags: Seq<(Seq<char>, Seq<char>)>,
    k: int,
    from: int,
    end: int,
    to: int,
    rest: Seq<char>,
)
    requires
        0 <= k < tags.len(),
        tags[k].0.len() > 0,
        forall|j: int| 0 <= j < k ==> !mentions(s, (#[trigger] tags[j]).0),
        block(s, tags[k].0, tags[k].1) == Some((from, end, to)),
        cut(s, from, to) == rest,
        forall|j: int| k <= j < tags.len() ==> !mentions(rest, (#[trigger] tags[j]).0),
    ensures
        without_channels(s, tags) == rest,
    decreases k,
{
    let tail = tags.skip(1);
    assert forall|j: int| 0 <= j < tail.len() implies #[trigger] tail[j] == tags[j + 1] by {}
    if k == 0 {
        lemma_block(s, tags[0].0, tags[0].1);
        lemma_find_from(s, tags[0].0, 0);
        assert(!mentions(rest, tags[0].0));
        assert(without_blocks(rest, tags[0].0, tags[0].1) == rest);
        assert(without_blocks(s, tags[0].0, tags[0].1) == rest);
        assert forall|j: int| 0 <= j < tail.len() implies !mentions(
            rest,
            (#[trigger] tail[j]).0,
        ) by {
            assert(tail[j] == tags[j + 1]);
        }
        lemma_channels_off(rest, tail);
    } else {
        assert(!mentions(s, tags[0].0));
        assert(without_blocks(s, tags[0].0, tags[0].1) == s);
        assert(tail[k - 1] == tags[k]);
        lemma_channel_out(s, tail, k - 1, from, end, to, rest);
    }
}

proof fn lemma_pair_facts(k: int, open: Seq<char>, close: Seq<char>)
    requires
        is_thought_pair(k, open, close),
    ensures
        0 <= k < channel_tags().len(),
        channel_tags()[k] == (open, close),
        open.len() > 0 && open[0] == '<' && close.len() > 0 && close[0] == '<',
        forall|j: int| 0 < j < open.len() ==> #[trigger] open[j] != '<',
        forall|j: int| 0 < j < close.len() ==> #[trigger] close[j] != '<',
{
    reveal_strlit("<|channel>thought");
    reveal_strlit("<|channel>thought\n");
    reveal_strlit("<|channel|>thought");
    reveal_strlit("<|channel|>thought\n");
    reveal_strlit("<|channel|>analysis");
    reveal_strlit("<|channel|>analysis\n");
    reveal_strlit("<|channel|>commentary");
    reveal_strlit("<|channel|>commentary\n");
    reveal_strlit("<thought>");
    reveal_strlit("<think>");
    reveal_strlit("<channel|>");
    reveal_strlit("<|end|>");
    reveal_strlit("</thought>");
    reveal_strlit("</think>");
}

/// The opening tags of the pairs before pair `k` do not stand in a text with one
/// thought.
proof fn lemma_no_earlier_tag(
    k: int,
    pre: Seq<char>,
    open: Seq<char>,
    x: Seq<char>,
    close: Seq<char>,
    post: Seq<char>,
    j: int,
)
    requires
        is_thought_pair(k, open, close),
        !pre.contains('<'),
        !x.contains('<'),
        !post.contains('<'),
        x.len() > 0 ==> x[0] != '\n',
        0 <= j < k,
    ensures
        !mentions(pre + open + x + close + post, channel_tags()[j].0),
{
    lemma_pair_facts(k, open, close);
    reveal_strlit("to=self<|message|>");
    reveal_strlit("<|start|>assistant to=self<|message|>");
    reveal_strlit("<|channel>thought");
    reveal_strlit("<|channel>thought\n");
    reveal_strlit("<|channel|>thought");
    reveal_strlit("<|channel|>thought\n");
    reveal_strlit("<|channel|>analysis");
    reveal_strlit("<|channel|>analysis\n");
    reveal_strlit("<|channel|>commentary");
    reveal_strlit("<|channel|>commentary\n");
    reveal_strlit("<thought>");
    reveal_strlit("<think>");
    reveal_strlit("<channel|>");
    reveal_strlit("<|end|>");
    reveal_strlit("</thought>");
    reveal_strlit("</think>");
    let q = channel_tags()[j].0;
    if q == open + seq!['\n'] {
        lemma_not_with_line(pre, open, x, close, post, q);
    } else {
        let m = if j < 3 {
            7int
        } else {
            0int
        };
        if j == k - 1 && (k == 7 || k == 9 || k == 13 || k == 15) {
            assert(q =~= open + seq!['\n']);
        } else {
            lemma_not_among(pre, open, x, close, post, q, m);
        }
    }
}

/// A thought between tags is not shown, and the text around it is. Where the opening
/// tag has no line break, the thought does not begin with one.
pub proof fn law_thought_is_not_shown(
    k: int,
    pre: Seq<char>,
    open: Seq<char>,
    thought: Seq<char>,
    close: Seq<char>,
    post: Seq<char>,
)
    requires
        is_thought_pair(k, open, close),
        !pre.contains('<'),
        !thought.contains('<'),
        !post.contains('<'),
        thought.len() > 0 ==> thought[0] != '\n',
        !mentions(pre + post, "to="@),
    ensures
        visible(pre + open + thought + close + post) == pre + post,
{
    let s = pre + open + thought + close + post;
    let rest = pre + post;
    let tags = channel_tags();
    lemma_pair_facts(k, open, close);
    lemma_lacks_tag(pre, open);
    lemma_lacks_tag(thought, close);
    lemma_first_there(pre, open, thought + close + post);
    assert(s =~= pre + open + (thought + close + post));
    let inner = pre.len() + open.len();
    lemma_first_there(thought, close, post);
    assert(s.skip(inner as int) =~= thought + close + post);
    lemma_find_skip(s, close, inner as int, 0);
    let from = pre.len() as int;
    let end = inner as int + thought.len();
    let to = end + close.len();
    assert(cut(s, from, to) =~= rest);
    assert forall|c: char| rest.contains(c) implies pre.contains(c) || post.contains(c) by {
        let i = choose|i: int| 0 <= i < rest.len() && rest[i] == c;
        if i < pre.len() {
            assert(pre[i] == c);
        } else {
            assert(post[i - pre.len()] == c);
        }
    }
    lemma_clean_without_tags(rest);
    lemma_clean_channels(rest);
    lemma_clean_tokens(rest);
    assert forall|j: int| 0 <= j < k implies !mentions(s, (#[trigger] tags[j]).0) by {
        lemma_no_earlier_tag(k, pre, open, thought, close, post, j);
    }
    lemma_channel_out(s, tags, k, from, end, to, rest);
    lemma_tokens_off(rest, stray_tokens());
}

// ---------------------------------------------------------------------------
// Headers and control tokens

/// A header that begins with `to=` and ends with `<|message|>`, or else with its line,
/// is not shown, and the text around it is.
pub proof fn law_header_is_not_shown(pre: Seq<char>, header: Seq<char>, post: Seq<char>)
    requires
        !pre.contains('<'),
        !header.contains('<'),
        !header.contains('\n'),
        !post.contains('<'),
        !mentions(pre, "to="@),
        !mentions(pre + post, "to="@),
        header != "self"@,
        !ends_with(pre + "to="@ + header, "to=self"@),
    ensures
        visible(pre + "to="@ + header + "<|message|>"@ + post) == pre + post,
        visible(pre + "to="@ + header + "\n"@ + post) == pre + post,
{
    reveal_strlit("to=");
    reveal_strlit("<|message|>");
    reveal_strlit("\n");
    let mark = "<|message|>"@;
    let line = seq!['\n'];
    assert("\n"@ =~= line);
    let to = "to="@;
    let rest = pre + post;
    assert forall|c: char| rest.contains(c) implies pre.contains(c) || post.contains(c) by {
        let i = choose|i: int| 0 <= i < rest.len() && rest[i] == c;
        if i < pre.len() {
            assert(pre[i] == c);
        } else {
            assert(post[i - pre.len()] == c);
        }
    }
    lemma_clean_without_tags(rest);
    lemma_clean_tokens(rest);
    lemma_tokens_off(rest, stray_tokens());
    assert(without_headers(rest) == rest);
    // A header up to the mark of the message.
    let s = pre + to + header + mark + post;
    assert(s =~= pre + to + (header + mark + post));
    lemma_first_there(pre, to, header + mark + post);
    let from = pre.len() as int;
    lemma_header_lacks(pre, header, post);
    lemma_channels_off(s, channel_tags());
    let lead = to + header;
    lemma_lacks_tag_after(to, header, mark);
    lemma_first_there(lead, mark, post);
    assert(s.skip(from) =~= lead + mark + post);
    lemma_find_skip(s, mark, from, 0);
    let end = from + 3 + header.len() + 11;
    assert(header_end(s, from) == end);
    assert(cut(s, from, end) =~= rest);
    assert(without_headers(s) == rest);
    // A header up to the end of its line.
    let t = pre + to + header + "\n"@ + post;
    assert(t =~= pre + to + (header + line + post));
    lemma_first_there(pre, to, header + line + post);
    assert forall|c: char| t.contains(c) implies pre.contains(c) || header.contains(c)
        || post.contains(c) || c == 't' || c == 'o' || c == '=' || c == '\n' by {
        let i = choose|i: int| 0 <= i < t.len() && t[i] == c;
        let a = from + 3;
        let b = a + header.len();
        if i < from {
            assert(pre[i] == c);
        } else if i < a {
            assert(to[i - from] == c);
        } else if i < b {
            assert(header[i - a] == c);
        } else if i > b {
            assert(post[i - b - 1] == c);
        }
    }
    assert(!t.contains('<'));
    lemma_channels_without_tags(t);
    lemma_lacks_tag(t, mark);
    lemma_find_from(t, mark, from);
    lemma_find_from(t, mark, 0);
    if let Some(i) = find_from(t, mark, from) {
        assert(occurs_at(t, mark, i));
    }
    assert(!lead.contains('\n')) by {
        if lead.contains('\n') {
            let i = choose|i: int| 0 <= i < lead.len() && lead[i] == '\n';
            if i >= 3 {
                assert(header[i - 3] == '\n');
            } else {
                assert(to[i] == '\n');
            }
        }
    }
    lemma_find_after(lead, '\n', post);
    assert(t.skip(from) =~= lead + line + post);
    lemma_find_skip(t, line, from, 0);
    let stop = from + 3 + header.len() + 1;
    assert(header_end(t, from) == stop);
    assert(cut(t, from, stop) =~= rest);
    assert(without_headers(t) == rest);
}

proof fn lemma_lacks_tag_after(to: Seq<char>, header: Seq<char>, mark: Seq<char>)
    requires
        to == "to="@,
        !header.contains('<'),
        mark.len() > 0,
        mark[0] == '<',
    ensures
        stands_clear(to + header, mark),
{
    reveal_strlit("to=");
    let s = to + header;
    if s.contains('<') {
        let i = choose|i: int| 0 <= i < s.len() && s[i] == '<';
        if i >= 3 {
            assert(header[i - 3] == '<');
        } else {
            assert(to[i] == '<');
        }
    }
    lemma_lacks_tag(s, mark);
}

/// A text without `<` begins no thought.
proof fn lemma_channels_without_tags(s: Seq<char>)
    requires
        !s.contains('<'),
    ensures
        without_channels(s, channel_tags()) == s,
{
    reveal_strlit("to=self<|message|>");
    reveal_strlit("<|start|>assistant to=self<|message|>");
    reveal_strlit("<|channel>thought");
    reveal_strlit("<|channel>thought\n");
    reveal_strlit("<|channel|>thought");
    reveal_strlit("<|channel|>thought\n");
    reveal_strlit("<|channel|>analysis");
    reveal_strlit("<|channel|>analysis\n");
    reveal_strlit("<|channel|>commentary");
    reveal_strlit("<|channel|>commentary\n");
    reveal_strlit("<thought>");
    reveal_strlit("<think>");
    let tags = channel_tags();
    assert forall|j: int| 0 <= j < tags.len() implies !mentions(s, (#[trigger] tags[j]).0) by {
        let q = tags[j].0;
        let m = if j < 3 {
            7int
        } else {
            0int
        };
        assert(q[m] == '<');
        lemma_find_from(s, q, 0);
        if let Some(i) = find(s, q) {
            assert(s.subrange(i, i + q.len())[m] == s[i + m]);
            assert(s.contains(s[i + m]));
        }
    }
    lemma_channels_off(s, tags);
}

/// The opening tags of thoughts do not stand in a text whose only tag is
/// `<|message|>`, where no `to=self` stands before it.
proof fn lemma_header_lacks(pre: Seq<char>, header: Seq<char>, post: Seq<char>)
    requires
        !pre.contains('<'),
        !header.contains('<'),
        !post.contains('<'),
        !ends_with(pre + "to="@ + header, "to=self"@),
    ensures
        forall|j: int|
            0 <= j < channel_tags().len() ==> !mentions(
                pre + "to="@ + header + "<|message|>"@ + post,
                (#[trigger] channel_tags()[j]).0,
            ),
{
    reveal_strlit("to=");
    reveal_strlit("to=self");
    reveal_strlit("<|message|>");
    reveal_strlit("to=self<|message|>");
    reveal_strlit("<|start|>assistant to=self<|message|>");
    reveal_strlit("<|channel>thought");
    reveal_strlit("<|channel>thought\n");
    reveal_strlit("<|channel|>thought");
    reveal_strlit("<|channel|>thought\n");
    reveal_strlit("<|channel|>analysis");
    reveal_strlit("<|channel|>analysis\n");
    reveal_strlit("<|channel|>commentary");
    reveal_strlit("<|channel|>commentary\n");
    reveal_strlit("<thought>");
    reveal_strlit("<think>");
    let front = pre + "to="@ + header;
    let mark = "<|message|>"@;
    let none = Seq::<char>::empty();
    let s = front + mark + post;
    assert(!front.contains('<')) by {
        if front.contains('<') {
            let i = choose|i: int| 0 <= i < front.len() && front[i] == '<';
            let n = pre.len() as int;
            if i < n {
                assert(pre[i] == '<');
            } else if i < n + 3 {
                assert("to="@[i - n] == '<');
            } else {
                assert(header[i - n - 3] == '<');
            }
        }
    }
    let tags = channel_tags();
    assert forall|j: int| 0 <= j < tags.len() implies !mentions(s, (#[trigger] tags[j]).0) by {
        let q = tags[j].0;
        if j < 3 {
            lemma_find_from(s, q, 0);
            if let Some(i) = find(s, q) {
                let own = s.subrange(i, i + 18);
                let n = front.len() as int;
                let k = i + 7;
                assert(own[7] == s[k]);
                if k < n {
                    assert(front.contains(front[k]));
                } else if k < n + 11 {
                    assert(s[k] == mark[k - n]);
                    assert(k == n);
                    assert(front.subrange(n - 7, n) =~= own.subrange(0, 7));
                    assert(own.subrange(0, 7) =~= "to=self"@);
                } else {
                    assert(post.contains(post[k - n - 11]));
                }
            }
        } else {
            assert(s =~= front + mark + none + none + post);
            lemma_not_among(front, mark, none, none, post, q, 0);
        }
    }
}

/// A control token that stands alone.
pub open spec fn is_stray(k: int, token: Seq<char>) -> bool {
    ||| k == 1 && token == "<|channel|>final"@
    ||| k == 2 && token == "<|start|>assistant"@
    ||| k == 3 && token == "<|start|>"@
    ||| k == 4 && token == "<|end|>"@
    ||| k == 5 && token == "<|return|>"@
    ||| k == 6 && token == "<|call|>"@
    ||| k == 7 && token == "<|message|>"@
    ||| k == 9 && token == "<|header_start|>"@
    ||| k == 10 && token == "<|header_end|>"@
    ||| k == 11 && token == "<|eot|>"@
    ||| k == 12 && token == "<|im_start|>assistant"@
    ||| k == 13 && token == "<|im_start|>"@
    ||| k == 14 && token == "<|im_end|>"@
    ||| k == 17 && token == "<atem:function_calls>"@
    ||| k == 18 && token == "</atem:function_calls>"@
}

proof fn lemma_token_out(
    tokens: Seq<Seq<char>>,
    k: int,
    pre: Seq<char>,
    post: Seq<char>,
)
    requires
        0 <= k < tokens.len(),
        tokens[k].len() > 0,
        stands_clear(pre, tokens[k]),
        !mentions(post, tokens[k]),
        forall|j: int| 0 <= j < k ==> !mentions(pre + tokens[k] + post, #[trigger] tokens[j]),
        forall|j: int| k < j < tokens.len() ==> !mentions(pre + post, #[trigger] tokens[j]),
    ensures
        without_tokens(pre + tokens[k] + post, tokens) == pre + post,
    decreases k,
{
    let s = pre + tokens[k] + post;
    let tail = tokens.skip(1);
    assert forall|j: int| 0 <= j < tail.len() implies #[trigger] tail[j] == tokens[j + 1] by {}
    let none = Seq::<char>::empty();
    if k == 0 {
        lemma_first_there(pre, tokens[0], post);
        assert(s.take(pre.len() as int) =~= pre);
        assert(s.skip((pre.len() + tokens[0].len()) as int) =~= post);
        assert(replace_all(post, tokens[0], none) == post);
        assert(replace_all(s, tokens[0], none) =~= pre + post);
        assert forall|j: int| 0 <= j < tail.len() implies !mentions(pre + post, #[trigger] tail[j]) by {
            assert(tail[j] == tokens[j + 1]);
        }
        lemma_tokens_off(pre + post, tail);
    } else {
        assert(!mentions(s, tokens[0]));
        assert(replace_all(s, tokens[0], none) == s);
        assert(tail[k - 1] == tokens[k]);
        lemma_token_out(tail, k - 1, pre, post);
    }
}

/// In a text with one tag, what holds two does not stand.
proof fn lemma_not_twice(s: Seq<char>, at: int, q: Seq<char>, m: int, n: int)
    requires
        forall|i: int| 0 <= i < s.len() && s[i] == '<' ==> i == at,
        0 <= m < n < q.len(),
        q[m] == '<',
        q[n] == '<',
    ensures
        !mentions(s, q),
{
    lemma_find_from(s, q, 0);
    if let Some(i) = find(s, q) {
        let own = s.subrange(i, i + q.len());
        assert(own[m] == s[i + m]);
        assert(own[n] == s[i + n]);
    }
}

proof fn lemma_stray_facts(k: int, token: Seq<char>)
    requires
        is_stray(k, token),
    ensures
        0 <= k < stray_tokens().len(),
        stray_tokens()[k] == token,
        token.len() > 3,
        token[0] == '<',
        forall|j: int| 0 < j < token.len() ==> #[trigger] token[j] != '<',
{
    reveal_strlit("<|channel|>final");
    reveal_strlit("<|start|>assistant");
    reveal_strlit("<|start|>");
    reveal_strlit("<|end|>");
    reveal_strlit("<|return|>");
    reveal_strlit("<|call|>");
    reveal_strlit("<|message|>");
    reveal_strlit("<|header_start|>");
    reveal_strlit("<|header_end|>");
    reveal_strlit("<|eot|>");
    reveal_strlit("<|im_start|>assistant");
    reveal_strlit("<|im_start|>");
    reveal_strlit("<|im_end|>");
    reveal_strlit("<atem:function_calls>");
    reveal_strlit("</atem:function_calls>");
}

/// The tokens before token `k` do not stand in a text with that token alone.
proof fn lemma_no_earlier_token(
    k: int,
    pre: Seq<char>,
    token: Seq<char>,
    post: Seq<char>,
    j: int,
)
    requires
        is_stray(k, token),
        !pre.contains('<'),
        !post.contains('<'),
        !mentions(pre + token + post, "to="@),
        k == 3 || k == 13 ==> !starts_with(post, "assistant"@),
        0 <= j < k,
    ensures
        !mentions(pre + token + post, stray_tokens()[j]),
{
    lemma_stray_facts(k, token);
    reveal_strlit("<|channel|>final<|message|>");
    reveal_strlit("<|channel|>final");
    reveal_strlit("<|start|>assistant");
    reveal_strlit("<|start|>");
    reveal_strlit("<|end|>");
    reveal_strlit("<|return|>");
    reveal_strlit("<|call|>");
    reveal_strlit("<|message|>");
    reveal_strlit("<|header_start|>assistant<|header_end|>");
    reveal_strlit("<|header_start|>");
    reveal_strlit("<|header_end|>");
    reveal_strlit("<|eot|>");
    reveal_strlit("<|im_start|>assistant");
    reveal_strlit("<|im_start|>");
    reveal_strlit("<|im_end|>");
    reveal_strlit("<atem:function_calls>");
    reveal_strlit("</atem:function_calls>");
    let s = pre + token + post;
    let q = stray_tokens()[j];
    let none = Seq::<char>::empty();
    let n = pre.len() as int;
    if j == 0 || j == 8 {
        assert forall|i: int| 0 <= i < s.len() && s[i] == '<' implies i == n by {
            if i < n {
                assert(pre[i] == '<');
            } else if i < n + token.len() {
                assert(token[i - n] == '<');
            } else {
                assert(post[i - n - token.len()] == '<');
            }
        }
        if j == 0 {
            lemma_not_twice(s, n, q, 0, 16);
        } else {
            lemma_not_twice(s, n, q, 0, 25);
        }
    } else if j == 15 || j == 16 {
        reveal_strlit("to=");
        reveal_strlit("to=user");
        reveal_strlit("to=self");
        assert(q.subrange(0, 3) =~= "to="@);
        lemma_lacks_front(s, q, "to="@);
    } else if (k == 3 && j == 2) || (k == 13 && j == 12) {
        lemma_not_longer(pre, token, post, q);
    } else {
        assert(s =~= pre + token + none + none + post);
        lemma_not_among(pre, token, none, none, post, q, 0);
    }
}

proof fn lemma_not_longer(pre: Seq<char>, token: Seq<char>, post: Seq<char>, q: Seq<char>)
    requires
        token.len() > 0,
        token[0] == '<',
        forall|j: int| 0 < j < token.len() ==> #[trigger] token[j] != '<',
        !pre.contains('<'),
        !post.contains('<'),
        q.len() == token.len() + 9,
        q[0] == '<',
        q.skip(token.len() as int) == "assistant"@ || token == "<|start|>"@ && q
            == "<|start|>assistant"@ || token == "<|im_start|>"@ && q == "<|im_start|>assistant"@,
        !starts_with(post, "assistant"@),
    ensures
        !mentions(pre + token + post, q),
{
    reveal_strlit("assistant");
    reveal_strlit("<|start|>");
    reveal_strlit("<|start|>assistant");
    reveal_strlit("<|im_start|>");
    reveal_strlit("<|im_start|>assistant");
    let s = pre + token + post;
    let n = pre.len() as int;
    let l = token.len() as int;
    assert(q.skip(l) =~= "assistant"@);
    lemma_find_from(s, q, 0);
    if let Some(i) = find(s, q) {
        let own = s.subrange(i, i + q.len());
        assert(own[0] == s[i]);
        if i < n {
            assert(pre.contains(pre[i]));
        } else if i < n + l {
            assert(s[i] == token[i - n]);
            assert(i == n);
            assert(post.subrange(0, 9) =~= own.skip(l));
        } else {
            assert(post.contains(post[i - n - l]));
        }
    }
}

/// A control token that is left over is not shown, and the text around it is.
pub proof fn law_control_token_is_not_shown(
    k: int,
    pre: Seq<char>,
    token: Seq<char>,
    post: Seq<char>,
)
    requires
        is_stray(k, token),
        !pre.contains('<'),
        !post.contains('<'),
        !mentions(pre + token + post, "to="@),
        !mentions(pre + post, "to="@),
        k == 3 || k == 13 ==> !starts_with(post, "assistant"@),
    ensures
        visible(pre + token + post) == pre + post,
{
    let s = pre + token + post;
    let rest = pre + post;
    let tokens = stray_tokens();
    lemma_stray_facts(k, token);
    assert forall|c: char| rest.contains(c) implies pre.contains(c) || post.contains(c) by {
        let i = choose|i: int| 0 <= i < rest.len() && rest[i] == c;
        if i < pre.len() {
            assert(pre[i] == c);
        } else {
            assert(post[i - pre.len()] == c);
        }
    }
    lemma_clean_without_tags(rest);
    lemma_clean_tokens(rest);
    lemma_token_is_no_thought(k, pre, token, post);
    lemma_channels_off(s, channel_tags());
    assert(without_headers(s) == s);
    lemma_lacks_tag(pre, token);
    lemma_lacks_tag(post, token);
    assert forall|j: int| 0 <= j < k implies !mentions(s, #[trigger] tokens[j]) by {
        lemma_no_earlier_token(k, pre, token, post, j);
    }
    lemma_token_out(tokens, k, pre, post);
}

proof fn lemma_token_is_no_thought(k: int, pre: Seq<char>, token: Seq<char>, post: Seq<char>)
    requires
        is_stray(k, token),
        !pre.contains('<'),
        !post.contains('<'),
        !mentions(pre + token + post, "to="@),
    ensures
        forall|j: int|
            0 <= j < channel_tags().len() ==> !mentions(
                pre + token + post,
                (#[trigger] channel_tags()[j]).0,
            ),
{
    lemma_stray_facts(k, token);
    reveal_strlit("<|channel|>final");
    reveal_strlit("<|start|>assistant");
    reveal_strlit("<|start|>");
    reveal_strlit("<|end|>");
    reveal_strlit("<|return|>");
    reveal_strlit("<|call|>");
    reveal_strlit("<|message|>");
    reveal_strlit("<|header_start|>");
    reveal_strlit("<|header_end|>");
    reveal_strlit("<|eot|>");
    reveal_strlit("<|im_start|>assistant");
    reveal_strlit("<|im_start|>");
    reveal_strlit("<|im_end|>");
    reveal_strlit("<atem:function_calls>");
    reveal_strlit("</atem:function_calls>");
    reveal_strlit("to=");
    reveal_strlit("to=self<|message|>");
    reveal_strlit("<|start|>assistant to=self<|message|>");
    reveal_strlit("<|channel>thought");
    reveal_strlit("<|channel>thought\n");
    reveal_strlit("<|channel|>thought");
    reveal_strlit("<|channel|>thought\n");
    reveal_strlit("<|channel|>analysis");
    reveal_strlit("<|channel|>analysis\n");
    reveal_strlit("<|channel|>commentary");
    reveal_strlit("<|channel|>commentary\n");
    reveal_strlit("<thought>");
    reveal_strlit("<think>");
    let s = pre + token + post;
    let none = Seq::<char>::empty();
    let tags = channel_tags();
    assert forall|j: int| 0 <= j < tags.len() implies !mentions(s, (#[trigger] tags[j]).0) by {
        let q = tags[j].0;
        if j < 3 {
            assert(q.subrange(0, 3) =~= "to="@);
            lemma_lacks_longer(s, q, "to="@, 0);
        } else if j < 6 {
            assert(q.subrange(19, 22) =~= "to="@);
            lemma_lacks_longer(s, q, "to="@, 19);
        } else {
            assert(s =~= pre + token + none + none + post);
            lemma_not_among(pre, token, none, none, post, q, 0);
        }
    }
}

} // verus!
