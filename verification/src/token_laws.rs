//! Laws of streamed answers whose beginning comes in several tokens.

use vstd::prelude::*;

use crate::streaming::joined;
use crate::streaming::law_decision_is_final;
use crate::streaming::law_tool_call_is_not_streamed;
use crate::streaming::past_thought;
use crate::streaming::stream_after;
use crate::streaming::streamed;
use crate::streaming::verdict;
use crate::streaming::Verdict;
use crate::streaming_laws::begins_thought;
use crate::streaming_laws::is_marked;
use crate::streaming_laws::lemma_mark_found;
use crate::streaming_laws::lemma_marked;
use crate::streaming_laws::lemma_streams_on;
use crate::streaming_laws::lemma_thought;
use crate::text::byte_len;
use crate::text::mentions;
use crate::text::starts_with;
use crate::text::trim_start;

verus! {

/// The beginning of an answer of which nothing can be said yet: at most 30 bytes that
/// may become a tool call or a header, and are none so far.
pub open spec fn is_undecided(text: Seq<char>) -> bool {
    let s = trim_start(text);
    &&& byte_len(text) <= 30
    &&& starts_with(s, "to="@) || starts_with(s, "<|"@) || starts_with(s, "<tool"@) || starts_with(
        s,
        "{"@,
    ) || starts_with(s, "["@)
    &&& !is_marked(s)
    &&& !begins_thought(s)
    &&& !mentions(s, "<|message|>"@)
    &&& !starts_with(s, "to=user\n"@)
}

/// After each of the tokens nothing can be said yet.
pub open spec fn stays_undecided(tokens: Seq<Seq<char>>) -> bool {
    forall|n: int| 0 < n <= tokens.len() ==> is_undecided(joined(#[trigger] tokens.take(n)))
}

proof fn lemma_undecided(text: Seq<char>)
    requires
        is_undecided(text),
    ensures
        past_thought(text) == Some(text),
        verdict(text) == Verdict::Wait,
        trim_start(text).len() > 0,
{
    let s = trim_start(text);
    lemma_marked(s);
    lemma_thought(s);
    reveal_strlit("to=");
    reveal_strlit("<|");
    reveal_strlit("<tool");
    reveal_strlit("{");
    reveal_strlit("[");
}

/// Nothing is sent while nothing can be said of an answer, and all of it is held back.
pub proof fn law_undecided_beginning_is_held(tokens: Seq<Seq<char>>)
    requires
        stays_undecided(tokens),
    ensures
        streamed(tokens) == Seq::<char>::empty(),
        !stream_after(tokens).decided,
        !stream_after(tokens).tool_call,
        stream_after(tokens).held == joined(tokens),
    decreases tokens.len(),
{
    if tokens.len() > 0 {
        let front = tokens.drop_last();
        assert forall|n: int| 0 < n <= front.len() implies is_undecided(
            joined(#[trigger] front.take(n)),
        ) by {
            assert(front.take(n) =~= tokens.take(n));
        }
        law_undecided_beginning_is_held(front);
        assert(tokens.take(tokens.len() as int) =~= tokens);
        lemma_undecided(joined(tokens));
        assert(Seq::<char>::empty() + Seq::<char>::empty() =~= Seq::<char>::empty());
    }
}

proof fn lemma_then(tokens: Seq<Seq<char>>, last: Seq<char>)
    requires
        stays_undecided(tokens),
        !begins_thought(trim_start(joined(tokens) + last)),
        trim_start(joined(tokens) + last).len() > 0,
    ensures
        ({
            let text = joined(tokens) + last;
            let all = tokens.push(last);
            match verdict(text) {
                Verdict::Wait => streamed(all) == Seq::<char>::empty(),
                Verdict::ToolCall => stream_after(all).tool_call && streamed(all)
                    == Seq::<char>::empty(),
                Verdict::Show(shown) => stream_after(all).decided && !stream_after(all).tool_call
                    && streamed(all) == (match shown {
                    Some(t) => t,
                    None => Seq::empty(),
                }),
            }
        }),
{
    let text = joined(tokens) + last;
    let all = tokens.push(last);
    law_undecided_beginning_is_held(tokens);
    lemma_thought(trim_start(text));
    assert(all.drop_last() =~= tokens);
    assert(past_thought(text) == Some(text));
    let none = Seq::<char>::empty();
    assert(none + none =~= none);
    if let Verdict::Show(Some(t)) = verdict(text) {
        assert(none + t =~= t);
    }
}

proof fn lemma_kept_on(tokens: Seq<Seq<char>>, rest: Seq<Seq<char>>)
    requires
        stream_after(tokens).tool_call,
    ensures
        stream_after(tokens + rest).tool_call,
        streamed(tokens + rest) == Seq::<char>::empty(),
    decreases rest.len(),
{
    law_tool_call_is_not_streamed(tokens);
    if rest.len() == 0 {
        assert(tokens + rest =~= tokens);
    } else {
        lemma_kept_on(tokens, rest.drop_last());
        let front = tokens + rest.drop_last();
        law_tool_call_is_not_streamed(front);
        law_decision_is_final(front, rest.last());
        assert(front.push(rest.last()) =~= tokens + rest);
        law_tool_call_is_not_streamed(tokens + rest);
    }
}

/// A tool call is kept from the client however its mark is split into tokens.
pub proof fn law_mark_in_several_tokens_is_kept(
    tokens: Seq<Seq<char>>,
    last: Seq<char>,
    rest: Seq<Seq<char>>,
)
    requires
        stays_undecided(tokens),
        is_marked(trim_start(joined(tokens) + last)),
        !begins_thought(trim_start(joined(tokens) + last)),
    ensures
        streamed(tokens.push(last) + rest) == Seq::<char>::empty(),
        stream_after(tokens.push(last) + rest).tool_call,
{
    let s = trim_start(joined(tokens) + last);
    lemma_marked(s);
    if s.len() == 0 {
        lemma_nothing_is_marked(s);
    }
    lemma_then(tokens, last);
    lemma_kept_on(tokens.push(last), rest);
}

proof fn lemma_nothing_is_marked(s: Seq<char>)
    requires
        s.len() == 0,
    ensures
        !is_marked(s),
{
    reveal_strlit("<tool_call");
    reveal_strlit("<|tool_call");
    reveal_strlit("```tool_call");
    reveal_strlit("```json");
    reveal_strlit("<atem:function_calls");
    reveal_strlit("[TOOL_CALLS]");
    reveal_strlit("call:");
    reveal_strlit("to=");
    reveal_strlit("<|start|>assistant to=");
}

/// What was held back is sent whole once it turns out to be ordinary: more than 30
/// bytes, or a text that can become no tool call and no header.
pub proof fn law_held_beginning_is_sent(
    tokens: Seq<Seq<char>>,
    last: Seq<char>,
    rest: Seq<Seq<char>>,
)
    requires
        stays_undecided(tokens),
        ({
            let text = joined(tokens) + last;
            let s = trim_start(text);
            &&& s.len() > 0
            &&& !is_marked(s)
            &&& !begins_thought(s)
            &&& !mentions(s, "<|message|>"@)
            &&& !starts_with(s, "to=user\n"@)
            &&& byte_len(text) > 30 || !(starts_with(s, "to="@) || starts_with(s, "<|"@)
                || starts_with(s, "<tool"@) || starts_with(s, "{"@) || starts_with(s, "["@))
        }),
    ensures
        streamed(tokens.push(last) + rest) == joined(tokens) + last + joined(rest),
{
    let text = joined(tokens) + last;
    lemma_marked(trim_start(text));
    assert(verdict(text) == Verdict::Show(Some(text)));
    lemma_then(tokens, last);
    lemma_streams_on(tokens.push(last), rest);
}

/// A header that was held back is dropped once it ends, and what follows it is sent.
pub proof fn law_held_header_is_dropped(
    tokens: Seq<Seq<char>>,
    last: Seq<char>,
    rest: Seq<Seq<char>>,
    header: Seq<char>,
    answer: Seq<char>,
)
    requires
        stays_undecided(tokens),
        ({
            let s = trim_start(joined(tokens) + last);
            &&& s == header + "<|message|>"@ + answer
            &&& !mentions(header, "<|message|>"@)
            &&& !is_marked(s)
            &&& !begins_thought(s)
        }),
    ensures
        streamed(tokens.push(last) + rest) == answer + joined(rest),
{
    let text = joined(tokens) + last;
    let s = trim_start(text);
    reveal_strlit("<|message|>");
    lemma_marked(s);
    lemma_mark_found(header, answer);
    assert(s.skip(header.len() as int + 11) =~= answer);
    lemma_then(tokens, last);
    if answer.len() == 0 {
        assert(answer =~= Seq::empty());
    }
    lemma_streams_on(tokens.push(last), rest);
}

/// So is the line that says that a message is for the user.
pub proof fn law_held_line_to_user_is_dropped(
    tokens: Seq<Seq<char>>,
    last: Seq<char>,
    rest: Seq<Seq<char>>,
    answer: Seq<char>,
)
    requires
        stays_undecided(tokens),
        ({
            let s = trim_start(joined(tokens) + last);
            &&& s == "to=user\n"@ + answer
            &&& !mentions(s, "<|message|>"@)
            &&& !is_marked(s)
            &&& !begins_thought(s)
        }),
    ensures
        streamed(tokens.push(last) + rest) == answer + joined(rest),
{
    let text = joined(tokens) + last;
    let s = trim_start(text);
    let line = "to=user\n"@;
    reveal_strlit("to=user\n");
    lemma_marked(s);
    assert(s.subrange(0, 8) =~= line);
    assert(s.skip(8) =~= answer);
    lemma_then(tokens, last);
    if answer.len() == 0 {
        assert(answer =~= Seq::empty());
    }
    lemma_streams_on(tokens.push(last), rest);
}

} // verus!
