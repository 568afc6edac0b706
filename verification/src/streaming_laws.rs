//! Laws of streaming: what a client gets of an answer, and what not.

use vstd::prelude::*;

use crate::streaming::awaits_answer;
use crate::streaming::joined;
use crate::streaming::law_answer_follows_thought;
use crate::streaming::law_answer_streams_on;
use crate::streaming::law_call_is_not_streamed;
use crate::streaming::law_decision_is_final;
use crate::streaming::law_plain_answer_streams_whole;
use crate::streaming::law_stream_keeps_answer;
use crate::streaming::law_thought_is_not_streamed;
use crate::streaming::law_tool_call_is_not_streamed;
use crate::streaming::may_open;
use crate::streaming::opens_call;
use crate::streaming::opens_thought;
use crate::streaming::past_thought;
use crate::streaming::stream_after;
use crate::streaming::stream_start;
use crate::streaming::streamed;
use crate::streaming::thought_end;
use crate::streaming::verdict;
use crate::streaming::Verdict;
use crate::text::byte_len;
use crate::text::find;
use crate::text::is_white;
use crate::text::lemma_find_from;
use crate::text::mentions;
use crate::text::occurs_at;
use crate::text::starts_with;
use crate::text::trim_start;

verus! {

// ---------------------------------------------------------------------------
// Beginnings and ends of texts

/// `t` is the end of `s`.
pub open spec fn is_end_of(t: Seq<char>, s: Seq<char>) -> bool {
    t.len() <= s.len() && s.skip(s.len() - t.len()) == t
}

proof fn lemma_skip_is_end(s: Seq<char>, k: int)
    requires
        0 <= k <= s.len(),
    ensures
        is_end_of(s.skip(k), s),
{
}

proof fn lemma_end_chain(a: Seq<char>, b: Seq<char>, c: Seq<char>)
    requires
        is_end_of(a, b),
        is_end_of(b, c),
    ensures
        is_end_of(a, c),
{
    assert(c.skip(c.len() - a.len()) =~= b.skip(b.len() - a.len()));
}

proof fn lemma_end_grows(a: Seq<char>, s: Seq<char>, t: Seq<char>)
    requires
        is_end_of(a, s),
    ensures
        is_end_of(a + t, s + t),
{
    assert((s + t).skip((s + t).len() - (a + t).len()) =~= s.skip(s.len() - a.len()) + t);
}

proof fn lemma_trim_is_end(s: Seq<char>)
    ensures
        is_end_of(trim_start(s), s),
    decreases s.len(),
{
    if s.len() > 0 && is_white(s[0]) {
        lemma_trim_is_end(s.skip(1));
        lemma_skip_is_end(s, 1);
        lemma_end_chain(trim_start(s), s.skip(1), s);
    } else {
        assert(s.skip(0) =~= s);
    }
}

proof fn lemma_trim_front(a: Seq<char>, b: Seq<char>)
    requires
        trim_start(a).len() > 0,
    ensures
        trim_start(a + b) == trim_start(a) + b,
    decreases a.len(),
{
    if a.len() > 0 && is_white(a[0]) {
        assert((a + b).skip(1) =~= a.skip(1) + b);
        lemma_trim_front(a.skip(1), b);
    } else {
        assert((a + b)[0] == a[0]);
    }
}

proof fn lemma_begins_on(s: Seq<char>, t: Seq<char>, p: Seq<char>)
    requires
        starts_with(s, p),
    ensures
        starts_with(s + t, p),
{
    assert((s + t).subrange(0, p.len() as int) =~= s.subrange(0, p.len() as int));
}

proof fn lemma_begins_shorter(s: Seq<char>, p: Seq<char>, q: Seq<char>)
    requires
        starts_with(s, p),
        starts_with(p, q),
    ensures
        starts_with(s, q),
{
    assert(s.subrange(0, q.len() as int) =~= s.subrange(0, p.len() as int).subrange(
        0,
        q.len() as int,
    ));
}

proof fn lemma_begins_char(s: Seq<char>, p: Seq<char>)
    requires
        p.len() > 0,
        starts_with(s, p),
    ensures
        s.len() > 0,
        s[0] == p[0],
{
    assert(s[0] == s.subrange(0, p.len() as int)[0]);
}

proof fn lemma_begins_with_itself(p: Seq<char>, s: Seq<char>)
    ensures
        starts_with(p + s, p),
{
    assert((p + s).subrange(0, p.len() as int) =~= p);
}

// ---------------------------------------------------------------------------
// What is kept from the client

/// A thought begins.
pub open spec fn begins_thought(s: Seq<char>) -> bool {
    starts_with(s, "<think>"@) || starts_with(s, "<thought>"@) || starts_with(
        s,
        "<|channel>thought"@,
    )
}

/// A tool call begins, or a message to someone else than the user.
pub open spec fn is_marked(s: Seq<char>) -> bool {
    ||| starts_with(s, "<tool_call"@) || starts_with(s, "<|tool_call"@) || starts_with(
        s,
        "```tool_call"@,
    ) || starts_with(s, "```json"@)
    ||| starts_with(s, "<atem:function_calls"@) || starts_with(s, "[TOOL_CALLS]"@) || starts_with(
        s,
        "call:"@,
    )
    ||| s.len() > 0 && s[0] == '{' && (mentions(s, "\"name\""@) || mentions(s, "\"function\""@)
        || mentions(s, "\"arguments\""@))
    ||| s.len() > 0 && s[0] == '[' && mentions(s, "\"name\""@)
    ||| starts_with(s, "to="@) && !starts_with(s, "to=user"@)
    ||| starts_with(s, "<|start|>assistant to="@) && !starts_with(
        s,
        "<|start|>assistant to=user"@,
    )
}

pub(crate) proof fn lemma_marked(s: Seq<char>)
    ensures
        opens_call(s) <==> is_marked(s),
{
    reveal_strlit("{");
    reveal_strlit("[");
    reveal_strlit("to=functions.");
    reveal_strlit("to=");
    reveal_strlit("to=user");
    if s.len() > 0 {
        assert("{"@ =~= seq!['{']);
        assert("["@ =~= seq!['[']);
        assert(s.subrange(0, 1) =~= seq![s[0]]);
        if starts_with(s, "{"@) {
            assert(s.subrange(0, 1)[0] == '{');
        }
        if starts_with(s, "["@) {
            assert(s.subrange(0, 1)[0] == '[');
        }
    }
    if starts_with(s, "to=functions."@) {
        assert("to=functions."@.subrange(0, 3) =~= "to="@);
        lemma_begins_shorter(s, "to=functions."@, "to="@);
        if starts_with(s, "to=user"@) {
            assert(s.subrange(0, 13)[3] == s[3]);
            assert(s.subrange(0, 7)[3] == s[3]);
        }
    }
}

pub(crate) proof fn lemma_thought(s: Seq<char>)
    ensures
        opens_thought(s) <==> begins_thought(s),
{
}

/// The first `n` tokens, joined and without a thought of `k` characters at their
/// beginning, begin as a tool call does, or as a message to someone else.
pub open spec fn shows_mark(tokens: Seq<Seq<char>>, n: int, k: int) -> bool {
    let text = joined(tokens.take(n));
    &&& 0 < n <= tokens.len()
    &&& 0 <= k <= text.len()
    &&& k > 0 ==> begins_thought(trim_start(text))
    &&& is_marked(trim_start(text.skip(k)))
}

proof fn lemma_held(tokens: Seq<Seq<char>>) -> (r: (int, int))
    ensures
        ({
            let state = stream_after(tokens);
            let text = joined(tokens.take(r.0));
            &&& 0 <= r.0 <= tokens.len()
            &&& state.tool_call ==> state.decided && r.0 > 0
            &&& !state.decided ==> r.0 == tokens.len()
            &&& !state.decided || state.tool_call ==> {
                &&& 0 <= r.1 <= text.len()
                &&& state.held == text.skip(r.1)
                &&& r.1 > 0 ==> begins_thought(trim_start(text))
            }
            &&& state.tool_call ==> is_marked(trim_start(state.held))
        }),
    decreases tokens.len(),
{
    let n = tokens.len() as int;
    if n == 0 {
        assert(tokens.take(0) =~= tokens);
        assert(joined(tokens).skip(0) =~= Seq::<char>::empty());
        (0, 0)
    } else {
        let front = tokens.drop_last();
        let token = tokens.last();
        let (m, k) = lemma_held(front);
        let before = stream_after(front);
        let after = stream_after(tokens);
        law_stream_keeps_answer(front);
        assert(front.take(m) =~= tokens.take(m));
        if before.decided {
            (m, k)
        } else {
            assert(front.take(front.len() as int) =~= front);
            assert(tokens.take(n) =~= tokens);
            let old_text = joined(front);
            let text = joined(tokens);
            let whole = before.held + token;
            assert(whole =~= text.skip(k));
            if k > 0 {
                reveal_strlit("<think>");
                reveal_strlit("<thought>");
                reveal_strlit("<|channel>thought");
                lemma_trim_front(old_text, token);
                lemma_thought_goes_on(trim_start(old_text), token);
            }
            match past_thought(whole) {
                None => {
                    assert(after.held == whole);
                    (n, k)
                },
                Some(held) => {
                    lemma_marked(trim_start(held));
                    let s = trim_start(whole);
                    if opens_thought(s) {
                        let i = thought_end(s)->0;
                        lemma_thought_end(s);
                        lemma_skip_is_end(s, i);
                        lemma_trim_is_end(s.skip(i));
                        lemma_trim_is_end(whole);
                        lemma_end_chain(held, s.skip(i), s);
                        lemma_end_chain(held, s, whole);
                        lemma_skip_is_end(text, k);
                        lemma_end_chain(held, whole, text);
                        let j = text.len() - held.len();
                        assert(text.skip(j) == held);
                        if k == 0 {
                            assert(text.skip(0) =~= text);
                        }
                        (n, j)
                    } else {
                        (n, k)
                    }
                },
            }
        }
    }
}

proof fn lemma_thought_goes_on(s: Seq<char>, t: Seq<char>)
    requires
        begins_thought(s),
    ensures
        begins_thought(s + t),
        s.len() > 0,
{
    reveal_strlit("<think>");
    reveal_strlit("<thought>");
    reveal_strlit("<|channel>thought");
    if starts_with(s, "<think>"@) {
        lemma_begins_on(s, t, "<think>"@);
    } else if starts_with(s, "<thought>"@) {
        lemma_begins_on(s, t, "<thought>"@);
    } else {
        lemma_begins_on(s, t, "<|channel>thought"@);
    }
}

proof fn lemma_thought_end(s: Seq<char>)
    ensures
        thought_end(s) matches Some(i) ==> 0 <= i <= s.len(),
{
    lemma_find_from(s, "<channel|>"@, 0);
    lemma_find_from(s, "</thought>"@, 0);
    lemma_find_from(s, "</think>"@, 0);
}

/// An answer is kept from the client only where its beginning, without white space
/// and a thought, is the mark of a tool call or of a message to someone else.
pub proof fn law_only_marked_answers_are_kept(tokens: Seq<Seq<char>>)
    requires
        stream_after(tokens).tool_call,
    ensures
        exists|n: int, k: int| shows_mark(tokens, n, k),
{
    let (n, k) = lemma_held(tokens);
    assert(shows_mark(tokens, n, k));
}

/// Of an answer whose first token begins as a tool call does, or as a message to
/// someone else, nothing is sent.
pub proof fn law_marked_answers_are_kept(token: Seq<char>, rest: Seq<Seq<char>>)
    requires
        is_marked(trim_start(token)),
    ensures
        streamed(seq![token] + rest) == Seq::<char>::empty(),
        stream_after(seq![token] + rest).tool_call,
{
    lemma_marked(trim_start(token));
    law_call_is_not_streamed(token, rest);
}

/// What is held back, while nothing has been decided, is a thought that goes on, is
/// white space after a thought, or is at most 30 bytes that may become the beginning
/// of a tool call or of a header.
pub proof fn law_little_is_held_back(tokens: Seq<Seq<char>>)
    requires
        tokens.len() > 0,
        !stream_after(tokens).decided,
    ensures
        ({
            let held = stream_after(tokens).held;
            let s = trim_start(held);
            ||| begins_thought(s) && !mentions(s, "<channel|>"@) && !mentions(s, "</thought>"@)
                && !mentions(s, "</think>"@)
            ||| s.len() == 0
            ||| byte_len(held) <= 30 && (starts_with(s, "to="@) || starts_with(s, "<|"@)
                || starts_with(s, "<tool"@) || s[0] == '{' || s[0] == '[')
        }),
{
    let front = tokens.drop_last();
    let before = stream_after(front);
    let whole = before.held + tokens.last();
    reveal_strlit("{");
    reveal_strlit("[");
    match past_thought(whole) {
        None => {},
        Some(held) => {
            let s = trim_start(held);
            if starts_with(s, "{"@) {
                lemma_begins_char(s, "{"@);
            }
            if starts_with(s, "["@) {
                lemma_begins_char(s, "["@);
            }
        },
    }
}

// ---------------------------------------------------------------------------
// What the client gets

/// What has been sent is the end of the answer so far: nothing is sent twice, left
/// out in between, or made up.
pub proof fn law_client_gets_the_end_of_the_answer(tokens: Seq<Seq<char>>)
    ensures
        stream_after(tokens).decided && !stream_after(tokens).tool_call ==> is_end_of(
            streamed(tokens),
            joined(tokens),
        ),
        !stream_after(tokens).decided || stream_after(tokens).tool_call ==> streamed(tokens)
            == Seq::<char>::empty(),
    decreases tokens.len(),
{
    law_tool_call_is_not_streamed(tokens);
    if tokens.len() > 0 {
        let front = tokens.drop_last();
        let token = tokens.last();
        law_client_gets_the_end_of_the_answer(front);
        law_tool_call_is_not_streamed(front);
        law_stream_keeps_answer(front);
        let before = stream_after(front);
        if before.decided {
            if !before.tool_call {
                lemma_end_grows(streamed(front), joined(front), token);
            }
        } else {
            let (m, k) = lemma_held(front);
            assert(front.take(front.len() as int) =~= front);
            let text = joined(tokens);
            let whole = before.held + token;
            assert(whole =~= text.skip(k));
            lemma_skip_is_end(text, k);
            if let Some(held) = past_thought(whole) {
                let s = trim_start(whole);
                lemma_trim_is_end(whole);
                if opens_thought(s) {
                    let i = thought_end(s)->0;
                    lemma_thought_end(s);
                    lemma_skip_is_end(s, i);
                    lemma_trim_is_end(s.skip(i));
                    lemma_end_chain(held, s.skip(i), s);
                    lemma_end_chain(held, s, whole);
                } else {
                    assert(whole.skip(0) =~= whole);
                }
                lemma_end_chain(held, whole, text);
                let t = trim_start(held);
                lemma_trim_is_end(held);
                lemma_end_chain(t, held, text);
                lemma_find_from(t, "<|message|>"@, 0);
                if let Some(i) = find(t, "<|message|>"@) {
                    lemma_skip_is_end(t, i + "<|message|>"@.len());
                    lemma_end_chain(t.skip(i + "<|message|>"@.len()), t, text);
                }
                if starts_with(t, "to=user\n"@) {
                    lemma_skip_is_end(t, "to=user\n"@.len() as int);
                    lemma_end_chain(t.skip("to=user\n"@.len() as int), t, text);
                }
                let none = Seq::<char>::empty();
                assert(text.skip(text.len() as int) =~= none);
                match verdict(held) {
                    Verdict::Show(Some(shown)) if !awaits_answer(text, held) => {
                        assert(streamed(tokens) =~= shown);
                        assert(is_end_of(shown, text));
                    },
                    Verdict::Show(None) => {
                        assert(streamed(tokens) =~= none);
                    },
                    _ => {},
                }
            }
        }
    }
}

/// A text that begins as no thought, tool call or header does.
pub open spec fn is_ordinary(s: Seq<char>) -> bool {
    &&& s.len() > 0 ==> s[0] != '<' && s[0] != '{' && s[0] != '['
    &&& !starts_with(s, "to="@)
    &&& !starts_with(s, "call:"@)
    &&& !starts_with(s, "```tool_call"@)
    &&& !starts_with(s, "```json"@)
    &&& !mentions(s, "<|message|>"@)
}

proof fn lemma_ordinary(s: Seq<char>)
    requires
        is_ordinary(s),
    ensures
        !opens_thought(s),
        !opens_call(s),
        !may_open(s),
        !starts_with(s, "to=user\n"@),
{
    reveal_strlit("<|channel>thought");
    reveal_strlit("<thought>");
    reveal_strlit("<think>");
    reveal_strlit("<tool_call");
    reveal_strlit("<|tool_call");
    reveal_strlit("<atem:function_calls");
    reveal_strlit("[TOOL_CALLS]");
    reveal_strlit("<|start|>assistant to=");
    reveal_strlit("{");
    reveal_strlit("[");
    reveal_strlit("<|");
    reveal_strlit("<tool");
    reveal_strlit("to=");
    reveal_strlit("to=functions.");
    reveal_strlit("to=user\n");
    lemma_not_begun(s, "<|channel>thought"@);
    lemma_not_begun(s, "<thought>"@);
    lemma_not_begun(s, "<think>"@);
    lemma_not_begun(s, "<tool_call"@);
    lemma_not_begun(s, "<|tool_call"@);
    lemma_not_begun(s, "<atem:function_calls"@);
    lemma_not_begun(s, "[TOOL_CALLS]"@);
    lemma_not_begun(s, "<|start|>assistant to="@);
    lemma_not_begun(s, "{"@);
    lemma_not_begun(s, "["@);
    lemma_not_begun(s, "<|"@);
    lemma_not_begun(s, "<tool"@);
    assert("to=functions."@.subrange(0, 3) =~= "to="@);
    assert("to=user\n"@.subrange(0, 3) =~= "to="@);
    if starts_with(s, "to=functions."@) {
        lemma_begins_shorter(s, "to=functions."@, "to="@);
    }
    if starts_with(s, "to=user\n"@) {
        lemma_begins_shorter(s, "to=user\n"@, "to="@);
    }
}

proof fn lemma_not_begun(s: Seq<char>, p: Seq<char>)
    requires
        p.len() > 0,
        s.len() > 0 ==> s[0] != p[0],
    ensures
        !starts_with(s, p),
{
    if starts_with(s, p) {
        lemma_begins_char(s, p);
    }
}

/// An answer whose first token, without white space before it, begins with none of
/// `<`, `{`, `[`, `to=`, `call:`, a code block for tool calls and one for JSON, and
/// holds no header, reaches the client whole.
pub proof fn law_ordinary_answer_reaches_the_client(tokens: Seq<Seq<char>>)
    requires
        tokens.len() > 0,
        is_ordinary(trim_start(tokens[0])),
    ensures
        streamed(tokens) == joined(tokens),
{
    lemma_ordinary(trim_start(tokens[0]));
    law_plain_answer_streams_whole(tokens);
}

pub(crate) proof fn lemma_streams_on(tokens: Seq<Seq<char>>, rest: Seq<Seq<char>>)
    requires
        stream_after(tokens).decided,
        !stream_after(tokens).tool_call,
    ensures
        streamed(tokens + rest) == streamed(tokens) + joined(rest),
        stream_after(tokens + rest).decided,
        !stream_after(tokens + rest).tool_call,
    decreases rest.len(),
{
    if rest.len() == 0 {
        assert(tokens + rest =~= tokens);
        assert(joined(rest) =~= Seq::<char>::empty());
        assert(streamed(tokens) + joined(rest) =~= streamed(tokens));
    } else {
        let front = rest.drop_last();
        lemma_streams_on(tokens, front);
        assert((tokens + rest).drop_last() =~= tokens + front);
        law_answer_streams_on(tokens + front, rest.last());
        law_decision_is_final(tokens + front, rest.last());
        assert((tokens + front).push(rest.last()) =~= tokens + rest);
        assert(streamed(tokens) + joined(front) + rest.last() =~= streamed(tokens) + (joined(front)
            + rest.last()));
    }
}

/// What is sent is not changed by how the end of an answer is split into tokens: once
/// an answer is being sent, every further token is sent as it is.
pub proof fn law_answer_goes_on(tokens: Seq<Seq<char>>, rest: Seq<Seq<char>>)
    requires
        stream_after(tokens).decided,
        !stream_after(tokens).tool_call,
    ensures
        streamed(tokens + rest) == streamed(tokens) + joined(rest),
{
    lemma_streams_on(tokens, rest);
}

/// The text holds no end of a thought.
pub open spec fn is_unended(s: Seq<char>) -> bool {
    !mentions(s, "<channel|>"@) && !mentions(s, "</thought>"@) && !mentions(s, "</think>"@)
}

proof fn lemma_front_lacks(a: Seq<char>, b: Seq<char>, p: Seq<char>)
    requires
        !mentions(a + b, p),
    ensures
        !mentions(a, p),
{
    lemma_find_from(a, p, 0);
    lemma_find_from(a + b, p, 0);
    if let Some(i) = find(a, p) {
        assert((a + b).subrange(i, i + p.len()) =~= a.subrange(i, i + p.len()));
        assert(occurs_at(a + b, p, i));
    }
}

proof fn lemma_end_lacks(t: Seq<char>, s: Seq<char>, p: Seq<char>)
    requires
        is_end_of(t, s),
        !mentions(s, p),
    ensures
        !mentions(t, p),
{
    lemma_find_from(t, p, 0);
    lemma_find_from(s, p, 0);
    if let Some(i) = find(t, p) {
        let k = s.len() - t.len();
        assert(s.subrange(k + i, k + i + p.len()) =~= t.subrange(i, i + p.len()));
        assert(occurs_at(s, p, k + i));
    }
}

/// Tokens that begin a thought and do not end it keep it open, whole and in part.
proof fn lemma_thought_open(tokens: Seq<Seq<char>>)
    requires
        tokens.len() > 0,
        begins_thought(trim_start(tokens[0])),
        is_unended(joined(tokens)),
    ensures
        forall|n: int|
            0 < n <= tokens.len() ==> past_thought(joined(#[trigger] tokens.take(n))) is None,
    decreases tokens.len(),
{
    let n = tokens.len() as int;
    let text = joined(tokens);
    let front = tokens.drop_last();
    assert(tokens.take(n) =~= tokens);
    lemma_trim_is_end(text);
    lemma_end_lacks(trim_start(text), text, "<channel|>"@);
    lemma_end_lacks(trim_start(text), text, "</thought>"@);
    lemma_end_lacks(trim_start(text), text, "</think>"@);
    lemma_first_token(tokens);
    if n > 1 {
        lemma_front_lacks(joined(front), tokens.last(), "<channel|>"@);
        lemma_front_lacks(joined(front), tokens.last(), "</thought>"@);
        lemma_front_lacks(joined(front), tokens.last(), "</think>"@);
        assert(front[0] == tokens[0]);
        lemma_thought_open(front);
    }
    assert forall|m: int| 0 < m <= tokens.len() implies past_thought(
        joined(#[trigger] tokens.take(m)),
    ) is None by {
        if m < n {
            assert(tokens.take(m) =~= front.take(m));
        }
    }
}

proof fn lemma_first_token(tokens: Seq<Seq<char>>)
    requires
        tokens.len() > 0,
        begins_thought(trim_start(tokens[0])),
    ensures
        begins_thought(trim_start(joined(tokens))),
    decreases tokens.len(),
{
    let front = tokens.drop_last();
    if front.len() == 0 {
        assert(joined(front) =~= Seq::<char>::empty());
        assert(joined(tokens) =~= tokens[0]);
    } else {
        assert(front[0] == tokens[0]);
        lemma_first_token(front);
        lemma_thought_goes_on(trim_start(joined(front)), tokens.last());
        lemma_trim_front(joined(front), tokens.last());
    }
}

/// Nothing of a thought is sent while it goes on, however many tokens it takes.
pub proof fn law_thought_is_kept(tokens: Seq<Seq<char>>)
    requires
        tokens.len() > 0,
        begins_thought(trim_start(tokens[0])),
        is_unended(joined(tokens)),
    ensures
        streamed(tokens) == Seq::<char>::empty(),
        !stream_after(tokens).decided,
{
    lemma_thought_open(tokens);
    law_thought_is_not_streamed(tokens);
}

/// The end of the only thought in a text.
proof fn lemma_one_end(s: Seq<char>, thought: Seq<char>, close: Seq<char>, rest: Seq<char>)
    requires
        close == "<channel|>"@ || close == "</thought>"@ || close == "</think>"@,
        s == thought + close + rest,
        is_unended(thought),
        is_unended(rest),
    ensures
        thought_end(s) == Some((thought.len() + close.len()) as int),
{
    reveal_strlit("<channel|>");
    reveal_strlit("</thought>");
    reveal_strlit("</think>");
    lemma_only_there(thought, close, rest, "<channel|>"@);
    lemma_only_there(thought, close, rest, "</thought>"@);
    lemma_only_there(thought, close, rest, "</think>"@);
}

/// A text that begins with `<` and has no other `<` stands in another around a tag of
/// that kind only where it is the tag.
proof fn lemma_only_there(a: Seq<char>, tag: Seq<char>, b: Seq<char>, p: Seq<char>)
    requires
        p.len() > 0,
        p[0] == '<',
        forall|k: int| 0 < k < p.len() ==> #[trigger] p[k] != '<',
        tag.len() > 0,
        tag[0] == '<',
        forall|k: int| 0 < k < tag.len() ==> #[trigger] tag[k] != '<',
        !mentions(a, p),
        !mentions(b, p),
        tag.last() == '>',
        p.last() == '>',
        forall|k: int| 0 <= k < p.len() - 1 ==> #[trigger] p[k] != '>',
        forall|k: int| 0 <= k < tag.len() - 1 ==> #[trigger] tag[k] != '>',
    ensures
        p == tag ==> find(a + tag + b, p) == Some(a.len() as int),
        p != tag ==> find(a + tag + b, p) is None,
{
    let s = a + tag + b;
    let n = a.len() as int;
    lemma_find_from(s, p, 0);
    lemma_find_from(a, p, 0);
    lemma_find_from(b, p, 0);
    if p == tag {
        assert(s.subrange(n, n + p.len()) =~= p);
        assert(occurs_at(s, p, n));
    }
    if let Some(i) = find(s, p) {
        let own = s.subrange(i, i + p.len());
        if i < n {
            if i + p.len() <= n {
                assert(a.subrange(i, i + p.len()) =~= own);
                assert(occurs_at(a, p, i));
            } else {
                assert(own[n - i] == s[n]);
                assert(s[n] == '<');
                assert(p[n - i] != '<');
            }
        } else if i == n {
            if p != tag {
                if p.len() > tag.len() {
                    assert(own[tag.len() - 1] == s[n + tag.len() - 1]);
                    assert(s[n + tag.len() - 1] == tag.last());
                } else if p.len() < tag.len() {
                    assert(own[p.len() - 1] == s[n + p.len() - 1]);
                    assert(s[n + p.len() - 1] == tag[p.len() - 1]);
                } else {
                    assert(tag =~= own);
                }
            }
        } else if i < n + tag.len() {
            assert(own[0] == s[i]);
            assert(s[i] == tag[i - n]);
        } else {
            let j = i - n - tag.len();
            assert(b.subrange(j, j + p.len()) =~= own);
            assert(occurs_at(b, p, j));
        }
    }
}

/// Once the thought at the beginning of an answer has ended, the ordinary answer after
/// it is sent, without the thought and the white space behind it, and so is all that
/// follows.
pub proof fn law_answer_after_thought_is_sent(
    tokens: Seq<Seq<char>>,
    last: Seq<char>,
    rest: Seq<Seq<char>>,
    blank: Seq<char>,
    thought: Seq<char>,
    close: Seq<char>,
    answer: Seq<char>,
)
    requires
        close == "<channel|>"@ || close == "</thought>"@ || close == "</think>"@,
        joined(tokens) + last == blank + thought + close + answer,
        trim_start(blank).len() == 0,
        begins_thought(thought),
        is_unended(thought),
        is_unended(answer),
        tokens.len() > 0 ==> begins_thought(trim_start(tokens[0])) && is_unended(joined(tokens)),
        trim_start(answer).len() > 0,
        is_ordinary(trim_start(answer)),
    ensures
        streamed(tokens.push(last) + rest) == trim_start(answer) + joined(rest),
{
    let text = joined(tokens) + last;
    let s = thought + close + answer;
    lemma_trim_blank_front(blank, s);
    assert(text =~= blank + s);
    lemma_thought_goes_on(thought, close + answer);
    assert(s =~= thought + (close + answer));
    lemma_thought_not_white(s);
    assert(trim_start(text) == s);
    lemma_one_end(s, thought, close, answer);
    let i = (thought.len() + close.len()) as int;
    assert(s.skip(i) =~= answer);
    let shown = trim_start(answer);
    assert(past_thought(text) == Some(shown));
    if tokens.len() > 0 {
        lemma_thought_open(tokens);
    }
    assert forall|n: int| 0 < n <= tokens.len() implies past_thought(
        joined(#[trigger] tokens.take(n)),
    ) is None by {}
    lemma_trim_twice(answer);
    lemma_ordinary(shown);
    assert(verdict(shown) == Verdict::Show(Some(shown)));
    law_answer_follows_thought(tokens, last, shown, shown);
    lemma_streams_on(tokens.push(last), rest);
}

proof fn lemma_trim_twice(s: Seq<char>)
    ensures
        trim_start(trim_start(s)) == trim_start(s),
    decreases s.len(),
{
    if s.len() > 0 && is_white(s[0]) {
        lemma_trim_twice(s.skip(1));
    }
}

proof fn lemma_trim_blank_front(blank: Seq<char>, s: Seq<char>)
    requires
        trim_start(blank).len() == 0,
    ensures
        trim_start(blank + s) == trim_start(s),
    decreases blank.len(),
{
    if blank.len() == 0 {
        assert(blank + s =~= s);
    } else {
        assert((blank + s).skip(1) =~= blank.skip(1) + s);
        lemma_trim_blank_front(blank.skip(1), s);
    }
}

proof fn lemma_thought_not_white(s: Seq<char>)
    requires
        begins_thought(s),
    ensures
        trim_start(s) == s,
{
    reveal_strlit("<think>");
    reveal_strlit("<thought>");
    reveal_strlit("<|channel>thought");
    if starts_with(s, "<think>"@) {
        lemma_begins_char(s, "<think>"@);
    } else if starts_with(s, "<thought>"@) {
        lemma_begins_char(s, "<thought>"@);
    } else {
        lemma_begins_char(s, "<|channel>thought"@);
    }
}

/// A header at the beginning of an answer, up to its `<|message|>`, is dropped, and
/// what follows it is sent.
pub proof fn law_header_is_dropped(
    header: Seq<char>,
    answer: Seq<char>,
    rest: Seq<Seq<char>>,
)
    requires
        trim_start(header) == header,
        header.len() > 0,
        !mentions(header, "<|message|>"@),
        !begins_thought(header + "<|message|>"@ + answer),
        !is_marked(header + "<|message|>"@ + answer),
    ensures
        streamed(seq![header + "<|message|>"@ + answer] + rest) == answer + joined(rest),
{
    let mark = "<|message|>"@;
    let token = header + mark + answer;
    reveal_strlit("<|message|>");
    lemma_mark_found(header, answer);
    let s = trim_start(token);
    lemma_trim_front(header, mark + answer);
    assert(header + (mark + answer) =~= token);
    assert(s == token);
    lemma_marked(token);
    assert(token.skip(header.len() as int + 11) =~= answer);
    let none = Seq::<Seq<char>>::empty();
    let one = seq![token];
    assert(one.drop_last() =~= none);
    assert(stream_after(none) == stream_start());
    assert(Seq::<char>::empty() + token =~= token);
    assert(past_thought(token) == Some(token));
    assert(stream_after(one).decided && !stream_after(one).tool_call);
    assert(streamed(none) =~= Seq::<char>::empty());
    assert(streamed(one) =~= answer);
    lemma_streams_on(one, rest);
}

pub(crate) proof fn lemma_mark_found(header: Seq<char>, answer: Seq<char>)
    requires
        !mentions(header, "<|message|>"@),
    ensures
        find(header + "<|message|>"@ + answer, "<|message|>"@) == Some(header.len() as int),
{
    reveal_strlit("<|message|>");
    let p = "<|message|>"@;
    let s = header + p + answer;
    let n = header.len() as int;
    lemma_find_from(s, p, 0);
    lemma_find_from(header, p, 0);
    assert(s.subrange(n, n + 11) =~= p);
    assert(occurs_at(s, p, n));
    let i = find(s, p)->0;
    if i < n {
        let own = s.subrange(i, i + 11);
        if i + 11 <= n {
            assert(header.subrange(i, i + 11) =~= own);
            assert(occurs_at(header, p, i));
        } else {
            assert(own[n - i] == s[n]);
            assert(s[n] == '<');
        }
    }
}

/// A message to the user, on a line of its own, is sent without the line that says
/// so.
pub proof fn law_line_to_user_is_dropped(answer: Seq<char>, rest: Seq<Seq<char>>)
    requires
        !mentions("to=user\n"@ + answer, "<|message|>"@),
    ensures
        streamed(seq!["to=user\n"@ + answer] + rest) == answer + joined(rest),
{
    let token = "to=user\n"@ + answer;
    reveal_strlit("to=user\n");
    reveal_strlit("to=user");
    reveal_strlit("to=");
    reveal_strlit("to=functions.");
    lemma_begins_with_itself("to=user\n"@, answer);
    assert("to=user\n"@.subrange(0, 7) =~= "to=user"@);
    lemma_begins_shorter(token, "to=user\n"@, "to=user"@);
    assert(token[0] == 't');
    assert(trim_start(token) == token);
    lemma_to_user_is_no_mark(token);
    lemma_marked(token);
    assert(token.skip(8) =~= answer);
    let none = Seq::<Seq<char>>::empty();
    let one = seq![token];
    assert(one.drop_last() =~= none);
    assert(stream_after(none) == stream_start());
    assert(Seq::<char>::empty() + token =~= token);
    assert(past_thought(token) == Some(token));
    assert(stream_after(one).decided && !stream_after(one).tool_call);
    assert(streamed(none) =~= Seq::<char>::empty());
    assert(streamed(one) =~= answer);
    lemma_streams_on(one, rest);
}

proof fn lemma_to_user_is_no_mark(s: Seq<char>)
    requires
        s.len() > 0,
        s[0] == 't',
        starts_with(s, "to=user"@),
    ensures
        !is_marked(s),
        !begins_thought(s),
        !opens_thought(s),
{
    reveal_strlit("<|channel>thought");
    reveal_strlit("<thought>");
    reveal_strlit("<think>");
    reveal_strlit("<tool_call");
    reveal_strlit("<|tool_call");
    reveal_strlit("```tool_call");
    reveal_strlit("```json");
    reveal_strlit("<atem:function_calls");
    reveal_strlit("[TOOL_CALLS]");
    reveal_strlit("call:");
    reveal_strlit("<|start|>assistant to=");
    lemma_not_begun(s, "<|channel>thought"@);
    lemma_not_begun(s, "<thought>"@);
    lemma_not_begun(s, "<think>"@);
    lemma_not_begun(s, "<tool_call"@);
    lemma_not_begun(s, "<|tool_call"@);
    lemma_not_begun(s, "```tool_call"@);
    lemma_not_begun(s, "```json"@);
    lemma_not_begun(s, "<atem:function_calls"@);
    lemma_not_begun(s, "[TOOL_CALLS]"@);
    lemma_not_begun(s, "call:"@);
    lemma_not_begun(s, "<|start|>assistant to="@);
}

} // verus!
