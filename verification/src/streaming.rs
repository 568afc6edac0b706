//! Streaming a chat answer: what of the text that a model writes, token by token,
//! goes to the client at once.
//!
//! The beginning of an answer is held back until it is clear whether it is meant
//! for the user. A thought at the beginning is dropped. An answer that then begins
//! with the mark of a tool call is not streamed; the call is read from the whole
//! answer once that is complete. A mark that is split over tokens may have been sent
//! in part before it is whole: a lone `<`, for one, is sent at once.

use vstd::prelude::*;
use vstd::slice::slice_subrange;

use crate::ollama_types::ToolCall;
use crate::text::begins;
use crate::text::byte_len;
use crate::text::chars_of;
use crate::text::copy_chars;
use crate::text::find;
use crate::text::has_text;
use crate::text::is_longer;
use crate::text::is_white;
use crate::text::mentions;
use crate::text::push_all;
use crate::text::search;
use crate::text::starts_with;
use crate::text::string_of;
use crate::text::trim_start;
use crate::text::trimmed_start;
use crate::tool_calls::are_calls;
use crate::tool_calls::extraction;
use crate::tool_calls::try_parse_tool_calls;

verus! {

/// The state of a stream: the whole answer so far, what is held back of it,
/// whether the beginning has been decided on, and whether it is a tool call.
pub struct StreamView {
    pub full: Seq<char>,
    pub held: Seq<char>,
    pub decided: bool,
    pub tool_call: bool,
}

/// What comes of the beginning of an answer.
pub enum Verdict {
    /// Not clear yet: more has to be held back.
    Wait,
    /// A tool call.
    ToolCall,
    /// For the user; the text is shown, where there is any.
    Show(Option<Seq<char>>),
}

/// The beginning of a thought.
pub open spec fn opens_thought(s: Seq<char>) -> bool {
    ||| starts_with(s, "<|channel>thought"@)
    ||| starts_with(s, "<thought>"@)
    ||| starts_with(s, "<think>"@)
}

/// The index after the end of a thought.
pub open spec fn thought_end(s: Seq<char>) -> Option<int> {
    match find(s, "<channel|>"@) {
        Some(i) => Some(i + "<channel|>"@.len()),
        None => match find(s, "</thought>"@) {
            Some(i) => Some(i + "</thought>"@.len()),
            None => match find(s, "</think>"@) {
                Some(i) => Some(i + "</think>"@.len()),
                None => None,
            },
        },
    }
}

/// The beginning of a tool call, or of a message to someone else than the user.
pub open spec fn opens_call(s: Seq<char>) -> bool {
    ||| starts_with(s, "<tool_call"@)
    ||| starts_with(s, "<|tool_call"@)
    ||| starts_with(s, "```tool_call"@)
    ||| starts_with(s, "```json"@)
    ||| starts_with(s, "<atem:function_calls"@)
    ||| starts_with(s, "to=functions."@)
    ||| starts_with(s, "[TOOL_CALLS]"@)
    ||| starts_with(s, "{"@) && (mentions(s, "\"name\""@) || mentions(s, "\"function\""@) || mentions(
        s,
        "\"arguments\""@,
    ))
    ||| starts_with(s, "["@) && mentions(s, "\"name\""@)
    ||| starts_with(s, "call:"@)
    ||| starts_with(s, "to="@) && !starts_with(s, "to=user"@)
    ||| starts_with(s, "<|start|>assistant to="@) && !starts_with(
        s,
        "<|start|>assistant to=user"@,
    )
}

/// What may still become the beginning of a tool call or of a header.
pub open spec fn may_open(s: Seq<char>) -> bool {
    ||| starts_with(s, "to="@)
    ||| starts_with(s, "<|"@)
    ||| starts_with(s, "<tool"@)
    ||| starts_with(s, "{"@)
    ||| starts_with(s, "["@)
}

/// A text to show, where it is not empty.
pub open spec fn shown(s: Seq<char>) -> Verdict {
    if s.len() == 0 {
        Verdict::Show(None)
    } else {
        Verdict::Show(Some(s))
    }
}

/// What comes of the beginning `held` of an answer, without a thought before it:
/// a tool call is kept back, a header up to `<|message|>` or `to=user` is dropped,
/// and anything else is shown once it cannot become one of these, or once it is
/// more than 30 bytes long.
pub open spec fn verdict(held: Seq<char>) -> Verdict {
    let s = trim_start(held);
    if opens_call(s) {
        Verdict::ToolCall
    } else {
        match find(s, "<|message|>"@) {
            Some(i) => shown(s.skip(i + "<|message|>"@.len())),
            None => if starts_with(s, "to=user\n"@) {
                shown(s.skip("to=user\n"@.len() as int))
            } else if byte_len(held) > 30 || !may_open(s) {
                Verdict::Show(Some(held))
            } else {
                Verdict::Wait
            },
        }
    }
}

/// The beginning of an answer without the thought at its start. None while the
/// thought goes on.
pub open spec fn past_thought(held: Seq<char>) -> Option<Seq<char>> {
    let s = trim_start(held);
    if opens_thought(s) {
        match thought_end(s) {
            Some(i) => Some(trim_start(s.skip(i))),
            None => None,
        }
    } else {
        Some(held)
    }
}

/// The state of a stream before the first token.
pub open spec fn stream_start() -> StreamView {
    StreamView { full: Seq::empty(), held: Seq::empty(), decided: false, tool_call: false }
}

/// Nothing but white space has come since a thought was dropped: the text that is
/// held back is blank though the whole answer is not.
pub open spec fn awaits_answer(full: Seq<char>, held: Seq<char>) -> bool {
    trim_start(held).len() == 0 && trim_start(full).len() > 0
}

/// The state after one more token, and what is sent to the client for it.
pub open spec fn stream_step(state: StreamView, token: Seq<char>) -> (StreamView, Option<Seq<char>>) {
    let full = state.full + token;
    if state.decided {
        (
            StreamView { full, ..state },
            if state.tool_call {
                None
            } else {
                Some(token)
            },
        )
    } else {
        match past_thought(state.held + token) {
            None => (StreamView { full, held: state.held + token, ..state }, None),
            Some(held) => if awaits_answer(full, held) {
                (StreamView { full, held, ..state }, None)
            } else {
                match verdict(held) {
                    Verdict::Wait => (StreamView { full, held, ..state }, None),
                    Verdict::ToolCall => (
                        StreamView { full, held, decided: true, tool_call: true },
                        None,
                    ),
                    Verdict::Show(text) => (
                        StreamView { full, held, decided: true, ..state },
                        text,
                    ),
                }
            },
        }
    }
}

/// The state of a chat answer that is being streamed.
pub struct ChatStream {
    full: Vec<char>,
    held: Vec<char>,
    decided: bool,
    tool_call: bool,
}

impl View for ChatStream {
    type V = StreamView;

    closed spec fn view(&self) -> StreamView {
        StreamView {
            full: self.full@,
            held: self.held@,
            decided: self.decided,
            tool_call: self.tool_call,
        }
    }
}

/// Whether a thought begins.
fn is_thought(s: &[char]) -> (r: bool)
    ensures
        r == opens_thought(s@),
{
    begins(s, "<|channel>thought") || begins(s, "<thought>") || begins(s, "<think>")
}

/// The index after the end of a thought.
fn find_thought_end(s: &[char]) -> (r: Option<usize>)
    ensures
        match r {
            Some(i) => thought_end(s@) == Some(i as int) && i <= s@.len(),
            None => thought_end(s@) is None,
        },
{
    proof {
        reveal_strlit("<channel|>");
        reveal_strlit("</thought>");
        reveal_strlit("</think>");
    }
    match search(s, "<channel|>", 0) {
        Some(i) => Some(i + 10),
        None => match search(s, "</thought>", 0) {
            Some(i) => Some(i + 10),
            None => match search(s, "</think>", 0) {
                Some(i) => Some(i + 8),
                None => None,
            },
        },
    }
}

/// Whether a tool call begins.
fn is_call_start(s: &[char]) -> (r: bool)
    ensures
        r == opens_call(s@),
{
    begins(s, "<tool_call") || begins(s, "<|tool_call") || begins(s, "```tool_call") || begins(
        s,
        "```json",
    ) || begins(s, "<atem:function_calls") || begins(s, "to=functions.") || begins(s, "[TOOL_CALLS]")
        || (begins(s, "{") && (has_text(s, "\"name\"") || has_text(s, "\"function\"") || has_text(
        s,
        "\"arguments\"",
    ))) || (begins(s, "[") && has_text(s, "\"name\"")) || begins(s, "call:") || (begins(s, "to=")
        && !begins(s, "to=user")) || (begins(s, "<|start|>assistant to=") && !begins(
        s,
        "<|start|>assistant to=user",
    ))
}

/// Whether a tool call or a header may still begin.
fn is_maybe_start(s: &[char]) -> (r: bool)
    ensures
        r == may_open(s@),
{
    begins(s, "to=") || begins(s, "<|") || begins(s, "<tool") || begins(s, "{") || begins(s, "[")
}

/// What comes of the beginning of an answer.
pub enum Decision {
    Wait,
    ToolCall,
    Show(Option<String>),
}

impl View for Decision {
    type V = Verdict;

    open spec fn view(&self) -> Verdict {
        match *self {
            Decision::Wait => Verdict::Wait,
            Decision::ToolCall => Verdict::ToolCall,
            Decision::Show(None) => Verdict::Show(None),
            Decision::Show(Some(s)) => Verdict::Show(Some(s@)),
        }
    }
}

/// The text from index `i` on, to be shown where it is not empty.
fn show_from(s: &[char], i: usize) -> (r: Decision)
    requires
        i <= s@.len(),
    ensures
        r@ == shown(s@.skip(i as int)),
{
    let rest = slice_subrange(s, i, s.len());
    proof {
        assert(rest@ =~= s@.skip(i as int));
    }
    if rest.len() == 0 {
        Decision::Show(None)
    } else {
        Decision::Show(Some(string_of(rest)))
    }
}

/// Decides on the beginning of an answer.
pub fn decide(held: &[char]) -> (r: Decision)
    ensures
        r@ == verdict(held@),
{
    proof {
        reveal_strlit("<|message|>");
        reveal_strlit("to=user\n");
    }
    let s = trimmed_start(held);
    if is_call_start(s) {
        return Decision::ToolCall;
    }
    match search(s, "<|message|>", 0) {
        Some(i) => show_from(s, i + 11),
        None => if begins(s, "to=user\n") {
            show_from(s, 8)
        } else if is_longer(held, 30) || !is_maybe_start(s) {
            Decision::Show(Some(string_of(held)))
        } else {
            Decision::Wait
        },
    }
}

/// Drops the thought at the beginning of an answer. None while it goes on.
pub fn drop_thought(held: &[char]) -> (r: Option<Vec<char>>)
    ensures
        match r {
            Some(rest) => past_thought(held@) == Some(rest@),
            None => past_thought(held@) is None,
        },
{
    let s = trimmed_start(held);
    if is_thought(s) {
        match find_thought_end(s) {
            Some(i) => {
                let rest = slice_subrange(s, i, s.len());
                proof {
                    assert(rest@ =~= s@.skip(i as int));
                }
                Some(copy_chars(trimmed_start(rest)))
            },
            None => None,
        }
    } else {
        Some(copy_chars(held))
    }
}

impl ChatStream {
    /// A stream before its first token.
    pub fn new() -> (r: Self)
        ensures
            r@ == stream_start(),
    {
        ChatStream { full: Vec::new(), held: Vec::new(), decided: false, tool_call: false }
    }

    /// Takes the next token; gives what is to be sent to the client for it.
    pub fn push(&mut self, token: &str) -> (r: Option<String>)
        ensures
            final(self)@ == stream_step(old(self)@, token@).0,
            match r {
                Some(s) => stream_step(old(self)@, token@).1 == Some(s@),
                None => stream_step(old(self)@, token@).1 is None,
            },
    {
        let chars = chars_of(token);
        push_all(&mut self.full, chars.as_slice());
        if self.decided {
            if self.tool_call {
                return None;
            }
            return Some(string_of(chars.as_slice()));
        }
        push_all(&mut self.held, chars.as_slice());
        match drop_thought(self.held.as_slice()) {
            None => None,
            Some(held) => {
                if trimmed_start(held.as_slice()).len() == 0 && trimmed_start(
                    self.full.as_slice(),
                ).len() > 0 {
                    self.held = held;
                    return None;
                }
                let decision = decide(held.as_slice());
                self.held = held;
                match decision {
                    Decision::Wait => None,
                    Decision::ToolCall => {
                        self.decided = true;
                        self.tool_call = true;
                        None
                    },
                    Decision::Show(text) => {
                        self.decided = true;
                        text
                    },
                }
            },
        }
    }

    /// The whole answer.
    pub fn full_text(&self) -> (r: String)
        ensures
            r@ == self@.full,
    {
        string_of(self.full.as_slice())
    }

    /// The tool calls in the whole answer; none where it cannot be taken apart.
    pub fn finish(&self) -> (r: Option<Option<Vec<ToolCall>>>)
        ensures
            match extraction(self@.full) {
                Some(scan) => r matches Some(calls) && are_calls(calls, scan.calls),
                None => r is None,
            },
    {
        let text = self.full_text();
        match try_parse_tool_calls(text.as_str()) {
            Some((_, calls)) => Some(calls),
            None => None,
        }
    }
}

// ---------------------------------------------------------------------------
// Laws of streaming

/// The tokens one after the other.
pub open spec fn joined(tokens: Seq<Seq<char>>) -> Seq<char>
    decreases tokens.len(),
{
    if tokens.len() == 0 {
        Seq::empty()
    } else {
        joined(tokens.drop_last()) + tokens.last()
    }
}

/// The state of a stream after the given tokens.
pub open spec fn stream_after(tokens: Seq<Seq<char>>) -> StreamView
    decreases tokens.len(),
{
    if tokens.len() == 0 {
        stream_start()
    } else {
        stream_step(stream_after(tokens.drop_last()), tokens.last()).0
    }
}

/// What a client has been sent after the given tokens.
pub open spec fn streamed(tokens: Seq<Seq<char>>) -> Seq<char>
    decreases tokens.len(),
{
    if tokens.len() == 0 {
        Seq::empty()
    } else {
        let sent = stream_step(stream_after(tokens.drop_last()), tokens.last()).1;
        streamed(tokens.drop_last()) + (match sent {
            Some(s) => s,
            None => Seq::empty(),
        })
    }
}

/// What is sent for the given tokens: each text, with the index of the token that it
/// is sent for.
pub open spec fn sendings(tokens: Seq<Seq<char>>) -> Seq<(int, Seq<char>)>
    decreases tokens.len(),
{
    if tokens.len() == 0 {
        Seq::empty()
    } else {
        let before = sendings(tokens.drop_last());
        match stream_step(stream_after(tokens.drop_last()), tokens.last()).1 {
            Some(s) => before.push((tokens.len() - 1, s)),
            None => before,
        }
    }
}

/// The texts that are sent.
pub open spec fn sent_texts(list: Seq<(int, Seq<char>)>) -> Seq<Seq<char>> {
    Seq::new(list.len(), |i: int| list[i].1)
}

/// No token is sent for twice, and none before an earlier one. The texts that are
/// sent joined are what the client has been sent.
pub proof fn law_sendings_are_in_order(tokens: Seq<Seq<char>>)
    ensures
        forall|i: int|
            0 <= i < sendings(tokens).len() ==> 0 <= (#[trigger] sendings(tokens)[i]).0
                < tokens.len(),
        forall|i: int, j: int|
            0 <= i < j < sendings(tokens).len() ==> (#[trigger] sendings(tokens)[i]).0 < (
            #[trigger] sendings(tokens)[j]).0,
        joined(sent_texts(sendings(tokens))) == streamed(tokens),
    decreases tokens.len(),
{
    if tokens.len() > 0 {
        law_sendings_are_in_order(tokens.drop_last());
        let before = sendings(tokens.drop_last());
        let after = sendings(tokens);
        if after.len() > before.len() {
            assert(sent_texts(after).drop_last() =~= sent_texts(before));
        } else {
            assert(streamed(tokens) =~= streamed(tokens.drop_last()));
        }
    }
}

/// The whole answer is kept: it is the tokens one after the other.
pub proof fn law_stream_keeps_answer(tokens: Seq<Seq<char>>)
    ensures
        stream_after(tokens).full == joined(tokens),
    decreases tokens.len(),
{
    if tokens.len() > 0 {
        law_stream_keeps_answer(tokens.drop_last());
    }
}

/// Nothing is sent before the beginning has been decided on, and nothing is ever
/// sent of a tool call.
pub proof fn law_tool_call_is_not_streamed(tokens: Seq<Seq<char>>)
    ensures
        stream_after(tokens).tool_call ==> stream_after(tokens).decided,
        stream_after(tokens).tool_call ==> streamed(tokens) == Seq::<char>::empty(),
        !stream_after(tokens).decided ==> streamed(tokens) == Seq::<char>::empty(),
    decreases tokens.len(),
{
    if tokens.len() > 0 {
        law_tool_call_is_not_streamed(tokens.drop_last());
        assert(Seq::<char>::empty() + Seq::<char>::empty() =~= Seq::<char>::empty());
    }
}

/// A decision stands: no later token changes it.
pub proof fn law_decision_is_final(tokens: Seq<Seq<char>>, token: Seq<char>)
    ensures
        stream_after(tokens).decided ==> stream_after(tokens.push(token)).decided && stream_after(
            tokens.push(token),
        ).tool_call == stream_after(tokens).tool_call,
{
    assert(tokens.push(token).drop_last() =~= tokens);
}

/// An answer that has been found to be for the user is sent on token by token.
pub proof fn law_answer_streams_on(tokens: Seq<Seq<char>>, token: Seq<char>)
    requires
        stream_after(tokens).decided,
        !stream_after(tokens).tool_call,
    ensures
        streamed(tokens.push(token)) == streamed(tokens) + token,
{
    assert(tokens.push(token).drop_last() =~= tokens);
}

/// A text that begins as no thought, tool call or header can.
pub open spec fn begins_plainly(token: Seq<char>) -> bool {
    let s = trim_start(token);
    !opens_thought(s) && !opens_call(s) && !may_open(s) && !mentions(s, "<|message|>"@)
        && !starts_with(s, "to=user\n"@)
}

/// An answer whose first token begins plainly reaches the client whole.
pub proof fn law_plain_answer_streams_whole(tokens: Seq<Seq<char>>)
    requires
        tokens.len() > 0,
        begins_plainly(tokens[0]),
    ensures
        streamed(tokens) == joined(tokens),
        stream_after(tokens).decided,
        !stream_after(tokens).tool_call,
    decreases tokens.len(),
{
    let front = tokens.drop_last();
    if front.len() > 0 {
        law_plain_answer_streams_whole(front);
    } else {
        let first = tokens.last();
        assert(Seq::<char>::empty() + first =~= first);
        assert(stream_after(front) == stream_start());
        assert(past_thought(first) == Some(first));
        assert(verdict(first) == Verdict::Show(Some(first)));
        assert(stream_step(stream_start(), first).1 == Some(first));
        assert(streamed(front) == Seq::<char>::empty());
        assert(joined(front) == Seq::<char>::empty());
    }
}

/// Nothing of a thought at the beginning of an answer is sent while it goes on.
pub proof fn law_thought_is_not_streamed(tokens: Seq<Seq<char>>)
    requires
        forall|n: int|
            0 < n <= tokens.len() ==> past_thought(joined(#[trigger] tokens.take(n))) is None,
    ensures
        streamed(tokens) == Seq::<char>::empty(),
        !stream_after(tokens).decided,
        stream_after(tokens).held == joined(tokens),
    decreases tokens.len(),
{
    if tokens.len() > 0 {
        let front = tokens.drop_last();
        assert forall|n: int| 0 < n <= front.len() implies past_thought(
            joined(#[trigger] front.take(n)),
        ) is None by {
            assert(front.take(n) =~= tokens.take(n));
        }
        law_thought_is_not_streamed(front);
        assert(tokens.take(tokens.len() as int) =~= tokens);
        assert(past_thought(joined(tokens)) is None);
        assert(Seq::<char>::empty() + Seq::<char>::empty() =~= Seq::<char>::empty());
    }
}

/// Tokens of which each is white space.
pub open spec fn all_blank(tokens: Seq<Seq<char>>) -> bool {
    forall|i: int| 0 <= i < tokens.len() ==> trim_start(#[trigger] tokens[i]).len() == 0
}

/// A text that is nothing but white space, and any text behind it, begin as that
/// text does.
proof fn lemma_trim_blank(blank: Seq<char>, s: Seq<char>)
    requires
        trim_start(blank).len() == 0,
    ensures
        trim_start(blank + s) == trim_start(s),
    decreases blank.len(),
{
    if blank.len() == 0 {
        assert(blank + s =~= s);
    } else {
        assert((blank + s).skip(1) =~= blank.skip(1) + s);
        lemma_trim_blank(blank.skip(1), s);
    }
}

/// A text that does not begin with white space only, and any text behind it, is
/// not blank.
proof fn lemma_trim_not_blank(s: Seq<char>, t: Seq<char>)
    requires
        trim_start(s).len() > 0,
    ensures
        trim_start(s + t).len() > 0,
    decreases s.len(),
{
    if s.len() > 0 && is_white(s[0]) {
        assert((s + t).skip(1) =~= s.skip(1) + t);
        lemma_trim_not_blank(s.skip(1), t);
    }
}

/// What is left of an answer after its thought has been dropped: white space that
/// follows the thought token by token is held back too.
proof fn lemma_after_thought(
    tokens: Seq<Seq<char>>,
    last: Seq<char>,
    blanks: Seq<Seq<char>>,
)
    requires
        forall|n: int|
            0 < n <= tokens.len() ==> past_thought(joined(#[trigger] tokens.take(n))) is None,
        past_thought(joined(tokens) + last) == Some(Seq::<char>::empty()),
        opens_thought(trim_start(joined(tokens) + last)),
        all_blank(blanks),
    ensures
        ({
            let all = tokens.push(last) + blanks;
            let state = stream_after(all);
            &&& streamed(all) == Seq::<char>::empty()
            &&& !state.decided
            &&& !state.tool_call
            &&& trim_start(state.held).len() == 0
            &&& trim_start(state.full).len() > 0
            &&& state.held == joined(blanks)
        }),
    decreases blanks.len(),
{
    law_thought_is_not_streamed(tokens);
    law_tool_call_is_not_streamed(tokens);
    law_stream_keeps_answer(tokens);
    let none = Seq::<char>::empty();
    assert(none + none =~= none);
    reveal_strlit("<|channel>thought");
    reveal_strlit("<thought>");
    reveal_strlit("<think>");
    if blanks.len() == 0 {
        let all = tokens.push(last) + blanks;
        assert(all =~= tokens.push(last));
        assert(all.drop_last() =~= tokens);
        assert(trim_start(none) =~= none);
        assert(joined(blanks) =~= none);
    } else {
        let front = blanks.drop_last();
        let blank = blanks.last();
        let all = tokens.push(last) + blanks;
        lemma_after_thought(tokens, last, front);
        assert(all.drop_last() =~= tokens.push(last) + front);
        assert(all.last() == blank);
        assert(trim_start(blanks[blanks.len() - 1]).len() == 0);
        let before = stream_after(all.drop_last());
        lemma_trim_blank(before.held, blank);
        lemma_trim_not_blank(before.full, blank);
        assert(trim_start(before.held + blank).len() == 0);
        assert(!opens_thought(trim_start(before.held + blank)));
        assert(past_thought(before.held + blank) == Some(before.held + blank));
    }
}

/// A text that begins as a tool call does is not empty and begins no thought.
proof fn lemma_call_is_no_thought(s: Seq<char>)
    requires
        opens_call(s),
    ensures
        s.len() > 0,
        !opens_thought(s),
{
    reveal_strlit("<|channel>thought");
    reveal_strlit("<thought>");
    reveal_strlit("<think>");
    reveal_strlit("<tool_call");
    reveal_strlit("<|tool_call");
    reveal_strlit("```tool_call");
    reveal_strlit("```json");
    reveal_strlit("<atem:function_calls");
    reveal_strlit("to=functions.");
    reveal_strlit("[TOOL_CALLS]");
    reveal_strlit("{");
    reveal_strlit("[");
    reveal_strlit("call:");
    reveal_strlit("to=");
    reveal_strlit("<|start|>assistant to=");
    lemma_first_three(s, "<|channel>thought"@);
    lemma_first_three(s, "<thought>"@);
    lemma_first_three(s, "<think>"@);
    lemma_first_three(s, "<tool_call"@);
    lemma_first_three(s, "<|tool_call"@);
    lemma_first_three(s, "```tool_call"@);
    lemma_first_three(s, "```json"@);
    lemma_first_three(s, "<atem:function_calls"@);
    lemma_first_three(s, "to=functions."@);
    lemma_first_three(s, "[TOOL_CALLS]"@);
    lemma_first_three(s, "call:"@);
    lemma_first_three(s, "to="@);
    lemma_first_three(s, "<|start|>assistant to="@);
    lemma_first(s, "{"@);
    lemma_first(s, "["@);
}

proof fn lemma_first(s: Seq<char>, p: Seq<char>)
    requires
        p.len() > 0,
    ensures
        starts_with(s, p) ==> s[0] == p[0],
{
    if starts_with(s, p) {
        assert(s[0] == s.subrange(0, p.len() as int)[0]);
    }
}

proof fn lemma_first_three(s: Seq<char>, p: Seq<char>)
    requires
        p.len() >= 3,
    ensures
        starts_with(s, p) ==> s[0] == p[0] && s[1] == p[1] && s[2] == p[2],
{
    if starts_with(s, p) {
        let front = s.subrange(0, p.len() as int);
        assert(s[0] == front[0] && s[1] == front[1] && s[2] == front[2]);
    }
}

/// A tool call after a thought is not streamed: where the tokens up to `last` are
/// one closed thought, only white space follows, and the next token begins as a
/// tool call does, nothing is sent, then or later.
pub proof fn law_call_after_thought_is_not_streamed(
    tokens: Seq<Seq<char>>,
    last: Seq<char>,
    blanks: Seq<Seq<char>>,
    token: Seq<char>,
    rest: Seq<Seq<char>>,
)
    requires
        forall|n: int|
            0 < n <= tokens.len() ==> past_thought(joined(#[trigger] tokens.take(n))) is None,
        opens_thought(trim_start(joined(tokens) + last)),
        past_thought(joined(tokens) + last) == Some(Seq::<char>::empty()),
        all_blank(blanks),
        opens_call(trim_start(token)),
    ensures
        streamed((tokens.push(last) + blanks).push(token) + rest) == Seq::<char>::empty(),
        stream_after((tokens.push(last) + blanks).push(token) + rest).tool_call,
    decreases rest.len(),
{
    let before = tokens.push(last) + blanks;
    let all = before.push(token) + rest;
    let none = Seq::<char>::empty();
    assert(none + none =~= none);
    if rest.len() == 0 {
        assert(all =~= before.push(token));
        assert(all.drop_last() =~= before);
        lemma_after_thought(tokens, last, blanks);
        let held = stream_after(before).held;
        lemma_trim_blank(held, token);
        lemma_call_is_no_thought(trim_start(token));
        assert(past_thought(held + token) == Some(held + token));
        assert(verdict(held + token) == Verdict::ToolCall);
    } else {
        law_call_after_thought_is_not_streamed(tokens, last, blanks, token, rest.drop_last());
        assert(all.drop_last() =~= before.push(token) + rest.drop_last());
        law_tool_call_is_not_streamed(all.drop_last());
    }
}

/// An answer whose first token begins as a tool call does is not streamed.
pub proof fn law_call_is_not_streamed(token: Seq<char>, rest: Seq<Seq<char>>)
    requires
        opens_call(trim_start(token)),
    ensures
        streamed(seq![token] + rest) == Seq::<char>::empty(),
        stream_after(seq![token] + rest).tool_call,
    decreases rest.len(),
{
    let all = seq![token] + rest;
    let none = Seq::<char>::empty();
    assert(none + none =~= none);
    if rest.len() == 0 {
        assert(all =~= seq![token]);
        assert(all.drop_last() =~= Seq::<Seq<char>>::empty());
        assert(stream_after(all.drop_last()) == stream_start());
        assert(streamed(all.drop_last()) == none);
        assert(none + token =~= token);
        lemma_call_is_no_thought(trim_start(token));
        assert(past_thought(token) == Some(token));
        assert(verdict(token) == Verdict::ToolCall);
    } else {
        law_call_is_not_streamed(token, rest.drop_last());
        assert(all.drop_last() =~= seq![token] + rest.drop_last());
        law_tool_call_is_not_streamed(all.drop_last());
    }
}

/// Once the thought at the beginning of an answer has ended, what follows it is
/// sent, without the thought.
pub proof fn law_answer_follows_thought(
    tokens: Seq<Seq<char>>,
    last: Seq<char>,
    rest: Seq<char>,
    shown: Seq<char>,
)
    requires
        forall|n: int|
            0 < n <= tokens.len() ==> past_thought(joined(#[trigger] tokens.take(n))) is None,
        past_thought(joined(tokens) + last) == Some(rest),
        trim_start(rest).len() > 0,
        verdict(rest) == Verdict::Show(Some(shown)),
    ensures
        streamed(tokens.push(last)) == shown,
        stream_after(tokens.push(last)).decided,
        !stream_after(tokens.push(last)).tool_call,
{
    law_thought_is_not_streamed(tokens);
    law_tool_call_is_not_streamed(tokens);
    assert(tokens.push(last).drop_last() =~= tokens);
    assert(Seq::<char>::empty() + shown =~= shown);
}

} // verus!
