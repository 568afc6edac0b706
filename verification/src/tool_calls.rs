//! Tool calls in what a model wrote: finding them, and splitting them from the
//! text around them.

use vstd::prelude::*;
use vstd::slice::slice_subrange;

use crate::blocks::block;
use crate::blocks::block_inner;
use crate::blocks::find_block;
use crate::blocks::lemma_block;
use crate::blocks::pairs_view;
use crate::call_laws::lemma_list_is_read;
use crate::call_laws::lemma_list_reaches_json;
use crate::call_syntax::brace_end;
use crate::call_syntax::call_found;
use crate::call_syntax::close_from;
use crate::call_syntax::find_matching_brace;
use crate::call_syntax::gemma_call;
use crate::call_syntax::is_steady_call;
use crate::call_syntax::json_call;
use crate::call_syntax::object_in;
use crate::call_syntax::parse_gemma_call;
use crate::call_syntax::parse_json_tool_call;
use crate::call_syntax::read_object;
use crate::call_syntax::read_whole;
use crate::call_syntax::reads_back;
use crate::call_syntax::value_of;
use crate::call_syntax::whole;
use crate::chat::call_object;
use crate::chat::chatml_calls;
use crate::cleaning::strip_channel_tags;
use crate::cleaning::visible;
use crate::ids::short_text;
use crate::ids::uuid_short;
use crate::json::insert_parsed;
use crate::json::insert_plain;
use crate::json::item_pointer;
use crate::json::json_at;
use crate::json::json_node;
use crate::json::map_members;
use crate::json::members_text;
use crate::json::new_members;
use crate::json::no_members;
use crate::json::push_item;
use crate::json::Json;
use crate::json::JsonKind;
use crate::json::Plain;
use crate::json::Shape;
use crate::ollama_types::calls_view;
use crate::ollama_types::CallView;
use crate::ollama_types::FunctionCall;
use crate::ollama_types::ToolCall;
use crate::parsing_laws::lemma_shown_is_read;
use crate::parsing_laws::lemma_shown_reaches_json;
use crate::text::begins;
use crate::text::chars_of;
use crate::text::copy_chars;
use crate::text::copy_str;
use crate::text::cut;
use crate::text::cut_out;
use crate::text::find;
use crate::text::find_from;
use crate::text::lemma_find_from;
use crate::text::lemma_rfind_to;
use crate::text::lemma_skip_bytes;
use crate::text::mentions;
use crate::text::rfind_to;
use crate::text::search;
use crate::text::search_back;
use crate::text::skip_bytes;
use crate::text::skipped_bytes;
use crate::text::starts_with;
use crate::text::string_of;
use crate::text::trim;
use crate::text::trim_start;
use crate::text::trimmed;
use crate::text::trimmed_start;

verus! {

// ---------------------------------------------------------------------------
// What is left to read, and the calls found so far

/// A text, and the calls that were taken out of it.
pub struct Scan {
    pub text: Seq<char>,
    pub calls: Seq<CallView>,
}

/// A text, and the calls that were taken out of it.
pub struct Found {
    pub text: Vec<char>,
    pub calls: Vec<FunctionCall>,
}

impl View for Found {
    type V = Scan;

    open spec fn view(&self) -> Scan {
        Scan { text: self.text@, calls: calls_view(self.calls@) }
    }
}

/// `calls` with one more, where there is one.
pub open spec fn with_call(calls: Seq<CallView>, call: Option<CallView>) -> Seq<CallView> {
    match call {
        Some(c) => calls.push(c),
        None => calls,
    }
}

/// Adds a call where there is one.
fn push_call(calls: &mut Vec<FunctionCall>, call: Option<FunctionCall>)
    ensures
        calls_view(final(calls)@) == with_call(calls_view(old(calls)@), call_found(call)),
{
    match call {
        Some(c) => {
            calls.push(c);
            proof {
                assert(calls_view(calls@) =~= calls_view(old(calls)@).push(c@));
            }
        },
        None => {},
    }
}

// ---------------------------------------------------------------------------
// Calls in the Harmony syntax:
// to=functions.name<|channel|>commentary<|message|>{...}<|call|>

/// Where a call stands in a text: it begins at `from` and is cut out up to `to`
/// (none where that falls inside a character); `raw` is the text of its
/// arguments.
pub struct SiteView {
    pub from: int,
    pub to: Option<int>,
    pub name: Seq<char>,
    pub raw: Seq<char>,
}

/// The executable form of a [`SiteView`].
pub struct Site {
    pub from: usize,
    pub to: Option<usize>,
    pub name: Vec<char>,
    pub raw: Vec<char>,
}

impl View for Site {
    type V = SiteView;

    open spec fn view(&self) -> SiteView {
        SiteView {
            from: self.from as int,
            to: match self.to {
                Some(i) => Some(i as int),
                None => None,
            },
            name: self.name@,
            raw: self.raw@,
        }
    }
}

/// A character that ends the name of a function.
pub open spec fn ends_name(c: char) -> bool {
    c == '<' || c == ' ' || c == '\n' || c == '{'
}

/// The end of the name that goes on at index `i`.
pub open spec fn name_end(s: Seq<char>, i: int) -> int
    decreases s.len() - i,
{
    if i < s.len() && !ends_name(s[i]) {
        name_end(s, i + 1)
    } else {
        i
    }
}

/// Where the arguments begin: after the next `<|message|>`, or else at the next
/// opening brace.
pub open spec fn arguments_start(s: Seq<char>, from: int) -> Option<int> {
    match find_from(s, "<|message|>"@, from) {
        Some(i) => Some(i + "<|message|>"@.len()),
        None => find_from(s, seq!['{'], from),
    }
}

/// Where the tag that closes the arguments begins: the next `<|call|>`, or else
/// the next `<|end|>`, or else the next `<|return|>`.
pub open spec fn closing_tag(s: Seq<char>, from: int) -> Option<int> {
    match find_from(s, "<|call|>"@, from) {
        Some(i) => Some(i),
        None => match find_from(s, "<|end|>"@, from) {
            Some(i) => Some(i),
            None => find_from(s, "<|return|>"@, from),
        },
    }
}

/// The first call in the Harmony syntax: a name that is not empty, and arguments
/// up to the closing tag, of which eight bytes are cut, or else up to the closing
/// brace, or else up to the end.
pub open spec fn harmony_site(s: Seq<char>) -> Option<SiteView> {
    match find(s, "to=functions."@) {
        None => None,
        Some(from) => {
            let name_from = from + "to=functions."@.len();
            let name_to = name_end(s, name_from);
            let name = trim(s.subrange(name_from, name_to));
            match arguments_start(s, name_to) {
                Some(a) if name.len() > 0 => {
                    let (end, to) = match closing_tag(s, a) {
                        Some(e) => (e, skip_bytes(s, e, 8)),
                        None => match brace_end(s, a) {
                            Some(e) => (e, Some(e)),
                            None => (s.len() as int, Some(s.len() as int)),
                        },
                    };
                    Some(SiteView { from, to, name, raw: trim(s.subrange(a, end)) })
                },
                _ => None,
            }
        },
    }
}

/// The arguments of a Harmony call begin after its name and end in the text.
pub proof fn lemma_harmony_site(s: Seq<char>)
    ensures
        harmony_site(s) matches Some(site) ==> 0 <= site.from < s.len() && (site.to matches Some(to)
            ==> site.from < to <= s.len()),
{
    reveal_strlit("to=functions.");
    reveal_strlit("<|message|>");
    lemma_find_from(s, "to=functions."@, 0);
    if let Some(from) = find(s, "to=functions."@) {
        let name_from = from + "to=functions."@.len();
        let name_to = name_end(s, name_from);
        lemma_name_end(s, name_from);
        lemma_find_from(s, "<|message|>"@, name_to);
        lemma_find_from(s, seq!['{'], name_to);
        if let Some(a) = arguments_start(s, name_to) {
            lemma_find_from(s, "<|call|>"@, a);
            lemma_find_from(s, "<|end|>"@, a);
            lemma_find_from(s, "<|return|>"@, a);
            if let Some(e) = closing_tag(s, a) {
                lemma_skip_bytes(s, e, 8);
            }
            lemma_brace_end(s, a);
        }
    }
}

/// The end of a name does not lie before the place where it goes on.
pub proof fn lemma_name_end(s: Seq<char>, i: int)
    ensures
        i <= name_end(s, i),
        i <= s.len() ==> name_end(s, i) <= s.len(),
    decreases s.len() - i,
{
    if i < s.len() && !ends_name(s[i]) {
        lemma_name_end(s, i + 1);
    }
}

/// A closing brace lies in the text, after the place from which it is sought.
pub proof fn lemma_brace_end(s: Seq<char>, from: int)
    requires
        0 <= from,
    ensures
        brace_end(s, from) matches Some(e) ==> from < e <= s.len(),
{
    lemma_find_from(s, seq!['{'], from);
    if let Some(start) = find_from(s, seq!['{'], from) {
        lemma_close_from(s, start, 0, false, false);
    }
}

proof fn lemma_close_from(s: Seq<char>, i: int, depth: int, in_string: bool, escape: bool)
    ensures
        close_from(s, i, depth, in_string, escape) matches Some(e) ==> i < e <= s.len(),
    decreases s.len() - i,
{
    if i < s.len() {
        lemma_close_from(s, i + 1, depth, in_string, false);
        lemma_close_from(s, i + 1, depth, in_string, true);
        lemma_close_from(s, i + 1, depth, !in_string, false);
        lemma_close_from(s, i + 1, depth + 1, in_string, false);
        lemma_close_from(s, i + 1, depth - 1, in_string, false);
    }
}

/// The calls in the Harmony syntax taken out of a text, one after the other, as
/// long as their arguments are a JSON object. None where a cut falls inside a
/// character.
pub open spec fn harmony(text: Seq<char>, calls: Seq<CallView>) -> Option<Scan>
    decreases text.len(),
{
    match harmony_site(text) {
        None => Some(Scan { text, calls }),
        Some(site) => match (object_in(site.raw), site.to) {
            (None, _) => Some(Scan { text, calls }),
            (Some(_), None) => None,
            (Some(arguments), Some(to)) => {
                proof {
                    lemma_harmony_site(text);
                }
                harmony(
                    cut(text, site.from, to),
                    calls.push(CallView { name: site.name, arguments }),
                )
            },
        },
    }
}

/// Finds the first call in the Harmony syntax.
pub fn find_harmony_site(s: &[char]) -> (r: Option<Site>)
    ensures
        match r {
            Some(site) => harmony_site(s@) == Some(site@) && site.from < s@.len() && (
            site.to matches Some(to) ==> site.from < to <= s@.len()),
            None => harmony_site(s@) is None,
        },
{
    proof {
        lemma_harmony_site(s@);
        reveal_strlit("to=functions.");
        reveal_strlit("<|message|>");
        reveal_strlit("{");
        assert("{"@ =~= seq!['{']);
    }
    let n: usize = s.len();
    let from: usize = match search(s, "to=functions.", 0) {
        Some(i) => i,
        None => {
            return None;
        },
    };
    let name_from: usize = from + 13;
    let mut name_to: usize = name_from;
    while name_to < n && !(s[name_to] == '<' || s[name_to] == ' ' || s[name_to] == '\n'
        || s[name_to] == '{')
        invariant
            n == s@.len(),
            name_from <= name_to <= n,
            name_end(s@, name_from as int) == name_end(s@, name_to as int),
        decreases n - name_to,
    {
        name_to = name_to + 1;
    }
    let name = trimmed(slice_subrange(s, name_from, name_to));
    let start: usize = match search(s, "<|message|>", name_to) {
        Some(i) => i + 11,
        None => match search(s, "{", name_to) {
            Some(i) => i,
            None => {
                return None;
            },
        },
    };
    if name.len() == 0 {
        return None;
    }
    let closing = match search(s, "<|call|>", start) {
        Some(e) => Some(e),
        None => match search(s, "<|end|>", start) {
            Some(e) => Some(e),
            None => search(s, "<|return|>", start),
        },
    };
    let (end, to) = match closing {
        Some(e) => (e, skipped_bytes(s, e, 8)),
        None => match find_matching_brace(s, start) {
            Some(e) => (e, Some(e)),
            None => (n, Some(n)),
        },
    };
    let raw = trimmed(slice_subrange(s, start, end));
    Some(Site { from, to, name: copy_chars(name), raw: copy_chars(raw) })
}

/// Takes the calls in the Harmony syntax out of a text.
pub fn take_harmony(start: Found) -> (r: Option<Found>)
    ensures
        match r {
            Some(f) => harmony(start@.text, start@.calls) == Some(f@),
            None => harmony(start@.text, start@.calls) is None,
        },
{
    let mut text = start.text;
    let mut calls = start.calls;
    loop
        invariant
            harmony(start@.text, start@.calls) == harmony(text@, calls_view(calls@)),
        decreases text@.len(),
    {
        match find_harmony_site(text.as_slice()) {
            None => {
                return Some(Found { text, calls });
            },
            Some(site) => match read_object(site.raw.as_slice()) {
                None => {
                    return Some(Found { text, calls });
                },
                Some(arguments) => match site.to {
                    None => {
                        return None;
                    },
                    Some(to) => {
                        let call = FunctionCall { name: string_of(site.name.as_slice()), arguments };
                        push_call(&mut calls, Some(call));
                        text = cut_out(text.as_slice(), site.from, to);
                    },
                },
            },
        }
    }
}

// ---------------------------------------------------------------------------
// Calls in the Gemma syntax: <|tool_call>call:name{...}<tool_call|>

/// The tags around calls in the Gemma syntax.
pub open spec fn gemma_tags() -> Seq<(Seq<char>, Seq<char>)> {
    seq![
        ("<|tool_call>call:"@, "<tool_call|>"@),
        ("<tool_call>call:"@, "</tool_call>"@),
        ("<|tool_call>call:"@, "<|end|>"@),
    ]
}

/// The calls `call:name{...}` without tags taken out of a text, one after the
/// other, as long as they can be read.
pub open spec fn gemma_bare(text: Seq<char>, calls: Seq<CallView>) -> Scan
    decreases text.len(),
{
    match find(text, "call:"@) {
        Some(from) => {
            let start = from + "call:"@.len();
            match brace_end(text, start) {
                Some(end) => match gemma_call(text.subrange(start, end)) {
                    Some(call) => {
                        proof {
                            lemma_find_from(text, "call:"@, 0);
                            lemma_brace_end(text, start);
                        }
                        gemma_bare(cut(text, from, end), calls.push(call))
                    },
                    None => Scan { text, calls },
                },
                None => Scan { text, calls },
            }
        },
        None => Scan { text, calls },
    }
}

/// Takes the calls in the Gemma syntax out of a text, with and without tags.
pub fn take_gemma(start: Found) -> (r: Found)
    ensures
        r@ == ({
            let between = tagged(start@, gemma_tags(), Syntax::Gemma);
            gemma_bare(between.text, between.calls)
        }),
{
    let pairs: Vec<(&str, &str)> = vec![
        ("<|tool_call>call:", "<tool_call|>"),
        ("<tool_call>call:", "</tool_call>"),
        ("<|tool_call>call:", "<|end|>"),
    ];
    proof {
        assert(pairs_view(pairs@) =~= gemma_tags());
        reveal_strlit("call:");
    }
    let state = take_tagged(start, &pairs, Syntax::Gemma);
    let ghost between = state@;
    let mut text = state.text;
    let mut calls = state.calls;
    loop
        invariant
            "call:"@.len() == 5,
            gemma_bare(between.text, between.calls) == gemma_bare(text@, calls_view(calls@)),
            between == tagged(start@, gemma_tags(), Syntax::Gemma),
        decreases text@.len(),
    {
        let from: usize = match search(text.as_slice(), "call:", 0) {
            Some(i) => i,
            None => {
                return Found { text, calls };
            },
        };
        let begin: usize = from + 5;
        match find_matching_brace(text.as_slice(), begin) {
            Some(end) => match parse_gemma_call(slice_subrange(text.as_slice(), begin, end)) {
                Some(call) => {
                    push_call(&mut calls, Some(call));
                    text = cut_out(text.as_slice(), from, end);
                },
                None => {
                    return Found { text, calls };
                },
            },
            None => {
                return Found { text, calls };
            },
        }
    }
}

// ---------------------------------------------------------------------------
// Calls in the XML syntax:
// <tool_call><function=name><parameter=key>value</parameter></function></tool_call>

/// The first parameter of a function's body: its key, its value, and the index
/// after it.
pub open spec fn parameter(s: Seq<char>) -> Option<(Seq<char>, Seq<char>, int)> {
    match find(s, "<parameter="@) {
        Some(from) => {
            let key_from = from + "<parameter="@.len();
            match find_from(s, seq!['>'], key_from) {
                Some(key_to) => match find_from(s, "</parameter>"@, key_to + 1) {
                    Some(end) => Some(
                        (
                            trim(s.subrange(key_from, key_to)),
                            trim(s.subrange(key_to + 1, end)),
                            end + "</parameter>"@.len(),
                        ),
                    ),
                    None => None,
                },
                None => None,
            }
        },
        None => None,
    }
}

/// A parameter lies in the text.
pub proof fn lemma_parameter(s: Seq<char>)
    ensures
        parameter(s) matches Some((_, _, next)) ==> 0 < next <= s.len(),
{
    reveal_strlit("<parameter=");
    lemma_find_from(s, "<parameter="@, 0);
    if let Some(from) = find(s, "<parameter="@) {
        let key_from = from + "<parameter="@.len();
        lemma_find_from(s, seq!['>'], key_from);
        if let Some(key_to) = find_from(s, seq!['>'], key_from) {
            lemma_find_from(s, "</parameter>"@, key_to + 1);
        }
    }
}

/// `members` with the parameters of a function's body, a later one in place of an
/// earlier.
pub open spec fn parameters(s: Seq<char>, members: Map<Seq<char>, Seq<char>>) -> Map<
    Seq<char>,
    Seq<char>,
>
    decreases s.len(),
{
    match parameter(s) {
        Some((key, value, next)) => {
            proof {
                lemma_parameter(s);
            }
            parameters(s.skip(next), members.insert(key, value_of(value)))
        },
        None => members,
    }
}

/// Where a `<tool_call>` directly before index `at` begins, or else `at`.
pub open spec fn outer_start(s: Seq<char>, at: int) -> int {
    let tag = "<tool_call>"@;
    match rfind_to(s.take(at), tag, at - tag.len()) {
        Some(t) => if trim(s.subrange(t + tag.len(), at)).len() == 0 {
            t
        } else {
            at
        },
        None => at,
    }
}

/// Where the next `</tool_call>` from index `at` on ends, or else `at`.
pub open spec fn outer_end(s: Seq<char>, at: int) -> int {
    match find_from(s, "</tool_call>"@, at) {
        Some(t) => t + "</tool_call>"@.len(),
        None => at,
    }
}

/// The first call in the XML syntax: its name, its body as `raw`, and what is cut
/// out with the tags around it (none where `</function>` is missing).
pub open spec fn xml_site(s: Seq<char>) -> Option<SiteView> {
    match find(s, "<function="@) {
        Some(at) => {
            let name_from = at + "<function="@.len();
            match find_from(s, seq!['>'], name_from) {
                Some(name_to) => {
                    let name = trim(s.subrange(name_from, name_to));
                    let body = name_to + 1;
                    match find_from(s, "</function>"@, body) {
                        Some(end) => Some(
                            SiteView {
                                from: outer_start(s, at),
                                to: Some(outer_end(s, end + "</function>"@.len())),
                                name,
                                raw: s.subrange(body, end),
                            },
                        ),
                        None => Some(
                            SiteView {
                                from: outer_start(s, at),
                                to: None,
                                name,
                                raw: s.subrange(body, s.len() as int),
                            },
                        ),
                    }
                },
                None => None,
            }
        },
        None => None,
    }
}

/// A call in the XML syntax lies in the text.
pub proof fn lemma_xml_site(s: Seq<char>)
    ensures
        xml_site(s) matches Some(site) ==> 0 <= site.from < s.len() && (site.to matches Some(to)
            ==> site.from < to <= s.len()),
{
    reveal_strlit("<function=");
    lemma_find_from(s, "<function="@, 0);
    if let Some(at) = find(s, "<function="@) {
        let name_from = at + "<function="@.len();
        let tag = "<tool_call>"@;
        lemma_rfind_to(s.take(at), tag, at - tag.len());
        lemma_find_from(s, seq!['>'], name_from);
        if let Some(name_to) = find_from(s, seq!['>'], name_from) {
            lemma_find_from(s, "</function>"@, name_to + 1);
            if let Some(end) = find_from(s, "</function>"@, name_to + 1) {
                lemma_find_from(s, "</tool_call>"@, end + "</function>"@.len());
            }
        }
    }
}

/// The calls in the XML syntax taken out of a text, one after the other. None
/// where a call is not closed.
pub open spec fn xml_calls(text: Seq<char>, calls: Seq<CallView>) -> Option<Scan>
    decreases text.len(),
{
    match xml_site(text) {
        None => Some(Scan { text, calls }),
        Some(site) => match site.to {
            None => None,
            Some(to) => {
                proof {
                    lemma_xml_site(text);
                }
                let arguments = members_text(parameters(site.raw, no_members()));
                xml_calls(
                    cut(text, site.from, to),
                    calls.push(CallView { name: site.name, arguments }),
                )
            },
        },
    }
}

/// Finds the first parameter of a function's body.
pub fn find_parameter(s: &[char]) -> (r: Option<(Vec<char>, Vec<char>, usize)>)
    ensures
        match r {
            Some((key, value, next)) => parameter(s@) == Some((key@, value@, next as int)) && 0
                < next <= s@.len(),
            None => parameter(s@) is None,
        },
{
    proof {
        lemma_parameter(s@);
        reveal_strlit("<parameter=");
        reveal_strlit("</parameter>");
        reveal_strlit(">");
        assert(">"@ =~= seq!['>']);
    }
    match search(s, "<parameter=", 0) {
        Some(from) => {
            let key_from: usize = from + 11;
            match search(s, ">", key_from) {
                Some(key_to) => match search(s, "</parameter>", key_to + 1) {
                    Some(end) => {
                        let key = trimmed(slice_subrange(s, key_from, key_to));
                        let value = trimmed(slice_subrange(s, key_to + 1, end));
                        Some((copy_chars(key), copy_chars(value), end + 12))
                    },
                    None => None,
                },
                None => None,
            }
        },
        None => None,
    }
}

/// Reads the parameters of a function's body.
fn read_parameters(s: &[char]) -> (r: Json)
    ensures
        r@ == members_text(parameters(s@, no_members())),
{
    let mut m = new_members();
    let mut rest = s;
    loop
        invariant
            parameters(s@, no_members()) == parameters(rest@, map_members(m)),
        decreases rest@.len(),
    {
        match find_parameter(rest) {
            Some((key, value, next)) => {
                let text = string_of(value.as_slice());
                if !insert_parsed(&mut m, string_of(key.as_slice()), text.as_str()) {
                    insert_plain(&mut m, string_of(key.as_slice()), Plain::Str(text));
                }
                proof {
                    assert(rest@.subrange(next as int, rest@.len() as int) =~= rest@.skip(
                        next as int,
                    ));
                }
                rest = slice_subrange(rest, next, rest.len());
            },
            None => {
                return Json::of_members(&m);
            },
        }
    }
}

/// Finds the first call in the XML syntax.
pub fn find_xml_site(s: &[char]) -> (r: Option<Site>)
    ensures
        match r {
            Some(site) => xml_site(s@) == Some(site@) && site.from < s@.len() && (
            site.to matches Some(to) ==> site.from < to <= s@.len()),
            None => xml_site(s@) is None,
        },
{
    proof {
        lemma_xml_site(s@);
        reveal_strlit("<function=");
        reveal_strlit("</function>");
        reveal_strlit("<tool_call>");
        reveal_strlit("</tool_call>");
        reveal_strlit(">");
        assert(">"@ =~= seq!['>']);
    }
    let n: usize = s.len();
    let at: usize = match search(s, "<function=", 0) {
        Some(i) => i,
        None => {
            return None;
        },
    };
    let name_from: usize = at + 10;
    let name_to: usize = match search(s, ">", name_from) {
        Some(i) => i,
        None => {
            return None;
        },
    };
    let name = copy_chars(trimmed(slice_subrange(s, name_from, name_to)));
    let body: usize = name_to + 1;
    let from: usize = match search_back(s, "<tool_call>", at) {
        Some(t) => {
            let between = trimmed(slice_subrange(s, t + 11, at));
            if between.len() == 0 {
                t
            } else {
                at
            }
        },
        None => at,
    };
    match search(s, "</function>", body) {
        Some(end) => {
            let after: usize = end + 11;
            let to: usize = match search(s, "</tool_call>", after) {
                Some(t) => t + 12,
                None => after,
            };
            Some(Site { from, to: Some(to), name, raw: copy_chars(slice_subrange(s, body, end)) })
        },
        None => Some(Site { from, to: None, name, raw: copy_chars(slice_subrange(s, body, n)) }),
    }
}

/// Takes the calls in the XML syntax out of a text.
pub fn take_xml(start: Found) -> (r: Option<Found>)
    ensures
        match r {
            Some(f) => xml_calls(start@.text, start@.calls) == Some(f@),
            None => xml_calls(start@.text, start@.calls) is None,
        },
{
    let mut text = start.text;
    let mut calls = start.calls;
    loop
        invariant
            xml_calls(start@.text, start@.calls) == xml_calls(text@, calls_view(calls@)),
        decreases text@.len(),
    {
        match find_xml_site(text.as_slice()) {
            None => {
                return Some(Found { text, calls });
            },
            Some(site) => match site.to {
                None => {
                    return None;
                },
                Some(to) => {
                    let arguments = read_parameters(site.raw.as_slice());
                    let call = FunctionCall { name: string_of(site.name.as_slice()), arguments };
                    push_call(&mut calls, Some(call));
                    text = cut_out(text.as_slice(), site.from, to);
                },
            },
        }
    }
}

// ---------------------------------------------------------------------------
// Calls as JSON: <tool_call>{"name": ..., "arguments": ...}</tool_call>

/// The call that an item of a JSON array stands for.
pub open spec fn item_call(text: Seq<char>, i: nat) -> Option<CallView> {
    match json_node(text, item_pointer(i)) {
        Some(n) => json_call(n.text),
        None => None,
    }
}

/// `calls` with those of a list that are there.
pub open spec fn with_all(calls: Seq<CallView>, list: Seq<Option<CallView>>) -> Seq<CallView>
    decreases list.len(),
{
    if list.len() == 0 {
        calls
    } else {
        with_call(with_all(calls, list.drop_last()), list.last())
    }
}

/// The calls that the first `n` items of a JSON array stand for.
pub open spec fn item_calls(text: Seq<char>, n: nat) -> Seq<Option<CallView>> {
    Seq::new(n, |i: int| item_call(text, i as nat))
}

/// `calls` with those that the first `n` items of a JSON array stand for.
pub open spec fn with_items(calls: Seq<CallView>, text: Seq<char>, n: nat) -> Seq<CallView> {
    with_all(calls, item_calls(text, n))
}

/// `calls` with those in a JSON text: the one that it stands for, or else those
/// of the items of an array.
pub open spec fn with_json(calls: Seq<CallView>, text: Seq<char>) -> Seq<CallView> {
    match json_call(text) {
        Some(c) => calls.push(c),
        None => match whole(text) {
            Some(n) => match n.shape {
                Shape::Array(k) => with_items(calls, text, k),
                _ => calls,
            },
            None => calls,
        },
    }
}

/// The tags around calls as JSON.
pub open spec fn json_tags() -> Seq<(Seq<char>, Seq<char>)> {
    seq![
        ("<tool_call>"@, "</tool_call>"@),
        ("<toolcall>"@, "</toolcall>"@),
        ("```tool_call"@, "```"@),
        ("<|tool_call>"@, "<tool_call|>"@),
        ("[TOOL_CALLS]"@, "[/TOOL_CALLS]"@),
    ]
}

/// The calls after a `[TOOL_CALLS]` without an end tag: where what follows is a
/// JSON array or object, it is taken out with the tag.
pub open spec fn json_untagged(start: Scan) -> Scan {
    match find(start.text, "[TOOL_CALLS]"@) {
        Some(from) => {
            let rest = trim_start(
                start.text.subrange(from + "[TOOL_CALLS]"@.len(), start.text.len() as int),
            );
            if starts_with(rest, seq!['[']) || starts_with(rest, seq!['{']) {
                match whole(rest) {
                    Some(n) => Scan {
                        text: start.text.subrange(0, from),
                        calls: match n.shape {
                            Shape::Array(k) => with_items(start.calls, rest, k),
                            _ => with_call(start.calls, json_call(n.text)),
                        },
                    },
                    None => start,
                }
            } else {
                start
            }
        },
        None => start,
    }
}

/// The mathematical form of what reading a list of calls gave.
pub open spec fn calls_found(list: Seq<Option<FunctionCall>>) -> Seq<Option<CallView>> {
    Seq::new(list.len(), |i: int| call_found(list[i]))
}

/// Adds those calls of a list that are there, in their order.
pub fn push_calls(calls: &mut Vec<FunctionCall>, list: Vec<Option<FunctionCall>>)
    ensures
        calls_view(final(calls)@) == with_all(calls_view(old(calls)@), calls_found(list@)),
{
    let ghost before = calls_view(calls@);
    let ghost all = calls_found(list@);
    let n: usize = list.len();
    let mut rest = list;
    let mut i: usize = 0;
    proof {
        assert(list@.skip(0) =~= list@);
        assert(all.take(0) =~= Seq::<Option<CallView>>::empty());
    }
    while i < n
        invariant
            n == list@.len(),
            all == calls_found(list@),
            i <= n,
            rest@ == list@.skip(i as int),
            calls_view(calls@) == with_all(before, all.take(i as int)),
        decreases n - i,
    {
        let call = rest.remove(0);
        proof {
            assert(call == list@[i as int]);
            assert(rest@ =~= list@.skip(i + 1));
            assert(all.take(i + 1).drop_last() =~= all.take(i as int));
            assert(all.take(i + 1).last() == call_found(call));
        }
        push_call(calls, call);
        i = i + 1;
    }
    proof {
        assert(all.take(n as int) =~= all);
    }
}

/// Reads the calls that the items of a JSON array stand for.
fn read_items(text: &str, n: usize) -> (r: Vec<Option<FunctionCall>>)
    ensures
        calls_found(r@) == item_calls(text@, n as nat),
{
    let mut out: Vec<Option<FunctionCall>> = Vec::new();
    let mut i: usize = 0;
    while i < n
        invariant
            i <= n,
            out@.len() == i,
            forall|k: int| 0 <= k < i ==> call_found(#[trigger] out@[k]) == item_call(text@, k as nat),
        decreases n - i,
    {
        let mut pointer: Vec<char> = Vec::new();
        push_item(&mut pointer, i);
        proof {
            assert(pointer@ =~= item_pointer(i as nat));
        }
        let place = string_of(pointer.as_slice());
        let call = match json_at(text, place.as_str()) {
            Some(node) => parse_json_tool_call(node.text.as_str()),
            None => None,
        };
        out.push(call);
        i = i + 1;
    }
    proof {
        assert(calls_found(out@) =~= item_calls(text@, n as nat));
    }
    out
}

/// Adds the calls in a JSON text.
fn push_json(calls: &mut Vec<FunctionCall>, s: &[char])
    ensures
        calls_view(final(calls)@) == with_json(calls_view(old(calls)@), s@),
        reads_back(s@),
{
    let text = string_of(s);
    match parse_json_tool_call(text.as_str()) {
        Some(call) => {
            push_call(calls, Some(call));
        },
        None => match read_whole(text.as_str()) {
            Some(node) => match node.kind {
                JsonKind::Array(n) => {
                    push_calls(calls, read_items(text.as_str(), n));
                },
                _ => {},
            },
            None => {},
        },
    }
}

/// Takes the calls as JSON out of a text.
pub fn take_json(start: Found) -> (r: Found)
    ensures
        r@ == json_untagged(tagged(start@, json_tags(), Syntax::Json)),
        reads_first(start@.text, "<tool_call>"@, "</tool_call>"@),
        reads_blocks(start@.text, "<tool_call>"@, "</tool_call>"@),
{
    let pairs: Vec<(&str, &str)> = vec![
        ("<tool_call>", "</tool_call>"),
        ("<toolcall>", "</toolcall>"),
        ("```tool_call", "```"),
        ("<|tool_call>", "<tool_call|>"),
        ("[TOOL_CALLS]", "[/TOOL_CALLS]"),
    ];
    proof {
        assert(pairs_view(pairs@) =~= json_tags());
        reveal_strlit("<tool_call>");
    }
    take_untagged(take_tagged(start, &pairs, Syntax::Json))
}

/// Takes the calls after a `[TOOL_CALLS]` without an end tag out of a text.
fn take_untagged(start: Found) -> (r: Found)
    ensures
        r@ == json_untagged(start@),
{
    proof {
        reveal_strlit("[TOOL_CALLS]");
        reveal_strlit("[");
        reveal_strlit("{");
        assert("["@ =~= seq!['[']);
        assert("{"@ =~= seq!['{']);
    }
    let text = start.text;
    let mut calls = start.calls;
    let n: usize = text.len();
    match search(text.as_slice(), "[TOOL_CALLS]", 0) {
        Some(from) => {
            let rest = trimmed_start(slice_subrange(text.as_slice(), from + 12, n));
            if begins(rest, "[") || begins(rest, "{") {
                let body = string_of(rest);
                match read_whole(body.as_str()) {
                    Some(node) => {
                        match node.kind {
                            JsonKind::Array(k) => {
                                push_calls(&mut calls, read_items(body.as_str(), k));
                            },
                            _ => {
                                push_call(&mut calls, parse_json_tool_call(node.text.as_str()));
                            },
                        }
                        let kept = copy_chars(slice_subrange(text.as_slice(), 0, from));
                        return Found { text: kept, calls };
                    },
                    None => {},
                }
            }
        },
        None => {},
    }
    Found { text, calls }
}

// ---------------------------------------------------------------------------
// Calls between tags

/// How the contents of a block between tags are read.
#[derive(Clone, Copy)]
pub enum Syntax {
    /// `name{...}`
    Gemma,
    /// JSON, without the white space around it.
    Json,
}

/// `calls` with those in the contents of a block.
pub open spec fn with_block(calls: Seq<CallView>, inner: Seq<char>, syntax: Syntax) -> Seq<CallView> {
    match syntax {
        Syntax::Gemma => with_call(calls, gemma_call(inner)),
        Syntax::Json => with_json(calls, trim(inner)),
    }
}

/// The calls in the blocks between two tags taken out of a text, block by block; a
/// block without a call is cut out as well.
pub open spec fn call_blocks(start: Scan, open: Seq<char>, close: Seq<char>, syntax: Syntax) -> Scan
    decreases start.text.len(),
{
    match block(start.text, open, close) {
        Some((from, end, to)) if open.len() > 0 => {
            proof {
                lemma_block(start.text, open, close);
            }
            call_blocks(
                Scan {
                    text: cut(start.text, from, to),
                    calls: with_block(start.calls, block_inner(start.text, open, close), syntax),
                },
                open,
                close,
                syntax,
            )
        },
        _ => start,
    }
}

/// The calls between each pair of tags taken out of a text, pair by pair.
pub open spec fn tagged(start: Scan, tags: Seq<(Seq<char>, Seq<char>)>, syntax: Syntax) -> Scan
    decreases tags.len(),
{
    if tags.len() == 0 {
        start
    } else {
        tagged(call_blocks(start, tags[0].0, tags[0].1, syntax), tags.skip(1), syntax)
    }
}

/// Where the first block between two tags is a call as JSON, the call is read from
/// it.
pub open spec fn reads_first(s: Seq<char>, open: Seq<char>, close: Seq<char>) -> bool {
    block(s, open, close) is Some ==> reads_back(trim(block_inner(s, open, close)))
}

/// Where the blocks between two tags are calls as JSON, the calls are read from them.
pub open spec fn reads_blocks(s: Seq<char>, open: Seq<char>, close: Seq<char>) -> bool
    decreases s.len(),
{
    match block(s, open, close) {
        Some((from, _, to)) if open.len() > 0 => {
            proof {
                lemma_block(s, open, close);
            }
            reads_back(trim(block_inner(s, open, close))) && reads_blocks(
                cut(s, from, to),
                open,
                close,
            )
        },
        _ => true,
    }
}

/// Adds the calls in the contents of a block.
fn push_block(calls: &mut Vec<FunctionCall>, inner: &[char], syntax: Syntax)
    ensures
        calls_view(final(calls)@) == with_block(calls_view(old(calls)@), inner@, syntax),
        syntax is Json ==> reads_back(trim(inner@)),
{
    match syntax {
        Syntax::Gemma => {
            push_call(calls, parse_gemma_call(inner));
        },
        Syntax::Json => {
            push_json(calls, trimmed(inner));
        },
    }
}

/// Takes the calls in the blocks between two tags out of a text.
fn take_blocks(start: Found, open: &str, close: &str, syntax: Syntax) -> (r: Found)
    ensures
        r@ == call_blocks(start@, open@, close@, syntax),
        syntax is Json && open@.len() > 0 ==> reads_first(start@.text, open@, close@),
        syntax is Json ==> reads_blocks(start@.text, open@, close@),
{
    let head = chars_of(open);
    let mut state = start;
    if head.len() == 0 {
        return state;
    }
    loop
        invariant
            open@.len() > 0,
            call_blocks(start@, open@, close@, syntax) == call_blocks(
                state@,
                open@,
                close@,
                syntax,
            ),
            syntax is Json ==> state@.text == start@.text || reads_first(
                start@.text,
                open@,
                close@,
            ),
            syntax is Json && reads_blocks(state@.text, open@, close@) ==> reads_blocks(
                start@.text,
                open@,
                close@,
            ),
        decreases state.text@.len(),
    {
        match find_block(state.text.as_slice(), open, close) {
            Some((from, inner, end, to)) => {
                let text = cut_out(state.text.as_slice(), from, to);
                let mut calls = state.calls;
                push_block(&mut calls, slice_subrange(state.text.as_slice(), inner, end), syntax);
                state = Found { text, calls };
            },
            None => {
                return state;
            },
        }
    }
}

/// Takes the calls between each pair of tags out of a text.
fn take_tagged(start: Found, pairs: &Vec<(&str, &str)>, syntax: Syntax) -> (r: Found)
    ensures
        r@ == tagged(start@, pairs_view(pairs@), syntax),
        syntax is Json && pairs@.len() > 0 && pairs@[0].0@.len() > 0 ==> reads_first(
            start@.text,
            pairs@[0].0@,
            pairs@[0].1@,
        ),
        syntax is Json && pairs@.len() > 0 ==> reads_blocks(
            start@.text,
            pairs@[0].0@,
            pairs@[0].1@,
        ),
{
    let ghost tags = pairs_view(pairs@);
    let ghost first = start@;
    let mut state = start;
    let mut i: usize = 0;
    proof {
        assert(tags.skip(0) =~= tags);
    }
    while i < pairs.len()
        invariant
            pairs_view(pairs@) == tags,
            i <= pairs@.len(),
            tagged(first, tags, syntax) == tagged(state@, tags.skip(i as int), syntax),
            i == 0 ==> state@ == first,
            i > 0 && syntax is Json && tags[0].0.len() > 0 ==> reads_first(
                first.text,
                tags[0].0,
                tags[0].1,
            ),
            i > 0 && syntax is Json ==> reads_blocks(first.text, tags[0].0, tags[0].1),
        decreases pairs@.len() - i,
    {
        let (open, close) = pairs[i];
        proof {
            assert(tags[i as int] == (open@, close@));
            assert(tags.skip(i as int)[0] == tags[i as int]);
            assert(tags.skip(i as int).skip(1) =~= tags.skip(i + 1));
        }
        state = take_blocks(state, open, close, syntax);
        i = i + 1;
    }
    state
}

// ---------------------------------------------------------------------------
// All of it

/// What is left of a model's output and the calls in it: each syntax is read from
/// what the one before has left, and the rest is cleaned and trimmed. None where
/// the output ends inside a call in the XML syntax, or where a cut after a
/// Harmony call falls inside a character.
pub open spec fn extraction(raw: Seq<char>) -> Option<Scan> {
    match harmony(raw, Seq::empty()) {
        None => None,
        Some(a) => {
            let b = tagged(a, gemma_tags(), Syntax::Gemma);
            let c = gemma_bare(b.text, b.calls);
            match xml_calls(c.text, c.calls) {
                None => None,
                Some(d) => {
                    let e = json_untagged(tagged(d, json_tags(), Syntax::Json));
                    Some(Scan { text: trim(visible(e.text)), calls: e.calls })
                },
            }
        },
    }
}

/// The text begins no call in a syntax other than JSON, and ends no block.
pub open spec fn is_unmarked(s: Seq<char>) -> bool {
    &&& !mentions(s, "to=functions."@)
    &&& !mentions(s, "call:"@)
    &&& !mentions(s, "<function="@)
    &&& !mentions(s, "</tool_call>"@)
}

/// A ChatML prompt shows the call so that it can be read back: its arguments are
/// read as they are written, and it holds no mark of another call.
pub open spec fn is_shown_clearly(call: CallView) -> bool {
    is_steady_call(call) && is_unmarked(call_object(call))
}

/// Where the output is a call as a ChatML prompt shows it, it gives that call and
/// no text.
pub open spec fn reads_shown_call(raw: Seq<char>) -> bool {
    forall|call: CallView|
        raw == chatml_calls(seq![call]) && #[trigger] is_shown_clearly(call) ==> extraction(raw)
            == Some(Scan { text: Seq::empty(), calls: seq![call] })
}

/// A ChatML prompt shows each of the calls so that it can be read back.
pub open spec fn are_shown_clearly(calls: Seq<CallView>) -> bool {
    forall|i: int| 0 <= i < calls.len() ==> is_shown_clearly(#[trigger] calls[i])
}

/// Where the output is a list of calls as a ChatML prompt shows them, it gives these
/// calls, in order, and no text.
pub open spec fn reads_shown_calls(raw: Seq<char>) -> bool {
    forall|calls: Seq<CallView>|
        raw == chatml_calls(calls) && #[trigger] are_shown_clearly(calls) ==> extraction(raw)
            == Some(Scan { text: Seq::empty(), calls })
}

/// Takes the calls out of a model's output and cleans the rest.
pub fn extract(raw: &str) -> (r: Option<Found>)
    ensures
        match r {
            Some(f) => extraction(raw@) == Some(f@),
            None => extraction(raw@) is None,
        },
        reads_shown_call(raw@),
        reads_shown_calls(raw@),
{
    let start = Found { text: chars_of(raw), calls: Vec::new() };
    proof {
        assert(calls_view(start.calls@) =~= Seq::<CallView>::empty());
        lemma_shown_reaches_json(raw@);
        lemma_list_reaches_json(raw@);
    }
    match take_harmony(start) {
        None => None,
        Some(a) => {
            let c = take_gemma(a);
            match take_xml(c) {
                None => None,
                Some(d) => {
                    let e = take_json(d);
                    proof {
                        lemma_shown_is_read(raw@);
                        lemma_list_is_read(raw@);
                    }
                    let clean = strip_channel_tags(e.text.as_slice());
                    Some(Found { text: copy_chars(trimmed(clean.as_slice())), calls: e.calls })
                },
            }
        },
    }
}

/// A tool call stands for `call`, is of the type `function`, and has an
/// identifier made from the clock.
pub open spec fn is_call(tool_call: ToolCall, call: CallView) -> bool {
    &&& tool_call.function@ == call
    &&& tool_call.call_type matches Some(t) && t@ == "function"@
    &&& tool_call.id matches Some(id) && exists|nanos: nat|
        id@ == "call_"@ + #[trigger] short_text(nanos)
}

/// Tool calls stand for `calls`, one for one; none where there is no call.
pub open spec fn are_calls(tool_calls: Option<Vec<ToolCall>>, calls: Seq<CallView>) -> bool {
    match tool_calls {
        Some(list) => calls.len() > 0 && list@.len() == calls.len() && forall|i: int|
            0 <= i < calls.len() ==> is_call(#[trigger] list@[i], calls[i]),
        None => calls.len() == 0,
    }
}

/// Gives the calls identifiers.
pub fn with_ids(calls: Vec<FunctionCall>) -> (r: Option<Vec<ToolCall>>)
    ensures
        are_calls(r, calls_view(calls@)),
{
    if calls.len() == 0 {
        return None;
    }
    let ghost all = calls@;
    let mut rest = calls;
    let mut out: Vec<ToolCall> = Vec::new();
    while rest.len() > 0
        invariant
            out@.len() + rest@.len() == all.len(),
            rest@ == all.skip(out@.len() as int),
            forall|i: int| 0 <= i < out@.len() ==> is_call(#[trigger] out@[i], all[i]@),
        decreases rest@.len(),
    {
        let ghost k = out@.len() as int;
        let function = rest.remove(0);
        proof {
            assert(function == all[k]);
            assert(rest@ =~= all.skip(k + 1));
        }
        let mut id = copy_str("call_");
        let stamp = uuid_short();
        id.append(stamp.as_str());
        out.push(ToolCall { id: Some(id), call_type: Some(copy_str("function")), function });
        proof {
            let nanos = choose|nanos: nat| stamp@ == #[trigger] short_text(nanos);
            assert(id@ == "call_"@ + short_text(nanos));
        }
    }
    Some(out)
}

/// Splits a model's output into the text for the user and the tool calls in it. A
/// call as a ChatML prompt shows it is given back, and no text beside it.
pub fn parse_tool_calls(raw_output: &str) -> (r: (String, Option<Vec<ToolCall>>))
    requires
        extraction(raw_output@) is Some,
    ensures
        r.0@ == extraction(raw_output@)->0.text,
        are_calls(r.1, extraction(raw_output@)->0.calls),
        forall|call: CallView|
            raw_output@ == chatml_calls(seq![call]) && #[trigger] is_shown_clearly(call)
                ==> r.0@.len() == 0 && are_calls(r.1, seq![call]),
        forall|calls: Seq<CallView>|
            raw_output@ == chatml_calls(calls) && #[trigger] are_shown_clearly(calls)
                ==> r.0@.len() == 0 && are_calls(r.1, calls),
{
    match extract(raw_output) {
        Some(f) => (string_of(f.text.as_slice()), with_ids(f.calls)),
        None => vstd::pervasive::unreached(),
    }
}

/// Splits a model's output into the text for the user and the tool calls in it;
/// none where the output ends inside a call in the XML syntax, or where a cut
/// after a Harmony call falls inside a character. A call as a ChatML prompt shows it
/// is given back, and no text beside it.
pub fn try_parse_tool_calls(raw_output: &str) -> (r: Option<(String, Option<Vec<ToolCall>>)>)
    ensures
        match extraction(raw_output@) {
            Some(scan) => r matches Some((text, tool_calls)) && text@ == scan.text && are_calls(
                tool_calls,
                scan.calls,
            ),
            None => r is None,
        },
        forall|call: CallView|
            raw_output@ == chatml_calls(seq![call]) && #[trigger] is_shown_clearly(call) ==> (
            r matches Some((text, tool_calls)) && text@.len() == 0 && are_calls(
                tool_calls,
                seq![call],
            )),
        forall|calls: Seq<CallView>|
            raw_output@ == chatml_calls(calls) && #[trigger] are_shown_clearly(calls) ==> (
            r matches Some((text, tool_calls)) && text@.len() == 0 && are_calls(tool_calls, calls)),
{
    match extract(raw_output) {
        Some(_) => Some(parse_tool_calls(raw_output)),
        None => None,
    }
}

} // verus!
