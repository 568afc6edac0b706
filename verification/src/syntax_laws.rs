//! Laws of the syntaxes of tool calls other than JSON between tags: how calls are
//! told from the text around them, and what is read of them.

use vstd::prelude::*;

use crate::blocks::block;
use crate::call_laws::lacks_json_marks;
use crate::call_laws::lacks_other_marks;
use crate::call_laws::laid_out;
use crate::call_laws::lemma_both_lack;
use crate::call_laws::lemma_first_there;
use crate::call_laws::lemma_front_of_joined;
use crate::call_laws::lemma_joined_front;
use crate::call_laws::lemma_lacks_longer;
use crate::call_laws::lemma_merged;
use crate::call_laws::lemma_no_blocks;
use crate::call_laws::lemma_one_pair;
use crate::call_laws::lemma_reaches_json;
use crate::call_laws::merged;
use crate::call_laws::stands_clear;
use crate::call_laws::states_call;
use crate::call_laws::tagged_blocks;
use crate::call_syntax::brace_end;
use crate::call_syntax::close_from;
use crate::call_syntax::gemma_call;
use crate::call_syntax::json_call;
use crate::call_syntax::loose_arguments;
use crate::call_syntax::object_in;
use crate::call_syntax::quote_keys;
use crate::call_syntax::simple_members;
use crate::cleaning::visible;
use crate::json::json_node;
use crate::json::members_text;
use crate::json::no_members;
use crate::json::quoted;
use crate::json::NodeView;
use crate::json::Shape;
use crate::number::decimal;
use crate::ollama_types::CallView;
use crate::registry_laws::lemma_find_after;
use crate::streaming::joined;
use crate::text::cut;
use crate::text::find;
use crate::text::find_from;
use crate::text::is_white;
use crate::text::lemma_find_from;
use crate::text::lemma_find_skip;
use crate::text::lemma_rfind_to;
use crate::text::mentions;
use crate::text::occurs_at;
use crate::text::replace_all;
use crate::text::rfind_to;
use crate::text::skip_bytes;
use crate::text::trim;
use crate::text::trim_start;
use crate::tool_calls::extraction;
use crate::tool_calls::gemma_bare;
use crate::tool_calls::gemma_tags;
use crate::tool_calls::harmony;
use crate::tool_calls::harmony_site;
use crate::tool_calls::item_call;
use crate::tool_calls::item_calls;
use crate::tool_calls::json_tags;
use crate::tool_calls::json_untagged;
use crate::tool_calls::name_end;
use crate::tool_calls::outer_end;
use crate::tool_calls::outer_start;
use crate::tool_calls::parameters;
use crate::tool_calls::tagged;
use crate::tool_calls::with_block;
use crate::tool_calls::with_items;
use crate::tool_calls::with_json;
use crate::tool_calls::xml_calls;
use crate::tool_calls::xml_site;
use crate::tool_calls::Scan;
use crate::tool_calls::SiteView;
use crate::tool_calls::Syntax;

verus! {

// ---------------------------------------------------------------------------
// What is left once the calls are out

/// The text holds no mark of a call in the syntaxes that are read after Harmony.
pub open spec fn lacks_later_marks(s: Seq<char>) -> bool {
    !mentions(s, "call:"@) && !mentions(s, "<function="@) && lacks_json_marks(s)
}

/// A text without marks of calls is left as it is by every syntax.
pub(crate) proof fn lemma_left_alone(s: Seq<char>, calls: Seq<CallView>)
    requires
        lacks_later_marks(s),
    ensures
        ({
            let start = Scan { text: s, calls };
            &&& tagged(start, gemma_tags(), Syntax::Gemma) == start
            &&& gemma_bare(s, calls) == start
            &&& xml_calls(s, calls) == Some(start)
            &&& tagged(start, json_tags(), Syntax::Json) == start
            &&& json_untagged(start) == start
        }),
{
    let start = Scan { text: s, calls };
    let mark = "call:"@;
    reveal_strlit("call:");
    reveal_strlit("<|tool_call>call:");
    reveal_strlit("<tool_call>call:");
    assert("<|tool_call>call:"@.subrange(12, 17) =~= mark);
    assert("<tool_call>call:"@.subrange(11, 16) =~= mark);
    lemma_lacks_longer(s, "<|tool_call>call:"@, mark, 12);
    lemma_lacks_longer(s, "<tool_call>call:"@, mark, 11);
    let tags = gemma_tags();
    assert forall|k: int| 0 <= k < tags.len() implies !mentions(s, (#[trigger] tags[k]).0) by {}
    lemma_no_blocks(start, tags, Syntax::Gemma);
    let more = json_tags();
    assert forall|k: int| 0 <= k < more.len() implies !mentions(s, (#[trigger] more[k]).0) by {}
    lemma_no_blocks(start, more, Syntax::Json);
}

/// Searching `p` from index `k` on, where the text goes on with `a`, `p` and more.
pub(crate) proof fn lemma_next_there(s: Seq<char>, k: int, a: Seq<char>, p: Seq<char>, b: Seq<char>)
    requires
        0 <= k <= s.len(),
        s.skip(k) == a + p + b,
        p.len() > 0,
        stands_clear(a, p),
    ensures
        find_from(s, p, k) == Some(k + a.len()),
{
    lemma_first_there(a, p, b);
    lemma_find_skip(s, p, k, 0);
}

// ---------------------------------------------------------------------------
// Harmony

/// A call in the Harmony syntax: a name, what may stand between the name and the
/// message, and the arguments.
pub struct HarmonyPiece {
    pub name: Seq<char>,
    pub between: Seq<char>,
    pub arguments: Seq<char>,
}

/// A call in the Harmony syntax as it is written.
pub open spec fn harmony_text(p: HarmonyPiece) -> Seq<char> {
    "to=functions."@ + p.name + p.between + "<|message|>"@ + p.arguments + "<|call|>"@
}

/// A character that ends a name.
pub open spec fn ends_a_name(c: char) -> bool {
    c == '<' || c == ' ' || c == '\n' || c == '{'
}

/// A call in the Harmony syntax that can be read: the name holds no character that
/// ends it, what follows it does not hold the mark of the message, and the arguments
/// are a JSON object that does not hold the mark of the end.
pub open spec fn is_harmony(p: HarmonyPiece, call: CallView) -> bool {
    &&& p.name.len() > 0
    &&& trim(p.name) == p.name
    &&& forall|i: int| 0 <= i < p.name.len() ==> !ends_a_name(#[trigger] p.name[i])
    &&& p.between.len() > 0 ==> ends_a_name(p.between[0])
    &&& !mentions(p.between, "<|message|>"@)
    &&& !mentions(p.arguments, "<|call|>"@)
    &&& call.name == p.name
    &&& json_node(trim(p.arguments), Seq::empty()) == Some(
        NodeView { text: call.arguments, shape: Shape::Object },
    )
}

pub(crate) proof fn lemma_name_stops(s: Seq<char>, i: int, n: int)
    requires
        0 <= i <= n < s.len(),
        forall|j: int| i <= j < n ==> !ends_a_name(#[trigger] s[j]),
        ends_a_name(s[n]),
    ensures
        name_end(s, i) == n,
    decreases n - i,
{
    if i < n {
        assert(!ends_a_name(s[i]));
        lemma_name_stops(s, i + 1, n);
    }
}

pub(crate) proof fn lemma_skip_eight(s: Seq<char>, i: int)
    requires
        0 <= i,
        i + 8 <= s.len(),
        forall|j: int| i <= j < i + 8 ==> ((#[trigger] s[j]) as int) < 0x80,
    ensures
        skip_bytes(s, i, 8) == Some(i + 8),
{
    reveal_with_fuel(skip_bytes, 9);
    assert((s[i] as int) < 0x80 && (s[i + 1] as int) < 0x80 && (s[i + 2] as int) < 0x80 && (s[i
        + 3] as int) < 0x80 && (s[i + 4] as int) < 0x80 && (s[i + 5] as int) < 0x80 && (s[i
        + 6] as int) < 0x80 && (s[i + 7] as int) < 0x80);
}

#[verifier::rlimit(40)]
pub(crate) proof fn lemma_harmony_step(
    lead: Seq<char>,
    p: HarmonyPiece,
    call: CallView,
    rest: Seq<char>,
    calls: Seq<CallView>,
)
    requires
        !mentions(lead, "to=functions."@),
        is_harmony(p, call),
    ensures
        harmony(lead + harmony_text(p) + rest, calls) == harmony(lead + rest, calls.push(call)),
{
    reveal_strlit("to=functions.");
    reveal_strlit("<|message|>");
    reveal_strlit("<|call|>");
    let m1 = "to=functions."@;
    let m2 = "<|message|>"@;
    let m3 = "<|call|>"@;
    let s = lead + harmony_text(p) + rest;
    let from = lead.len() as int;
    let after1 = p.name + p.between + m2 + p.arguments + m3 + rest;
    assert(s =~= lead + m1 + after1);
    lemma_first_there(lead, m1, after1);
    let name_from = from + 13;
    let name_to = name_from + p.name.len();
    assert(s.subrange(name_from, name_to) =~= p.name);
    assert forall|j: int| name_from <= j < name_to implies !ends_a_name(#[trigger] s[j]) by {
        assert(s[j] == p.name[j - name_from]);
    }
    assert(s[name_to] == (p.between + m2)[0]);
    lemma_name_stops(s, name_from, name_to);
    let after2 = p.arguments + m3 + rest;
    assert(s.skip(name_to) =~= p.between + m2 + after2);
    lemma_next_there(s, name_to, p.between, m2, after2);
    let a = name_to + p.between.len() + 11;
    assert(s.skip(a) =~= p.arguments + m3 + rest);
    lemma_next_there(s, a, p.arguments, m3, rest);
    let e = a + p.arguments.len();
    assert forall|j: int| e <= j < e + 8 implies ((#[trigger] s[j]) as int) < 0x80 by {
        assert(s[j] == m3[j - e]);
    }
    lemma_skip_eight(s, e);
    assert(s.subrange(a, e) =~= p.arguments);
    assert(cut(s, from, e + 8) =~= lead + rest);
    let site = harmony_site(s)->0;
    assert(site.from == from && site.to == Some(e + 8) && site.name == p.name && site.raw == trim(
        p.arguments,
    ));
    assert(object_in(site.raw) == Some(call.arguments));
    assert(call == (CallView { name: site.name, arguments: call.arguments }));
}

proof fn lemma_all_harmony(
    texts: Seq<Seq<char>>,
    pieces: Seq<HarmonyPiece>,
    before: Seq<CallView>,
    calls: Seq<CallView>,
)
    requires
        texts.len() == pieces.len() + 1,
        calls.len() == pieces.len(),
        !mentions(joined(texts), "to=functions."@),
        forall|i: int| 0 <= i < pieces.len() ==> is_harmony(#[trigger] pieces[i], calls[i]),
    ensures
        harmony(laid_out(texts, Seq::new(pieces.len(), |i: int| harmony_text(pieces[i]))), before)
            == Some(Scan { text: joined(texts), calls: before + calls }),
    decreases pieces.len(),
{
    let chunks = Seq::new(pieces.len(), |i: int| harmony_text(pieces[i]));
    reveal_strlit("to=functions.");
    if pieces.len() == 0 {
        lemma_joined_front(texts);
        assert(texts.skip(1) =~= Seq::<Seq<char>>::empty());
        assert(joined(texts) =~= texts[0]);
        assert(before + calls =~= before);
    } else {
        let more = pieces.skip(1);
        let chunks2 = Seq::new(more.len(), |i: int| harmony_text(more[i]));
        assert(chunks.skip(1) =~= chunks2);
        lemma_front_of_joined(texts, "to=functions."@);
        lemma_merged(texts, chunks);
        assert forall|i: int| 0 <= i < more.len() implies is_harmony(
            #[trigger] more[i],
            calls.skip(1)[i],
        ) by {
            assert(more[i] == pieces[i + 1]);
        }
        assert(is_harmony(pieces[0], calls[0]));
        lemma_harmony_step(
            texts[0],
            pieces[0],
            calls[0],
            laid_out(texts.skip(1), chunks.skip(1)),
            before,
        );
        lemma_all_harmony(merged(texts), more, before.push(calls[0]), calls.skip(1));
        assert(before.push(calls[0]) + calls.skip(1) =~= before + calls);
    }
}

/// All calls in the Harmony syntax in an output are given, in order, and what is left
/// is the text around them.
pub proof fn law_all_harmony_calls_are_read(
    texts: Seq<Seq<char>>,
    pieces: Seq<HarmonyPiece>,
    calls: Seq<CallView>,
)
    requires
        texts.len() == pieces.len() + 1,
        calls.len() == pieces.len(),
        forall|i: int| 0 <= i < pieces.len() ==> is_harmony(#[trigger] pieces[i], calls[i]),
        !mentions(joined(texts), "to=functions."@),
        lacks_later_marks(joined(texts)),
    ensures
        extraction(laid_out(texts, Seq::new(pieces.len(), |i: int| harmony_text(pieces[i]))))
            == Some(Scan { text: trim(visible(joined(texts))), calls }),
{
    let none = Seq::<CallView>::empty();
    lemma_all_harmony(texts, pieces, none, calls);
    assert(none + calls =~= calls);
    lemma_left_alone(joined(texts), calls);
}

// ---------------------------------------------------------------------------
// Gemma

/// The pairs of tags around calls in the Gemma syntax.
pub open spec fn is_gemma_pair(k: int, open: Seq<char>, close: Seq<char>) -> bool {
    ||| k == 0 && open == "<|tool_call>call:"@ && close == "<tool_call|>"@
    ||| k == 1 && open == "<tool_call>call:"@ && close == "</tool_call>"@
}

/// A call `name{...}`, with arguments in JSON.
pub open spec fn is_gemma(name: Seq<char>, arguments: Seq<char>, call: CallView) -> bool {
    &&& trim(name).len() > 0
    &&& !name.contains('{')
    &&& arguments.len() > 0
    &&& arguments[0] == '{'
    &&& !mentions(trim(arguments), "<|\"|>"@)
    &&& call.name == trim(name)
    &&& json_node(trim(arguments), Seq::empty()) == Some(
        NodeView { text: call.arguments, shape: Shape::Object },
    )
}

#[verifier::rlimit(40)]
pub(crate) proof fn lemma_gemma_call(name: Seq<char>, arguments: Seq<char>)
    requires
        trim(name).len() > 0,
        !name.contains('{'),
        arguments.len() > 0,
        arguments[0] == '{',
    ensures
        gemma_call(name + arguments) == Some(
            CallView { name: trim(name), arguments: loose_arguments(trim(arguments)) },
        ),
{
    let s = name + arguments;
    let n = name.len() as int;
    lemma_find_after(name, '{', arguments.skip(1));
    assert(s =~= name + seq!['{'] + arguments.skip(1));
    assert(s.subrange(0, n) =~= name);
    assert(s.subrange(n, s.len() as int) =~= arguments);
}

/// The arguments of a call `name{...}` are read as JSON, once quotation marks that are
/// written as `<|"|>` are put right; or else as JSON with keys that have no quotation
/// marks; or else as bare pairs.
pub proof fn law_gemma_arguments(name: Seq<char>, arguments: Seq<char>)
    requires
        trim(name).len() > 0,
        !name.contains('{'),
        arguments.len() > 0,
        arguments[0] == '{',
    ensures
        ({
            let plain = replace_all(trim(arguments), "<|\"|>"@, seq!['"']);
            let marked = quote_keys(plain, 0, false, false);
            let read = match json_node(plain, Seq::empty()) {
                Some(NodeView { text, shape: Shape::Object }) => text,
                _ => match json_node(marked, Seq::empty()) {
                    Some(NodeView { text, shape: Shape::Object }) => text,
                    _ => members_text(simple_members(plain)),
                },
            };
            gemma_call(name + arguments) == Some(CallView { name: trim(name), arguments: read })
        }),
{
    lemma_gemma_call(name, arguments);
}

pub(crate) proof fn lemma_gemma_plain(name: Seq<char>, arguments: Seq<char>, call: CallView)
    requires
        is_gemma(name, arguments, call),
    ensures
        gemma_call(name + arguments) == Some(call),
{
    lemma_gemma_call(name, arguments);
    assert(replace_all(trim(arguments), "<|\"|>"@, seq!['"']) == trim(arguments));
}

/// All calls in the Gemma syntax between tags of one kind are given, in order, and
/// what is left is the text around them.
pub proof fn law_all_gemma_calls_are_read(
    texts: Seq<Seq<char>>,
    names: Seq<Seq<char>>,
    arguments: Seq<Seq<char>>,
    k: int,
    open: Seq<char>,
    close: Seq<char>,
    calls: Seq<CallView>,
)
    requires
        is_gemma_pair(k, open, close),
        names.len() == arguments.len(),
        texts.len() == names.len() + 1,
        calls.len() == names.len(),
        forall|i: int|
            0 <= i < names.len() ==> is_gemma(#[trigger] names[i], arguments[i], calls[i])
                && !mentions(names[i] + arguments[i], close),
        ({
            let inners = Seq::new(names.len(), |i: int| names[i] + arguments[i]);
            let raw = laid_out(texts, tagged_blocks(inners, open, close));
            !mentions(raw, "to=functions."@) && (k > 0 ==> !mentions(raw, "<|tool_call>call:"@))
        }),
        lacks_later_marks(joined(texts)),
    ensures
        ({
            let inners = Seq::new(names.len(), |i: int| names[i] + arguments[i]);
            extraction(laid_out(texts, tagged_blocks(inners, open, close))) == Some(
                Scan { text: trim(visible(joined(texts))), calls },
            )
        }),
{
    let inners = Seq::new(names.len(), |i: int| names[i] + arguments[i]);
    let raw = laid_out(texts, tagged_blocks(inners, open, close));
    let none = Seq::<CallView>::empty();
    let tags = gemma_tags();
    let rest = joined(texts);
    reveal_strlit("<|tool_call>call:");
    reveal_strlit("<tool_call>call:");
    reveal_strlit("<tool_call|>");
    reveal_strlit("</tool_call>");
    reveal_strlit("call:");
    assert("<|tool_call>call:"@.subrange(12, 17) =~= "call:"@);
    assert("<tool_call>call:"@.subrange(11, 16) =~= "call:"@);
    lemma_lacks_longer(rest, "<|tool_call>call:"@, "call:"@, 12);
    lemma_lacks_longer(rest, "<tool_call>call:"@, "call:"@, 11);
    assert(harmony(raw, none) == Some(Scan { text: raw, calls: none }));
    assert forall|i: int| 0 <= i < inners.len() implies stands_clear(#[trigger] inners[i], close) by {
        assert(is_gemma(names[i], arguments[i], calls[i]));
    }
    assert forall|i: int, some: Seq<CallView>|
        #![trigger with_block(some, inners[i], Syntax::Gemma)]
        0 <= i < inners.len() implies with_block(some, inners[i], Syntax::Gemma) == some.push(
        calls[i],
    ) by {
        assert(is_gemma(names[i], arguments[i], calls[i]));
        lemma_gemma_plain(names[i], arguments[i], calls[i]);
    }
    assert(tags[k] == (open, close));
    assert forall|j: int| 0 <= j < k implies !mentions(raw, (#[trigger] tags[j]).0) by {}
    assert forall|j: int| k < j < tags.len() implies !mentions(rest, (#[trigger] tags[j]).0) by {}
    lemma_one_pair(texts, inners, tags, k, Syntax::Gemma, none, calls);
    assert(none + calls =~= calls);
    lemma_left_alone(rest, calls);
}

// ---------------------------------------------------------------------------
// Bare calls

pub(crate) proof fn lemma_close_within(
    pre: Seq<char>,
    s: Seq<char>,
    post: Seq<char>,
    i: int,
    depth: int,
    in_string: bool,
    escape: bool,
)
    requires
        0 <= i <= s.len(),
        close_from(s, i, depth, in_string, escape) is Some,
    ensures
        close_from(pre + s + post, pre.len() + i, depth, in_string, escape) == Some(
            pre.len() + close_from(s, i, depth, in_string, escape)->0,
        ),
    decreases s.len() - i,
{
    let t = pre + s + post;
    if i < s.len() {
        assert(t[pre.len() + i] == s[i]);
        if escape {
            lemma_close_within(pre, s, post, i + 1, depth, in_string, false);
        } else if s[i] == '\\' {
            lemma_close_within(pre, s, post, i + 1, depth, in_string, true);
        } else if s[i] == '"' {
            lemma_close_within(pre, s, post, i + 1, depth, !in_string, false);
        } else if in_string {
            lemma_close_within(pre, s, post, i + 1, depth, in_string, false);
        } else if s[i] == '{' {
            lemma_close_within(pre, s, post, i + 1, depth + 1, in_string, false);
        } else if s[i] == '}' && depth == 1 {
        } else if s[i] == '}' {
            lemma_close_within(pre, s, post, i + 1, depth - 1, in_string, false);
        } else {
            lemma_close_within(pre, s, post, i + 1, depth, in_string, false);
        }
    }
}

/// An object whose first brace is closed by its last character.
pub open spec fn is_braced(s: Seq<char>) -> bool {
    s.len() > 0 && s[0] == '{' && close_from(s, 0, 0, false, false) == Some(s.len() as int)
}

/// A character that opens or closes nothing.
pub open spec fn is_inert(c: char) -> bool {
    c != '{' && c != '}' && c != '"' && c != '\\'
}

proof fn lemma_close_inert(s: Seq<char>, i: int, n: int, depth: int)
    requires
        0 <= i <= n <= s.len(),
        forall|j: int| i <= j < n ==> is_inert(#[trigger] s[j]),
    ensures
        close_from(s, i, depth, false, false) == close_from(s, n, depth, false, false),
    decreases n - i,
{
    if i < n {
        assert(is_inert(s[i]));
        lemma_close_inert(s, i + 1, n, depth);
    }
}

proof fn lemma_close_string(s: Seq<char>, i: int, n: int, depth: int)
    requires
        0 <= i <= n <= s.len(),
        forall|j: int| i <= j < n ==> (#[trigger] s[j]) != '"' && s[j] != '\\',
    ensures
        close_from(s, i, depth, true, false) == close_from(s, n, depth, true, false),
    decreases n - i,
{
    if i < n {
        assert(s[i] != '"' && s[i] != '\\');
        lemma_close_string(s, i + 1, n, depth);
    }
}

/// An object closes with the brace that matches its first one: one without braces
/// inside at the next brace, one with an object inside after that one, and braces in a
/// string do not count.
pub proof fn law_matching_brace(a: Seq<char>, b: Seq<char>, c: Seq<char>)
    requires
        forall|i: int| 0 <= i < a.len() ==> is_inert(#[trigger] a[i]),
        forall|i: int| 0 <= i < c.len() ==> is_inert(#[trigger] c[i]),
    ensures
        is_braced(seq!['{'] + a + seq!['}']),
        (forall|i: int| 0 <= i < b.len() ==> is_inert(#[trigger] b[i])) ==> is_braced(
            seq!['{'] + a + (seq!['{'] + b + seq!['}']) + c + seq!['}'],
        ),
        (forall|i: int| 0 <= i < b.len() ==> (#[trigger] b[i]) != '"' && b[i] != '\\') ==> is_braced(
            seq!['{'] + a + (seq!['"'] + b + seq!['"']) + c + seq!['}'],
        ),
{
    let l = seq!['{'];
    let r = seq!['}'];
    let q = seq!['"'];
    let na = a.len() as int;
    let nb = b.len() as int;
    let nc = c.len() as int;
    let s = l + a + r;
    assert forall|j: int| 1 <= j < 1 + na implies is_inert(#[trigger] s[j]) by {
        assert(s[j] == a[j - 1]);
    }
    lemma_close_inert(s, 1, 1 + na, 1);
    assert(close_from(s, 0, 0, false, false) == close_from(s, 1, 1, false, false));
    assert(s[1 + na] == '}');
    if forall|i: int| 0 <= i < b.len() ==> is_inert(#[trigger] b[i]) {
        let t = l + a + (l + b + r) + c + r;
        assert forall|j: int| 1 <= j < 1 + na implies is_inert(#[trigger] t[j]) by {
            assert(t[j] == a[j - 1]);
        }
        lemma_close_inert(t, 1, 1 + na, 1);
        assert(close_from(t, 0, 0, false, false) == close_from(t, 1, 1, false, false));
        assert(t[1 + na] == '{');
        assert forall|j: int| 2 + na <= j < 2 + na + nb implies is_inert(#[trigger] t[j]) by {
            assert(t[j] == b[j - 2 - na]);
        }
        lemma_close_inert(t, 2 + na, 2 + na + nb, 2);
        assert(t[2 + na + nb] == '}');
        assert forall|j: int| 3 + na + nb <= j < 3 + na + nb + nc implies is_inert(
            #[trigger] t[j],
        ) by {
            assert(t[j] == c[j - 3 - na - nb]);
        }
        lemma_close_inert(t, 3 + na + nb, 3 + na + nb + nc, 1);
        assert(t[3 + na + nb + nc] == '}');
    }
    if forall|i: int| 0 <= i < b.len() ==> (#[trigger] b[i]) != '"' && b[i] != '\\' {
        let t = l + a + (q + b + q) + c + r;
        assert forall|j: int| 1 <= j < 1 + na implies is_inert(#[trigger] t[j]) by {
            assert(t[j] == a[j - 1]);
        }
        lemma_close_inert(t, 1, 1 + na, 1);
        assert(close_from(t, 0, 0, false, false) == close_from(t, 1, 1, false, false));
        assert(t[1 + na] == '"');
        assert forall|j: int| 2 + na <= j < 2 + na + nb implies (#[trigger] t[j]) != '"' && t[j]
            != '\\' by {
            assert(t[j] == b[j - 2 - na]);
        }
        lemma_close_string(t, 2 + na, 2 + na + nb, 1);
        assert(t[2 + na + nb] == '"');
        assert forall|j: int| 3 + na + nb <= j < 3 + na + nb + nc implies is_inert(
            #[trigger] t[j],
        ) by {
            assert(t[j] == c[j - 3 - na - nb]);
        }
        lemma_close_inert(t, 3 + na + nb, 3 + na + nb + nc, 1);
        assert(t[3 + na + nb + nc] == '}');
    }
}

/// A call without tags as it is written.
pub open spec fn bare_text(name: Seq<char>, arguments: Seq<char>) -> Seq<char> {
    "call:"@ + name + arguments
}

#[verifier::rlimit(40)]
pub(crate) proof fn lemma_bare_step(
    lead: Seq<char>,
    name: Seq<char>,
    arguments: Seq<char>,
    call: CallView,
    rest: Seq<char>,
    calls: Seq<CallView>,
)
    requires
        !mentions(lead, "call:"@),
        is_gemma(name, arguments, call),
        is_braced(arguments),
    ensures
        gemma_bare(lead + bare_text(name, arguments) + rest, calls) == gemma_bare(
            lead + rest,
            calls.push(call),
        ),
{
    reveal_strlit("call:");
    let m = "call:"@;
    let s = lead + bare_text(name, arguments) + rest;
    let from = lead.len() as int;
    assert(s =~= lead + m + (name + arguments + rest));
    lemma_first_there(lead, m, name + arguments + rest);
    let start = from + 5;
    let p = seq!['{'];
    let open = start + name.len();
    assert(s.skip(start) =~= name + p + (arguments.skip(1) + rest));
    lemma_lacks_char(name, '{');
    lemma_next_there(s, start, name, p, arguments.skip(1) + rest);
    let pre = lead + m + name;
    assert(s =~= pre + arguments + rest);
    lemma_close_within(pre, arguments, rest, 0, 0, false, false);
    let end = open + arguments.len();
    assert(brace_end(s, start) == Some(end));
    assert(s.subrange(start, end) =~= name + arguments);
    lemma_gemma_plain(name, arguments, call);
    assert(cut(s, from, end) =~= lead + rest);
}

pub(crate) proof fn lemma_lacks_char(s: Seq<char>, c: char)
    requires
        !s.contains(c),
    ensures
        !mentions(s, seq![c]),
        stands_clear(s, seq![c]),
{
    let p = seq![c];
    lemma_find_from(s, p, 0);
    if let Some(i) = find(s, p) {
        assert(s.subrange(i, i + 1)[0] == s[i]);
    }
}

proof fn lemma_all_bare(
    texts: Seq<Seq<char>>,
    names: Seq<Seq<char>>,
    arguments: Seq<Seq<char>>,
    before: Seq<CallView>,
    calls: Seq<CallView>,
)
    requires
        names.len() == arguments.len(),
        texts.len() == names.len() + 1,
        calls.len() == names.len(),
        !mentions(joined(texts), "call:"@),
        forall|i: int|
            0 <= i < names.len() ==> is_gemma(#[trigger] names[i], arguments[i], calls[i])
                && is_braced(arguments[i]),
    ensures
        gemma_bare(
            laid_out(texts, Seq::new(names.len(), |i: int| bare_text(names[i], arguments[i]))),
            before,
        ) == (Scan { text: joined(texts), calls: before + calls }),
    decreases names.len(),
{
    let chunks = Seq::new(names.len(), |i: int| bare_text(names[i], arguments[i]));
    reveal_strlit("call:");
    if names.len() == 0 {
        lemma_joined_front(texts);
        assert(texts.skip(1) =~= Seq::<Seq<char>>::empty());
        assert(joined(texts) =~= texts[0]);
        assert(before + calls =~= before);
    } else {
        let n2 = names.skip(1);
        let a2 = arguments.skip(1);
        let chunks2 = Seq::new(n2.len(), |i: int| bare_text(n2[i], a2[i]));
        assert(chunks.skip(1) =~= chunks2);
        lemma_front_of_joined(texts, "call:"@);
        lemma_merged(texts, chunks);
        assert forall|i: int| 0 <= i < n2.len() implies is_gemma(
            #[trigger] n2[i],
            a2[i],
            calls.skip(1)[i],
        ) && is_braced(a2[i]) by {
            assert(n2[i] == names[i + 1]);
        }
        assert(is_gemma(names[0], arguments[0], calls[0]));
        lemma_bare_step(
            texts[0],
            names[0],
            arguments[0],
            calls[0],
            laid_out(texts.skip(1), chunks.skip(1)),
            before,
        );
        lemma_all_bare(merged(texts), n2, a2, before.push(calls[0]), calls.skip(1));
        assert(before.push(calls[0]) + calls.skip(1) =~= before + calls);
    }
}

/// All calls `call:name{...}` without tags are given, in order, and what is left is
/// the text around them.
pub proof fn law_all_bare_calls_are_read(
    texts: Seq<Seq<char>>,
    names: Seq<Seq<char>>,
    arguments: Seq<Seq<char>>,
    calls: Seq<CallView>,
)
    requires
        names.len() == arguments.len(),
        texts.len() == names.len() + 1,
        calls.len() == names.len(),
        forall|i: int|
            0 <= i < names.len() ==> is_gemma(#[trigger] names[i], arguments[i], calls[i])
                && is_braced(arguments[i]),
        ({
            let raw = laid_out(
                texts,
                Seq::new(names.len(), |i: int| bare_text(names[i], arguments[i])),
            );
            !mentions(raw, "to=functions."@) && !mentions(raw, "<|tool_call>call:"@) && !mentions(
                raw,
                "<tool_call>call:"@,
            )
        }),
        lacks_later_marks(joined(texts)),
    ensures
        extraction(
            laid_out(texts, Seq::new(names.len(), |i: int| bare_text(names[i], arguments[i]))),
        ) == Some(Scan { text: trim(visible(joined(texts))), calls }),
{
    let raw = laid_out(texts, Seq::new(names.len(), |i: int| bare_text(names[i], arguments[i])));
    let none = Seq::<CallView>::empty();
    let start = Scan { text: raw, calls: none };
    assert(harmony(raw, none) == Some(start));
    let tags = gemma_tags();
    assert forall|k: int| 0 <= k < tags.len() implies !mentions(raw, (#[trigger] tags[k]).0) by {}
    lemma_no_blocks(start, tags, Syntax::Gemma);
    lemma_all_bare(texts, names, arguments, none, calls);
    assert(none + calls =~= calls);
    lemma_left_alone(joined(texts), calls);
}

// ---------------------------------------------------------------------------
// XML

/// A call in the XML syntax between tags: white space, the name, the body with the
/// parameters, and white space.
pub struct XmlPiece {
    pub gap: Seq<char>,
    pub name: Seq<char>,
    pub body: Seq<char>,
    pub tail: Seq<char>,
}

/// A call in the XML syntax as it is written.
pub open spec fn xml_text(p: XmlPiece) -> Seq<char> {
    "<tool_call>"@ + p.gap + "<function="@ + p.name + ">"@ + p.body + "</function>"@ + p.tail
        + "</tool_call>"@
}

/// White space and nothing else.
pub open spec fn is_blank(s: Seq<char>) -> bool {
    forall|i: int| 0 <= i < s.len() ==> is_white(#[trigger] s[i])
}

/// A call in the XML syntax that can be read.
pub open spec fn is_xml(p: XmlPiece, call: CallView) -> bool {
    &&& is_blank(p.gap)
    &&& is_blank(p.tail)
    &&& !p.name.contains('>')
    &&& !mentions(p.body, "</function>"@)
    &&& call.name == trim(p.name)
    &&& call.arguments == members_text(parameters(p.body, no_members()))
}

pub(crate) proof fn lemma_blank_trims(s: Seq<char>)
    requires
        is_blank(s),
    ensures
        trim(s).len() == 0,
        !s.contains('<'),
    decreases s.len(),
{
    if s.len() > 0 {
        let t = s.skip(1);
        assert(is_white(s[0]));
        assert forall|i: int| 0 <= i < t.len() implies is_white(#[trigger] t[i]) by {
            assert(t[i] == s[i + 1]);
        }
        lemma_blank_trims(t);
        assert(trim(s) == trim(t));
    }
    if s.contains('<') {
        let i = choose|i: int| 0 <= i < s.len() && s[i] == '<';
        assert(is_white(s[i]));
    }
}

pub(crate) proof fn lemma_lacks_tag(s: Seq<char>, p: Seq<char>)
    requires
        p.len() > 0,
        p[0] == '<',
        !s.contains('<'),
    ensures
        stands_clear(s, p),
{
    lemma_find_from(s, p, 0);
    if let Some(i) = find(s, p) {
        assert(s.subrange(i, i + p.len())[0] == s[i]);
        assert(s.contains(s[i]));
    }
}

/// Where a call in the XML syntax ends, after what stands before its name.
#[verifier::rlimit(40)]
proof fn lemma_xml_ends(s: Seq<char>, name_from: int, p: XmlPiece, rest: Seq<char>)
    requires
        0 <= name_from <= s.len(),
        s.skip(name_from) == p.name + seq!['>'] + p.body + "</function>"@ + p.tail + "</tool_call>"@
            + rest,
        is_blank(p.tail),
        !p.name.contains('>'),
        !mentions(p.body, "</function>"@),
    ensures
        ({
            let name_to = name_from + p.name.len();
            let body = name_to + 1;
            let end = body + p.body.len();
            let to = end + 11 + p.tail.len() + 12;
            &&& find_from(s, seq!['>'], name_from) == Some(name_to)
            &&& s.subrange(name_from, name_to) == p.name
            &&& find_from(s, "</function>"@, body) == Some(end)
            &&& s.subrange(body, end) == p.body
            &&& outer_end(s, end + 11) == to
            &&& s.skip(to) == rest
            &&& to <= s.len()
        }),
{
    reveal_strlit("</function>");
    reveal_strlit("</tool_call>");
    let m2 = seq!['>'];
    let m3 = "</function>"@;
    let m4 = "</tool_call>"@;
    let t = s.skip(name_from);
    lemma_blank_trims(p.tail);
    lemma_lacks_tag(p.tail, m4);
    lemma_lacks_char(p.name, '>');
    assert(t =~= p.name + m2 + (p.body + m3 + p.tail + m4 + rest));
    lemma_next_there(s, name_from, p.name, m2, p.body + m3 + p.tail + m4 + rest);
    let name_to = name_from + p.name.len();
    let body = name_to + 1;
    assert(s.subrange(name_from, name_to) =~= t.subrange(0, p.name.len() as int));
    assert(t.subrange(0, p.name.len() as int) =~= p.name);
    assert(s.skip(body) =~= t.skip(p.name.len() as int + 1));
    assert(t.skip(p.name.len() as int + 1) =~= p.body + m3 + (p.tail + m4 + rest));
    lemma_next_there(s, body, p.body, m3, p.tail + m4 + rest);
    let end = body + p.body.len();
    let u = s.skip(body);
    assert(s.subrange(body, end) =~= u.subrange(0, p.body.len() as int));
    assert(u.subrange(0, p.body.len() as int) =~= p.body);
    assert(s.skip(end + 11) =~= u.skip(p.body.len() as int + 11));
    assert(u.skip(p.body.len() as int + 11) =~= p.tail + m4 + rest);
    lemma_next_there(s, end + 11, p.tail, m4, rest);
    let v = s.skip(end + 11);
    assert(s.skip(end + 11 + p.tail.len() + 12) =~= v.skip(p.tail.len() as int + 12));
    assert(v.skip(p.tail.len() as int + 12) =~= rest);
}

#[verifier::rlimit(40)]
proof fn lemma_xml_begins(lead: Seq<char>, gap: Seq<char>, after: Seq<char>)
    requires
        !mentions(lead, "<function="@),
        is_blank(gap),
    ensures
        ({
            let s = lead + "<tool_call>"@ + gap + "<function="@ + after;
            let at = (lead.len() + 11 + gap.len()) as int;
            &&& find(s, "<function="@) == Some(at)
            &&& outer_start(s, at) == lead.len()
            &&& s.skip(at + 10) == after
            &&& s.subrange(0, lead.len() as int) == lead
        }),
{
    reveal_strlit("<tool_call>");
    reveal_strlit("<function=");
    let m0 = "<tool_call>"@;
    let m1 = "<function="@;
    let s = lead + m0 + gap + m1 + after;
    let front = lead + m0 + gap;
    lemma_blank_trims(gap);
    lemma_tag_before(m0, gap, m1);
    assert((m0 + gap)[0] == '<');
    lemma_both_lack(lead, m0 + gap, m1);
    assert(front =~= lead + (m0 + gap));
    lemma_first_there(front, m1, after);
    assert(s =~= front + m1 + after);
    lemma_outer_start(lead, gap, m1 + after);
    assert(s =~= lead + m0 + gap + (m1 + after));
    assert(s.skip(front.len() as int + 10) =~= after);
    assert(s.subrange(0, lead.len() as int) =~= lead);
}

#[verifier::rlimit(40)]
pub(crate) proof fn lemma_xml_step(
    lead: Seq<char>,
    p: XmlPiece,
    call: CallView,
    rest: Seq<char>,
    calls: Seq<CallView>,
)
    requires
        !mentions(lead, "<function="@),
        is_xml(p, call),
    ensures
        xml_calls(lead + xml_text(p) + rest, calls) == xml_calls(lead + rest, calls.push(call)),
{
    reveal_strlit(">");
    reveal_strlit("<function=");
    reveal_strlit("</function>");
    assert(">"@ =~= seq!['>']);
    let s = lead + xml_text(p) + rest;
    let after = p.name + seq!['>'] + p.body + "</function>"@ + p.tail + "</tool_call>"@ + rest;
    assert(s =~= lead + "<tool_call>"@ + p.gap + "<function="@ + after);
    lemma_xml_begins(lead, p.gap, after);
    let at = (lead.len() + 11 + p.gap.len()) as int;
    lemma_xml_ends(s, at + 10, p, rest);
    let to = at + 10 + p.name.len() + 1 + p.body.len() + 11 + p.tail.len() + 12;
    let site = SiteView { from: lead.len() as int, to: Some(to), name: trim(p.name), raw: p.body };
    assert(xml_site(s) == Some(site));
    assert(s.subrange(to, s.len() as int) =~= s.skip(to));
    assert(cut(s, lead.len() as int, to) == lead + rest);
}

/// The tag before white space does not hold the other tag.
#[verifier::rlimit(40)]
proof fn lemma_tag_before(m0: Seq<char>, gap: Seq<char>, m1: Seq<char>)
    requires
        m0 == "<tool_call>"@,
        m1 == "<function="@,
        !gap.contains('<'),
    ensures
        !mentions(m0 + gap, m1),
{
    reveal_strlit("<tool_call>");
    reveal_strlit("<function=");
    let s = m0 + gap;
    lemma_find_from(s, m1, 0);
    if let Some(i) = find(s, m1) {
        let own = s.subrange(i, i + 10);
        assert(own[0] == s[i] && own[1] == s[i + 1]);
        if i >= 11 {
            assert(s[i] == gap[i - 11]);
            assert(gap.contains(gap[i - 11]));
        } else {
            assert(s[i] == m0[i]);
            assert(i == 0);
            assert(s[1] == m0[1]);
        }
    }
}

#[verifier::rlimit(40)]
proof fn lemma_last_there(lead: Seq<char>, gap: Seq<char>)
    requires
        !gap.contains('<'),
    ensures
        rfind_to(
            lead + "<tool_call>"@ + gap,
            "<tool_call>"@,
            (lead.len() + gap.len()) as int,
        ) == Some(lead.len() as int),
{
    reveal_strlit("<tool_call>");
    let tag = "<tool_call>"@;
    let head = lead + tag + gap;
    let n = lead.len() as int;
    lemma_rfind_to(head, tag, n + gap.len());
    assert(head.subrange(n, n + 11) =~= tag);
    assert(occurs_at(head, tag, n));
    let t = rfind_to(head, tag, n + gap.len())->0;
    if t > n {
        assert(head.subrange(t, t + 11)[0] == head[t]);
        if t < n + 11 {
            assert(head[t] == tag[t - n]);
        } else {
            assert(head[t] == gap[t - n - 11]);
            assert(gap.contains(gap[t - n - 11]));
        }
    }
}

#[verifier::rlimit(40)]
proof fn lemma_outer_start(lead: Seq<char>, gap: Seq<char>, rest: Seq<char>)
    requires
        !gap.contains('<'),
        trim(gap).len() == 0,
    ensures
        ({
            let s = lead + "<tool_call>"@ + gap + rest;
            outer_start(s, (lead.len() + 11 + gap.len()) as int) == lead.len()
        }),
{
    reveal_strlit("<tool_call>");
    let tag = "<tool_call>"@;
    let s = lead + tag + gap + rest;
    let n = lead.len() as int;
    let at = n + 11 + gap.len();
    let head = s.take(at);
    assert(head =~= lead + tag + gap);
    lemma_last_there(lead, gap);
    assert(at - 11 == n + gap.len());
    assert(s.subrange(n + 11, at) =~= gap);
}

proof fn lemma_all_xml(
    texts: Seq<Seq<char>>,
    pieces: Seq<XmlPiece>,
    before: Seq<CallView>,
    calls: Seq<CallView>,
)
    requires
        texts.len() == pieces.len() + 1,
        calls.len() == pieces.len(),
        !mentions(joined(texts), "<function="@),
        forall|i: int| 0 <= i < pieces.len() ==> is_xml(#[trigger] pieces[i], calls[i]),
    ensures
        xml_calls(laid_out(texts, Seq::new(pieces.len(), |i: int| xml_text(pieces[i]))), before)
            == Some(Scan { text: joined(texts), calls: before + calls }),
    decreases pieces.len(),
{
    let chunks = Seq::new(pieces.len(), |i: int| xml_text(pieces[i]));
    reveal_strlit("<function=");
    if pieces.len() == 0 {
        lemma_joined_front(texts);
        assert(texts.skip(1) =~= Seq::<Seq<char>>::empty());
        assert(joined(texts) =~= texts[0]);
        assert(before + calls =~= before);
    } else {
        let more = pieces.skip(1);
        let chunks2 = Seq::new(more.len(), |i: int| xml_text(more[i]));
        assert(chunks.skip(1) =~= chunks2);
        lemma_front_of_joined(texts, "<function="@);
        lemma_merged(texts, chunks);
        assert forall|i: int| 0 <= i < more.len() implies is_xml(
            #[trigger] more[i],
            calls.skip(1)[i],
        ) by {
            assert(more[i] == pieces[i + 1]);
        }
        assert(is_xml(pieces[0], calls[0]));
        lemma_xml_step(
            texts[0],
            pieces[0],
            calls[0],
            laid_out(texts.skip(1), chunks.skip(1)),
            before,
        );
        lemma_all_xml(merged(texts), more, before.push(calls[0]), calls.skip(1));
        assert(before.push(calls[0]) + calls.skip(1) =~= before + calls);
    }
}

/// All calls in the XML syntax between tags are given, in order, with their
/// parameters, and what is left is the text around them.
pub proof fn law_all_xml_calls_are_read(
    texts: Seq<Seq<char>>,
    pieces: Seq<XmlPiece>,
    calls: Seq<CallView>,
)
    requires
        texts.len() == pieces.len() + 1,
        calls.len() == pieces.len(),
        forall|i: int| 0 <= i < pieces.len() ==> is_xml(#[trigger] pieces[i], calls[i]),
        ({
            let raw = laid_out(texts, Seq::new(pieces.len(), |i: int| xml_text(pieces[i])));
            !mentions(raw, "to=functions."@) && !mentions(raw, "call:"@)
        }),
        lacks_later_marks(joined(texts)),
    ensures
        extraction(laid_out(texts, Seq::new(pieces.len(), |i: int| xml_text(pieces[i])))) == Some(
            Scan { text: trim(visible(joined(texts))), calls },
        ),
{
    let raw = laid_out(texts, Seq::new(pieces.len(), |i: int| xml_text(pieces[i])));
    let none = Seq::<CallView>::empty();
    let start = Scan { text: raw, calls: none };
    assert(harmony(raw, none) == Some(start));
    let mark = "call:"@;
    reveal_strlit("call:");
    reveal_strlit("<|tool_call>call:");
    reveal_strlit("<tool_call>call:");
    assert("<|tool_call>call:"@.subrange(12, 17) =~= mark);
    assert("<tool_call>call:"@.subrange(11, 16) =~= mark);
    lemma_lacks_longer(raw, "<|tool_call>call:"@, mark, 12);
    lemma_lacks_longer(raw, "<tool_call>call:"@, mark, 11);
    let tags = gemma_tags();
    assert forall|k: int| 0 <= k < tags.len() implies !mentions(raw, (#[trigger] tags[k]).0) by {}
    lemma_no_blocks(start, tags, Syntax::Gemma);
    lemma_all_xml(texts, pieces, none, calls);
    assert(none + calls =~= calls);
    lemma_left_alone(joined(texts), calls);
}

/// Each parameter of a call in the XML syntax is an argument under its key: what it is
/// in JSON, or else the text itself as a string. A later one takes the place of an
/// earlier one of the same key.
#[verifier::rlimit(40)]
pub proof fn law_each_parameter_is_an_argument(
    lead: Seq<char>,
    key: Seq<char>,
    value: Seq<char>,
    rest: Seq<char>,
    members: Map<Seq<char>, Seq<char>>,
)
    requires
        !mentions(lead, "<parameter="@),
        !key.contains('>'),
        !mentions(value, "</parameter>"@),
    ensures
        parameters(
            lead + "<parameter="@ + key + ">"@ + value + "</parameter>"@ + rest,
            members,
        ) == parameters(
            rest,
            members.insert(
                trim(key),
                match json_node(trim(value), Seq::empty()) {
                    Some(node) => node.text,
                    None => quoted(trim(value)),
                },
            ),
        ),
        parameters(lead, members) == members,
{
    reveal_strlit("<parameter=");
    reveal_strlit(">");
    reveal_strlit("</parameter>");
    let m1 = "<parameter="@;
    let m2 = seq!['>'];
    let m3 = "</parameter>"@;
    assert(">"@ =~= m2);
    let s = lead + m1 + key + ">"@ + value + m3 + rest;
    assert(s =~= lead + m1 + (key + m2 + value + m3 + rest));
    lemma_first_there(lead, m1, key + m2 + value + m3 + rest);
    let key_from = lead.len() as int + 11;
    lemma_lacks_char(key, '>');
    assert(s.skip(key_from) =~= key + m2 + (value + m3 + rest));
    lemma_next_there(s, key_from, key, m2, value + m3 + rest);
    let key_to = key_from + key.len();
    assert(s.subrange(key_from, key_to) =~= key);
    assert(s.skip(key_to + 1) =~= value + m3 + rest);
    lemma_next_there(s, key_to + 1, value, m3, rest);
    let end = key_to + 1 + value.len();
    assert(s.subrange(key_to + 1, end) =~= value);
    assert(s.skip(end + 12) =~= rest);
}

// ---------------------------------------------------------------------------
// What is read of JSON

/// The call that a JSON object stands for: the name and arguments that it has itself
/// come before those of its `function`; arguments that are an object are taken as they
/// are, a string for what it is in JSON, and anything else for an object without
/// members.
pub proof fn law_call_of_an_object(text: Seq<char>)
    ensures
        ({
            let name = json_node(text, "/name"@);
            let arguments = json_node(text, "/arguments"@);
            let inner_name = json_node(text, "/function/name"@);
            let inner_arguments = json_node(text, "/function/arguments"@);
            &&& name matches Some(NodeView { shape: Shape::Str(n), .. }) ==> (arguments matches Some(
                NodeView { text: t, shape: Shape::Object },
            ) ==> json_call(text) == Some(CallView { name: n, arguments: t }))
            &&& name matches Some(NodeView { shape: Shape::Str(n), .. }) ==> (arguments matches Some(
                NodeView { shape: Shape::Str(s), .. },
            ) ==> (json_node(s, Seq::empty()) matches Some(node) ==> json_call(text) == Some(
                CallView { name: n, arguments: node.text },
            )))
            &&& arguments is None ==> (name matches Some(NodeView { shape: Shape::Str(n), .. })
                ==> json_call(text) == Some(
                CallView { name: n, arguments: members_text(Map::empty()) },
            ))
            &&& name is None ==> (inner_name matches Some(NodeView { shape: Shape::Str(n), .. })
                ==> (inner_arguments matches Some(NodeView { text: t, shape: Shape::Object })
                ==> json_call(text) == Some(CallView { name: n, arguments: t })))
            &&& name is None ==> (inner_name matches Some(NodeView { shape: Shape::Str(n), .. })
                ==> (inner_arguments matches Some(NodeView { shape: Shape::Str(s), .. }) ==> (
            json_node(s, Seq::empty()) matches Some(node) ==> json_call(text) == Some(
                CallView { name: n, arguments: node.text },
            ))))
            &&& name is None && inner_name is None ==> json_call(text) is None
        }),
{
}

/// An item of a JSON array stands for a call.
pub open spec fn item_states_call(text: Seq<char>, i: nat, call: CallView) -> bool {
    json_node(text, seq!['/'] + decimal(i)) matches Some(node) && states_call(node.text, call)
}

pub(crate) proof fn lemma_items(
    before: Seq<CallView>,
    text: Seq<char>,
    calls: Seq<CallView>,
    n: nat,
)
    requires
        n <= calls.len(),
        forall|i: int| 0 <= i < calls.len() ==> item_states_call(text, i as nat, #[trigger] calls[i]),
    ensures
        with_items(before, text, n) == before + calls.take(n as int),
    decreases n,
{
    if n == 0 {
        assert(item_calls(text, 0) =~= Seq::<Option<CallView>>::empty());
        assert(before + calls.take(0) =~= before);
    } else {
        let m = (n - 1) as nat;
        lemma_items(before, text, calls, m);
        assert(item_calls(text, n).drop_last() =~= item_calls(text, m));
        assert(item_calls(text, n).last() == item_call(text, m));
        assert(item_states_call(text, m, calls[m as int]));
        assert(before + calls.take(n as int) =~= (before + calls.take(m as int)).push(
            calls[m as int],
        ));
    }
}

/// Of a JSON array each item that stands for a call gives it, in order: in a block, as
/// all of its contents, and after a `[TOOL_CALLS]` without an end tag.
pub proof fn law_each_item_is_a_call(
    before: Seq<CallView>,
    text: Seq<char>,
    own: Seq<char>,
    calls: Seq<CallView>,
)
    requires
        json_node(text, Seq::empty()) == Some(
            NodeView { text: own, shape: Shape::Array(calls.len()) },
        ),
        json_node(text, "/name"@) is None,
        json_node(text, "/function/name"@) is None,
        forall|i: int| 0 <= i < calls.len() ==> item_states_call(text, i as nat, #[trigger] calls[i]),
    ensures
        with_json(before, text) == before + calls,
        with_items(before, text, calls.len()) == before + calls,
{
    lemma_items(before, text, calls, calls.len());
    assert(calls.take(calls.len() as int) =~= calls);
}

/// The calls in the JSON array after a `[TOOL_CALLS]` without an end tag are all given,
/// in order, and what is left is the text before the tag.
pub proof fn law_all_mistral_calls_are_read(
    lead: Seq<char>,
    blank: Seq<char>,
    text: Seq<char>,
    own: Seq<char>,
    calls: Seq<CallView>,
)
    requires
        is_blank(blank),
        text.len() > 0,
        text[0] == '[',
        json_node(text, Seq::empty()) == Some(
            NodeView { text: own, shape: Shape::Array(calls.len()) },
        ),
        forall|i: int| 0 <= i < calls.len() ==> item_states_call(text, i as nat, #[trigger] calls[i]),
        !mentions(lead, "[TOOL_CALLS]"@),
        ({
            let raw = lead + "[TOOL_CALLS]"@ + blank + text;
            lacks_other_marks(raw) && !mentions(raw, "<tool_call>"@) && !mentions(
                raw,
                "<toolcall>"@,
            ) && !mentions(raw, "```tool_call"@) && !mentions(raw, "<|tool_call>"@) && !mentions(
                raw,
                "[/TOOL_CALLS]"@,
            )
        }),
    ensures
        extraction(lead + "[TOOL_CALLS]"@ + blank + text) == Some(
            Scan { text: trim(visible(lead)), calls },
        ),
{
    reveal_strlit("[TOOL_CALLS]");
    let m = "[TOOL_CALLS]"@;
    let raw = lead + m + blank + text;
    let none = Seq::<CallView>::empty();
    let start = Scan { text: raw, calls: none };
    lemma_reaches_json(raw);
    assert(raw =~= lead + m + (blank + text));
    lemma_first_there(lead, m, blank + text);
    let tags = json_tags();
    assert forall|k: int| 0 <= k < tags.len() implies block(
        raw,
        (#[trigger] tags[k]).0,
        tags[k].1,
    ) is None by {
        if k == 4 {
            lemma_find_from(raw, "[/TOOL_CALLS]"@, 0);
            lemma_find_from(raw, "[/TOOL_CALLS]"@, lead.len() as int + 12);
            if let Some(i) = find_from(raw, "[/TOOL_CALLS]"@, lead.len() as int + 12) {
                assert(occurs_at(raw, "[/TOOL_CALLS]"@, i));
            }
        }
    }
    lemma_blocks_idle(start, tags);
    let from = lead.len() as int;
    assert(raw.subrange(from + 12, raw.len() as int) =~= blank + text);
    lemma_trim_blank_text(blank, text);
    assert(text.subrange(0, 1) =~= seq!['[']);
    assert(raw.subrange(0, from) =~= lead);
    lemma_items(none, text, calls, calls.len());
    assert(calls.take(calls.len() as int) =~= calls);
    assert(none + calls =~= calls);
}

/// The call that the JSON object after a `[TOOL_CALLS]` without an end tag stands for is
/// given, and what is left is the text before the tag.
pub proof fn law_mistral_call_is_read(
    lead: Seq<char>,
    blank: Seq<char>,
    text: Seq<char>,
    own: Seq<char>,
    call: CallView,
)
    requires
        is_blank(blank),
        text.len() > 0,
        text[0] == '{',
        json_node(text, Seq::empty()) == Some(
            NodeView { text: own, shape: Shape::Object },
        ),
        states_call(own, call),
        !mentions(lead, "[TOOL_CALLS]"@),
        ({
            let raw = lead + "[TOOL_CALLS]"@ + blank + text;
            lacks_other_marks(raw) && !mentions(raw, "<tool_call>"@) && !mentions(
                raw,
                "<toolcall>"@,
            ) && !mentions(raw, "```tool_call"@) && !mentions(raw, "<|tool_call>"@) && !mentions(
                raw,
                "[/TOOL_CALLS]"@,
            )
        }),
    ensures
        extraction(lead + "[TOOL_CALLS]"@ + blank + text) == Some(
            Scan { text: trim(visible(lead)), calls: seq![call] },
        ),
{
    reveal_strlit("[TOOL_CALLS]");
    let m = "[TOOL_CALLS]"@;
    let raw = lead + m + blank + text;
    let none = Seq::<CallView>::empty();
    let start = Scan { text: raw, calls: none };
    lemma_reaches_json(raw);
    assert(raw =~= lead + m + (blank + text));
    lemma_first_there(lead, m, blank + text);
    let tags = json_tags();
    assert forall|k: int| 0 <= k < tags.len() implies block(
        raw,
        (#[trigger] tags[k]).0,
        tags[k].1,
    ) is None by {
        if k == 4 {
            lemma_find_from(raw, "[/TOOL_CALLS]"@, 0);
            lemma_find_from(raw, "[/TOOL_CALLS]"@, lead.len() as int + 12);
            if let Some(i) = find_from(raw, "[/TOOL_CALLS]"@, lead.len() as int + 12) {
                assert(occurs_at(raw, "[/TOOL_CALLS]"@, i));
            }
        }
    }
    lemma_blocks_idle(start, tags);
    let from = lead.len() as int;
    assert(raw.subrange(from + 12, raw.len() as int) =~= blank + text);
    lemma_trim_blank_text(blank, text);
    assert(text.subrange(0, 1) =~= seq!['{']);
    assert(raw.subrange(0, from) =~= lead);
    assert(json_call(own) == Some(call));
    assert(none.push(call) =~= seq![call]);
}

proof fn lemma_blocks_idle(start: Scan, tags: Seq<(Seq<char>, Seq<char>)>)
    requires
        forall|k: int|
            0 <= k < tags.len() ==> block(start.text, (#[trigger] tags[k]).0, tags[k].1) is None,
    ensures
        tagged(start, tags, Syntax::Json) == start,
    decreases tags.len(),
{
    if tags.len() > 0 {
        assert(block(start.text, tags[0].0, tags[0].1) is None);
        let rest = tags.skip(1);
        assert forall|k: int| 0 <= k < rest.len() implies block(
            start.text,
            (#[trigger] rest[k]).0,
            rest[k].1,
        ) is None by {
            assert(rest[k] == tags[k + 1]);
        }
        lemma_blocks_idle(start, rest);
    }
}

proof fn lemma_trim_blank_text(blank: Seq<char>, text: Seq<char>)
    requires
        is_blank(blank),
        text.len() > 0,
        text[0] == '[' || text[0] == '{',
    ensures
        trim_start(blank + text) == text,
    decreases blank.len(),
{
    if blank.len() == 0 {
        assert(blank + text =~= text);
    } else {
        let t = blank.skip(1);
        assert(is_white(blank[0]));
        assert forall|i: int| 0 <= i < t.len() implies is_white(#[trigger] t[i]) by {
            assert(t[i] == blank[i + 1]);
        }
        lemma_trim_blank_text(t, text);
        assert((blank + text).skip(1) =~= t + text);
    }
}

} // verus!
