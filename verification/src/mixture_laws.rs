//! Laws of outputs that hold several calls, of one syntax or of several: each call is
//! taken out for itself, and what else the output holds is read as if the call were not
//! there.

use vstd::prelude::*;

use crate::blocks::block;
use crate::blocks::block_inner;
use crate::blocks::lemma_block;
use crate::call_laws::has_no_border;
use crate::call_laws::is_json_pair;
use crate::call_laws::lacks_earlier_marks;
use crate::call_laws::lacks_other_marks;
use crate::call_laws::lemma_block_at;
use crate::call_laws::lemma_first_there;
use crate::call_laws::lemma_json_pair;
use crate::call_laws::lemma_lacks_longer;
use crate::call_laws::lemma_no_blocks;
use crate::call_laws::lemma_reaches_json;
use crate::call_laws::stands_clear;
use crate::call_laws::states_call;
use crate::call_syntax::brace_end;
use crate::call_syntax::gemma_call;
use crate::call_syntax::json_call;
use crate::call_syntax::object_in;
use crate::call_syntax::whole;
use crate::cleaning::visible;
use crate::json::json_node;
use crate::json::members_text;
use crate::json::no_members;
use crate::json::NodeView;
use crate::json::Shape;
use crate::ollama_types::CallView;
use crate::syntax_laws::bare_text;
use crate::syntax_laws::ends_a_name;
use crate::syntax_laws::harmony_text;
use crate::syntax_laws::is_braced;
use crate::syntax_laws::is_gemma;
use crate::syntax_laws::is_harmony;
use crate::syntax_laws::is_xml;
use crate::syntax_laws::item_states_call;
use crate::syntax_laws::law_each_item_is_a_call;
use crate::syntax_laws::lemma_bare_step;
use crate::syntax_laws::lemma_close_within;
use crate::syntax_laws::lemma_gemma_plain;
use crate::syntax_laws::lemma_harmony_step;
use crate::syntax_laws::lemma_lacks_char;
use crate::syntax_laws::lemma_name_stops;
use crate::syntax_laws::lemma_next_there;
use crate::syntax_laws::lemma_skip_eight;
use crate::syntax_laws::lemma_xml_step;
use crate::syntax_laws::xml_text;
use crate::syntax_laws::HarmonyPiece;
use crate::syntax_laws::XmlPiece;
use crate::text::cut;
use crate::text::find;
use crate::text::find_from;
use crate::text::lemma_find_from;
use crate::text::lemma_find_skip;
use crate::text::lemma_rfind_to;
use crate::text::mentions;
use crate::text::skip_bytes;
use crate::text::trim;
use crate::text::trim_start;
use crate::tool_calls::arguments_start;
use crate::tool_calls::call_blocks;
use crate::tool_calls::closing_tag;
use crate::tool_calls::extraction;
use crate::tool_calls::gemma_bare;
use crate::tool_calls::gemma_tags;
use crate::tool_calls::harmony;
use crate::tool_calls::harmony_site;
use crate::tool_calls::item_calls;
use crate::tool_calls::json_tags;
use crate::tool_calls::json_untagged;
use crate::tool_calls::lemma_brace_end;
use crate::tool_calls::lemma_harmony_site;
use crate::tool_calls::lemma_xml_site;
use crate::tool_calls::name_end;
use crate::tool_calls::outer_end;
use crate::tool_calls::outer_start;
use crate::tool_calls::parameters;
use crate::tool_calls::tagged;
use crate::tool_calls::with_all;
use crate::tool_calls::with_block;
use crate::tool_calls::with_call;
use crate::tool_calls::with_json;
use crate::tool_calls::xml_calls;
use crate::tool_calls::xml_site;
use crate::tool_calls::Scan;
use crate::tool_calls::SiteView;
use crate::tool_calls::Syntax;

verus! {

// ---------------------------------------------------------------------------
// Calls that were found before

/// What was found, with calls in front of it that were found before.
pub open spec fn behind(calls: Seq<CallView>, scan: Scan) -> Scan {
    Scan { text: scan.text, calls: calls + scan.calls }
}

/// The same where nothing may have been found.
pub open spec fn maybe_behind(calls: Seq<CallView>, scan: Option<Scan>) -> Option<Scan> {
    match scan {
        Some(s) => Some(behind(calls, s)),
        None => None,
    }
}

proof fn lemma_call_behind(pre: Seq<CallView>, calls: Seq<CallView>, call: Option<CallView>)
    ensures
        with_call(pre + calls, call) == pre + with_call(calls, call),
{
    if let Some(c) = call {
        assert((pre + calls).push(c) =~= pre + calls.push(c));
    }
}

proof fn lemma_all_behind(
    pre: Seq<CallView>,
    calls: Seq<CallView>,
    list: Seq<Option<CallView>>,
)
    ensures
        with_all(pre + calls, list) == pre + with_all(calls, list),
    decreases list.len(),
{
    if list.len() > 0 {
        lemma_all_behind(pre, calls, list.drop_last());
        lemma_call_behind(pre, with_all(calls, list.drop_last()), list.last());
    }
}

proof fn lemma_json_behind(pre: Seq<CallView>, calls: Seq<CallView>, text: Seq<char>)
    ensures
        with_json(pre + calls, text) == pre + with_json(calls, text),
{
    match json_call(text) {
        Some(c) => {
            lemma_call_behind(pre, calls, Some(c));
        },
        None => {
            if let Some(n) = whole(text) {
                if let Shape::Array(k) = n.shape {
                    lemma_all_behind(pre, calls, item_calls(text, k));
                }
            }
        },
    }
}

proof fn lemma_block_behind(
    pre: Seq<CallView>,
    calls: Seq<CallView>,
    inner: Seq<char>,
    syntax: Syntax,
)
    ensures
        with_block(pre + calls, inner, syntax) == pre + with_block(calls, inner, syntax),
{
    match syntax {
        Syntax::Gemma => {
            lemma_call_behind(pre, calls, gemma_call(inner));
        },
        Syntax::Json => {
            lemma_json_behind(pre, calls, trim(inner));
        },
    }
}

proof fn lemma_blocks_behind(
    pre: Seq<CallView>,
    start: Scan,
    open: Seq<char>,
    close: Seq<char>,
    syntax: Syntax,
)
    ensures
        call_blocks(behind(pre, start), open, close, syntax) == behind(
            pre,
            call_blocks(start, open, close, syntax),
        ),
    decreases start.text.len(),
{
    lemma_block(start.text, open, close);
    if open.len() > 0 {
        if let Some((from, end, to)) = block(start.text, open, close) {
            let inner = block_inner(start.text, open, close);
            lemma_block_behind(pre, start.calls, inner, syntax);
            let next = Scan {
                text: cut(start.text, from, to),
                calls: with_block(start.calls, inner, syntax),
            };
            lemma_blocks_behind(pre, next, open, close, syntax);
        }
    }
}

proof fn lemma_tagged_behind(
    pre: Seq<CallView>,
    start: Scan,
    tags: Seq<(Seq<char>, Seq<char>)>,
    syntax: Syntax,
)
    ensures
        tagged(behind(pre, start), tags, syntax) == behind(pre, tagged(start, tags, syntax)),
    decreases tags.len(),
{
    if tags.len() > 0 {
        lemma_blocks_behind(pre, start, tags[0].0, tags[0].1, syntax);
        lemma_tagged_behind(
            pre,
            call_blocks(start, tags[0].0, tags[0].1, syntax),
            tags.skip(1),
            syntax,
        );
    }
}

proof fn lemma_bare_behind(pre: Seq<CallView>, text: Seq<char>, calls: Seq<CallView>)
    ensures
        gemma_bare(text, pre + calls) == behind(pre, gemma_bare(text, calls)),
    decreases text.len(),
{
    if let Some(from) = find(text, "call:"@) {
        let start = from + "call:"@.len();
        lemma_find_from(text, "call:"@, 0);
        lemma_brace_end(text, start);
        if let Some(end) = brace_end(text, start) {
            if let Some(call) = gemma_call(text.subrange(start, end)) {
                assert((pre + calls).push(call) =~= pre + calls.push(call));
                lemma_bare_behind(pre, cut(text, from, end), calls.push(call));
            }
        }
    }
}

proof fn lemma_xml_behind(pre: Seq<CallView>, text: Seq<char>, calls: Seq<CallView>)
    ensures
        xml_calls(text, pre + calls) == maybe_behind(pre, xml_calls(text, calls)),
    decreases text.len(),
{
    lemma_xml_site(text);
    if let Some(site) = xml_site(text) {
        if let Some(to) = site.to {
            let call = CallView {
                name: site.name,
                arguments: members_text(parameters(site.raw, no_members())),
            };
            assert((pre + calls).push(call) =~= pre + calls.push(call));
            lemma_xml_behind(pre, cut(text, site.from, to), calls.push(call));
        }
    }
}

proof fn lemma_harmony_behind(pre: Seq<CallView>, text: Seq<char>, calls: Seq<CallView>)
    ensures
        harmony(text, pre + calls) == maybe_behind(pre, harmony(text, calls)),
    decreases text.len(),
{
    lemma_harmony_site(text);
    if let Some(site) = harmony_site(text) {
        if let Some(arguments) = object_in(site.raw) {
            if let Some(to) = site.to {
                let call = CallView { name: site.name, arguments };
                assert((pre + calls).push(call) =~= pre + calls.push(call));
                lemma_harmony_behind(pre, cut(text, site.from, to), calls.push(call));
            }
        }
    }
}

proof fn lemma_untagged_behind(pre: Seq<CallView>, start: Scan)
    ensures
        json_untagged(behind(pre, start)) == behind(pre, json_untagged(start)),
{
    if let Some(from) = find(start.text, "[TOOL_CALLS]"@) {
        let rest = trim_start(
            start.text.subrange(from + "[TOOL_CALLS]"@.len(), start.text.len() as int),
        );
        if let Some(n) = whole(rest) {
            if let Shape::Array(k) = n.shape {
                lemma_all_behind(pre, start.calls, item_calls(rest, k));
            }
            lemma_call_behind(pre, start.calls, json_call(n.text));
        }
    }
}

/// What is made of an output once the calls of the first syntaxes are out of it.
spec fn json_stage(d: Scan) -> Scan {
    let e = json_untagged(tagged(d, json_tags(), Syntax::Json));
    Scan { text: trim(visible(e.text)), calls: e.calls }
}

spec fn xml_stage(c: Scan) -> Option<Scan> {
    match xml_calls(c.text, c.calls) {
        None => None,
        Some(d) => Some(json_stage(d)),
    }
}

spec fn gemma_stage(a: Scan) -> Option<Scan> {
    let b = tagged(a, gemma_tags(), Syntax::Gemma);
    xml_stage(gemma_bare(b.text, b.calls))
}

proof fn lemma_json_stage(pre: Seq<CallView>, d: Scan)
    ensures
        json_stage(behind(pre, d)) == behind(pre, json_stage(d)),
{
    lemma_tagged_behind(pre, d, json_tags(), Syntax::Json);
    lemma_untagged_behind(pre, tagged(d, json_tags(), Syntax::Json));
}

proof fn lemma_xml_stage(pre: Seq<CallView>, c: Scan)
    ensures
        xml_stage(behind(pre, c)) == maybe_behind(pre, xml_stage(c)),
{
    lemma_xml_behind(pre, c.text, c.calls);
    if let Some(d) = xml_calls(c.text, c.calls) {
        lemma_json_stage(pre, d);
    }
}

proof fn lemma_gemma_stage(pre: Seq<CallView>, a: Scan)
    ensures
        gemma_stage(behind(pre, a)) == maybe_behind(pre, gemma_stage(a)),
{
    lemma_tagged_behind(pre, a, gemma_tags(), Syntax::Gemma);
    let b = tagged(a, gemma_tags(), Syntax::Gemma);
    lemma_bare_behind(pre, b.text, b.calls);
    lemma_xml_stage(pre, gemma_bare(b.text, b.calls));
}

proof fn lemma_one(call: CallView)
    ensures
        Seq::<CallView>::empty().push(call) == seq![call],
        seq![call] + Seq::<CallView>::empty() == seq![call],
{
    assert(Seq::<CallView>::empty().push(call) =~= seq![call]);
    assert(seq![call] + Seq::<CallView>::empty() =~= seq![call]);
}

// ---------------------------------------------------------------------------
// Harmony

proof fn lemma_harmony_out(s: Seq<char>, left: Seq<char>, call: CallView)
    requires
        forall|calls: Seq<CallView>| #[trigger]
            harmony(s, calls) == harmony(left, calls.push(call)),
    ensures
        extraction(s) == maybe_behind(seq![call], extraction(left)),
{
    let none = Seq::<CallView>::empty();
    lemma_one(call);
    assert(harmony(s, none) == harmony(left, none.push(call)));
    lemma_harmony_behind(seq![call], left, none);
    if let Some(a) = harmony(left, none) {
        lemma_gemma_stage(seq![call], a);
    }
}

/// The first call in the Harmony syntax is given first, and everything else is read as
/// if it were not there.
pub proof fn law_harmony_call_and_more(
    lead: Seq<char>,
    p: HarmonyPiece,
    call: CallView,
    rest: Seq<char>,
)
    requires
        !mentions(lead, "to=functions."@),
        is_harmony(p, call),
    ensures
        extraction(lead + harmony_text(p) + rest) == maybe_behind(
            seq![call],
            extraction(lead + rest),
        ),
{
    let s = lead + harmony_text(p) + rest;
    assert forall|calls: Seq<CallView>| #[trigger] harmony(s, calls) == harmony(
        lead + rest,
        calls.push(call),
    ) by {
        lemma_harmony_step(lead, p, call, rest, calls);
    }
    lemma_harmony_out(s, lead + rest, call);
}

/// The head of a call in the Harmony syntax: its name, and what may stand between it and
/// the mark of the message.
pub open spec fn is_harmony_head(name: Seq<char>, between: Seq<char>) -> bool {
    &&& name.len() > 0
    &&& trim(name) == name
    &&& forall|i: int| 0 <= i < name.len() ==> !ends_a_name(#[trigger] name[i])
    &&& between.len() > 0 ==> ends_a_name(between[0])
    &&& !mentions(between, "<|message|>"@)
}

/// A call in the Harmony syntax up to its arguments.
pub open spec fn harmony_head(name: Seq<char>, between: Seq<char>) -> Seq<char> {
    "to=functions."@ + name + between + "<|message|>"@
}

#[verifier::rlimit(40)]
proof fn lemma_harmony_head(lead: Seq<char>, name: Seq<char>, between: Seq<char>, tail: Seq<char>)
    requires
        !mentions(lead, "to=functions."@),
        is_harmony_head(name, between),
    ensures
        ({
            let s = lead + harmony_head(name, between) + tail;
            let a = (lead + harmony_head(name, between)).len() as int;
            let name_from = lead.len() + 13;
            &&& find(s, "to=functions."@) == Some(lead.len() as int)
            &&& "to=functions."@.len() == 13
            &&& name_end(s, name_from as int) == name_from + name.len()
            &&& trim(s.subrange(name_from as int, (name_from + name.len()) as int)) == name
            &&& arguments_start(s, (name_from + name.len()) as int) == Some(a)
            &&& s.skip(a) == tail
        }),
{
    reveal_strlit("to=functions.");
    reveal_strlit("<|message|>");
    let m1 = "to=functions."@;
    let m2 = "<|message|>"@;
    let s = lead + harmony_head(name, between) + tail;
    let from = lead.len() as int;
    assert(s =~= lead + m1 + (name + between + m2 + tail));
    lemma_first_there(lead, m1, name + between + m2 + tail);
    let name_from = from + 13;
    let name_to = name_from + name.len();
    assert(s.subrange(name_from, name_to) =~= name);
    assert forall|j: int| name_from <= j < name_to implies !ends_a_name(#[trigger] s[j]) by {
        assert(s[j] == name[j - name_from]);
    }
    assert(s[name_to] == (between + m2)[0]);
    lemma_name_stops(s, name_from, name_to);
    assert(s.skip(name_to) =~= between + m2 + tail);
    lemma_next_there(s, name_to, between, m2, tail);
    let a = name_to + between.len() + 11;
    assert(s.skip(a) =~= tail);
}

#[verifier::rlimit(40)]
proof fn lemma_site_out(
    lead: Seq<char>,
    name: Seq<char>,
    between: Seq<char>,
    arguments: Seq<char>,
    tail: Seq<char>,
    to: int,
    left: Seq<char>,
    call: CallView,
)
    requires
        !mentions(lead, "to=functions."@),
        is_harmony_head(name, between),
        call.name == name,
        json_node(trim(arguments), Seq::empty()) == Some(
            NodeView { text: call.arguments, shape: Shape::Object },
        ),
        ({
            let s = lead + harmony_head(name, between) + (arguments + tail);
            let a = (lead + harmony_head(name, between)).len() as int;
            let e = a + arguments.len();
            &&& match closing_tag(s, a) {
                Some(end) => end == e && skip_bytes(s, e, 8) == Some(to),
                None => brace_end(s, a) == Some(e) && to == e,
            }
            &&& cut(s, lead.len() as int, to) == left
        }),
    ensures
        extraction(lead + harmony_head(name, between) + (arguments + tail)) == maybe_behind(
            seq![call],
            extraction(left),
        ),
{
    let s = lead + harmony_head(name, between) + (arguments + tail);
    let a = (lead + harmony_head(name, between)).len() as int;
    let e = a + arguments.len();
    lemma_harmony_head(lead, name, between, arguments + tail);
    assert(s.subrange(a, e) =~= arguments);
    let site = SiteView {
        from: lead.len() as int,
        to: Some(to),
        name,
        raw: trim(arguments),
    };
    assert(harmony_site(s) == Some(site));
    assert(object_in(site.raw) == Some(call.arguments));
    assert(call == (CallView { name: site.name, arguments: call.arguments }));
    assert forall|calls: Seq<CallView>| #[trigger] harmony(s, calls) == harmony(
        left,
        calls.push(call),
    ) by {}
    lemma_harmony_out(s, left, call);
}

proof fn lemma_not_from(s: Seq<char>, a: int, tail: Seq<char>, p: Seq<char>)
    requires
        0 <= a <= s.len(),
        s.skip(a) == tail,
        !mentions(tail, p),
    ensures
        find_from(s, p, a) is None,
{
    lemma_find_skip(s, p, a, 0);
}

#[verifier::rlimit(40)]
proof fn lemma_end_and_more(s: Seq<char>, a: int, arguments: Seq<char>, next: char, rest: Seq<char>)
    requires
        0 <= a <= s.len(),
        s.skip(a) == arguments + ("<|end|>"@ + seq![next] + rest),
        !mentions(arguments, "<|end|>"@),
        (next as int) < 0x80,
        !mentions(arguments + ("<|end|>"@ + seq![next] + rest), "<|call|>"@),
    ensures
        closing_tag(s, a) == Some(a + arguments.len()),
        skip_bytes(s, a + arguments.len(), 8) == Some(a + arguments.len() + 8),
        s.skip(a + arguments.len() + 8) == rest,
        a + arguments.len() + 8 <= s.len(),
{
    reveal_strlit("<|end|>");
    let m = "<|end|>"@;
    let tail = m + seq![next] + rest;
    let e = a + arguments.len();
    lemma_not_from(s, a, arguments + tail, "<|call|>"@);
    assert(arguments + tail =~= arguments + m + (seq![next] + rest));
    lemma_next_there(s, a, arguments, m, seq![next] + rest);
    let t = s.skip(a);
    assert(t.len() == arguments.len() + 8 + rest.len());
    assert forall|j: int| e <= j < e + 8 implies ((#[trigger] s[j]) as int) < 0x80 by {
        assert(s[j] == t[j - a]);
        assert(t[j - a] == (m + seq![next])[j - e]);
    }
    lemma_skip_eight(s, e);
    assert(s.skip(e + 8) =~= t.skip(arguments.len() as int + 8));
    assert(t.skip(arguments.len() as int + 8) =~= rest);
}

#[verifier::rlimit(40)]
proof fn lemma_end_at_last(s: Seq<char>, a: int, arguments: Seq<char>)
    requires
        0 <= a <= s.len(),
        s.skip(a) == arguments + "<|end|>"@,
        !mentions(arguments, "<|end|>"@),
        !mentions(arguments + "<|end|>"@, "<|call|>"@),
    ensures
        closing_tag(s, a) == Some(a + arguments.len()),
        skip_bytes(s, a + arguments.len(), 8) == Some(s.len() as int),
{
    reveal_strlit("<|end|>");
    let m = "<|end|>"@;
    let e = a + arguments.len();
    lemma_not_from(s, a, arguments + m, "<|call|>"@);
    assert(arguments + m =~= arguments + m + Seq::<char>::empty());
    lemma_next_there(s, a, arguments, m, Seq::empty());
    let t = s.skip(a);
    assert(s.len() == e + 7);
    assert forall|j: int| e <= j < e + 7 implies #[trigger] s[j] == m[j - e] by {
        assert(s[j] == t[j - a]);
    }
    reveal_with_fuel(skip_bytes, 9);
    assert(s[e] == m[0] && s[e + 1] == m[1] && s[e + 2] == m[2] && s[e + 3] == m[3] && s[e + 4]
        == m[4] && s[e + 5] == m[5] && s[e + 6] == m[6]);
}

/// Without the mark of a call the arguments of a call in the Harmony syntax go up to the
/// mark of the end of the message. Eight bytes are taken out there, one more than the
/// mark has.
#[verifier::rlimit(40)]
pub proof fn law_harmony_call_ends_with_message(
    lead: Seq<char>,
    name: Seq<char>,
    between: Seq<char>,
    arguments: Seq<char>,
    next: char,
    rest: Seq<char>,
    call: CallView,
)
    requires
        !mentions(lead, "to=functions."@),
        is_harmony_head(name, between),
        call.name == name,
        json_node(trim(arguments), Seq::empty()) == Some(
            NodeView { text: call.arguments, shape: Shape::Object },
        ),
        !mentions(arguments, "<|end|>"@),
        (next as int) < 0x80,
        !mentions(arguments + ("<|end|>"@ + seq![next] + rest), "<|call|>"@),
    ensures
        extraction(
            lead + harmony_head(name, between) + (arguments + ("<|end|>"@ + seq![next] + rest)),
        ) == maybe_behind(seq![call], extraction(lead + rest)),
{
    let head = lead + harmony_head(name, between);
    let a = head.len() as int;
    let tail = "<|end|>"@ + seq![next] + rest;
    let s = head + (arguments + tail);
    let to = a + arguments.len() + 8;
    assert(s.skip(a) =~= arguments + tail);
    lemma_end_and_more(s, a, arguments, next, rest);
    assert(s.take(lead.len() as int) =~= lead);
    assert(cut(s, lead.len() as int, to) =~= lead + s.skip(to));
    lemma_site_out(lead, name, between, arguments, tail, to, lead + rest, call);
}

/// An output that ends with the mark of the end of the message is taken out up to its
/// end.
pub proof fn law_harmony_call_ends_with_output(
    lead: Seq<char>,
    name: Seq<char>,
    between: Seq<char>,
    arguments: Seq<char>,
    call: CallView,
)
    requires
        !mentions(lead, "to=functions."@),
        is_harmony_head(name, between),
        call.name == name,
        json_node(trim(arguments), Seq::empty()) == Some(
            NodeView { text: call.arguments, shape: Shape::Object },
        ),
        !mentions(arguments, "<|end|>"@),
        !mentions(arguments + "<|end|>"@, "<|call|>"@),
    ensures
        extraction(lead + harmony_head(name, between) + (arguments + "<|end|>"@)) == maybe_behind(
            seq![call],
            extraction(lead),
        ),
{
    let head = lead + harmony_head(name, between);
    let a = head.len() as int;
    let s = head + (arguments + "<|end|>"@);
    assert(s.skip(a) =~= arguments + "<|end|>"@);
    lemma_end_at_last(s, a, arguments);
    assert(cut(s, lead.len() as int, s.len() as int) =~= lead);
    lemma_site_out(lead, name, between, arguments, "<|end|>"@, s.len() as int, lead, call);
}

/// Without either mark they go up to the mark of the return, of which eight bytes are
/// taken out.
#[verifier::rlimit(40)]
pub proof fn law_harmony_call_ends_with_return(
    lead: Seq<char>,
    name: Seq<char>,
    between: Seq<char>,
    arguments: Seq<char>,
    rest: Seq<char>,
    call: CallView,
)
    requires
        !mentions(lead, "to=functions."@),
        is_harmony_head(name, between),
        call.name == name,
        json_node(trim(arguments), Seq::empty()) == Some(
            NodeView { text: call.arguments, shape: Shape::Object },
        ),
        !mentions(arguments, "<|return|>"@),
        !mentions(arguments + ("<|return|>"@ + rest), "<|call|>"@),
        !mentions(arguments + ("<|return|>"@ + rest), "<|end|>"@),
    ensures
        extraction(lead + harmony_head(name, between) + (arguments + ("<|return|>"@ + rest)))
            == maybe_behind(seq![call], extraction(lead + seq!['|', '>'] + rest)),
{
    reveal_strlit("<|return|>");
    let m = "<|return|>"@;
    let head = lead + harmony_head(name, between);
    let a = head.len() as int;
    let e = a + arguments.len();
    let tail = m + rest;
    let s = head + (arguments + tail);
    assert(s.skip(a) =~= arguments + tail);
    lemma_not_from(s, a, arguments + tail, "<|call|>"@);
    lemma_not_from(s, a, arguments + tail, "<|end|>"@);
    assert(arguments + tail =~= arguments + m + rest);
    lemma_next_there(s, a, arguments, m, rest);
    assert forall|j: int| e <= j < e + 8 implies ((#[trigger] s[j]) as int) < 0x80 by {
        assert(s[j] == m[j - e]);
    }
    lemma_skip_eight(s, e);
    assert(cut(s, lead.len() as int, e + 8) =~= lead + seq!['|', '>'] + rest);
    lemma_site_out(lead, name, between, arguments, tail, e + 8, lead + seq!['|', '>'] + rest, call);
}

/// Without any of these marks they go up to the brace that closes them.
#[verifier::rlimit(40)]
pub proof fn law_harmony_call_ends_with_brace(
    lead: Seq<char>,
    name: Seq<char>,
    between: Seq<char>,
    arguments: Seq<char>,
    rest: Seq<char>,
    call: CallView,
)
    requires
        !mentions(lead, "to=functions."@),
        is_harmony_head(name, between),
        call.name == name,
        is_braced(arguments),
        json_node(trim(arguments), Seq::empty()) == Some(
            NodeView { text: call.arguments, shape: Shape::Object },
        ),
        !mentions(arguments + rest, "<|call|>"@),
        !mentions(arguments + rest, "<|end|>"@),
        !mentions(arguments + rest, "<|return|>"@),
    ensures
        extraction(lead + harmony_head(name, between) + (arguments + rest)) == maybe_behind(
            seq![call],
            extraction(lead + rest),
        ),
{
    let head = lead + harmony_head(name, between);
    let a = head.len() as int;
    let e = a + arguments.len();
    let s = head + (arguments + rest);
    assert(s.skip(a) =~= arguments + rest);
    lemma_not_from(s, a, arguments + rest, "<|call|>"@);
    lemma_not_from(s, a, arguments + rest, "<|end|>"@);
    lemma_not_from(s, a, arguments + rest, "<|return|>"@);
    assert(s.subrange(a, a + 1) =~= seq!['{']);
    assert(find_from(s, seq!['{'], a) == Some(a));
    assert(s =~= head + arguments + rest);
    lemma_close_within(head, arguments, rest, 0, 0, false, false);
    assert(brace_end(s, a) == Some(e));
    assert(cut(s, lead.len() as int, e) =~= lead + rest);
    lemma_site_out(lead, name, between, arguments, rest, e, lead + rest, call);
}

// ---------------------------------------------------------------------------
// Gemma

proof fn lemma_pair_out(
    s: Seq<char>,
    left: Seq<char>,
    tags: Seq<(Seq<char>, Seq<char>)>,
    k: int,
    syntax: Syntax,
    calls: Seq<CallView>,
)
    requires
        0 <= k < tags.len(),
        tags[k].0.len() > 0,
        ({
            let none = Seq::<CallView>::empty();
            call_blocks(Scan { text: s, calls: none }, tags[k].0, tags[k].1, syntax) == call_blocks(
                Scan { text: left, calls },
                tags[k].0,
                tags[k].1,
                syntax,
            )
        }),
        forall|j: int|
            0 <= j < k ==> block(s, (#[trigger] tags[j]).0, tags[j].1) is None && block(
                left,
                tags[j].0,
                tags[j].1,
            ) is None,
    ensures
        ({
            let none = Seq::<CallView>::empty();
            tagged(Scan { text: s, calls: none }, tags, syntax) == behind(
                calls,
                tagged(Scan { text: left, calls: none }, tags, syntax),
            )
        }),
    decreases k,
{
    let none = Seq::<CallView>::empty();
    let a = Scan { text: s, calls: none };
    let b = Scan { text: left, calls: none };
    assert(calls + none =~= calls);
    let rest = tags.skip(1);
    if k == 0 {
        lemma_blocks_behind(calls, b, tags[0].0, tags[0].1, syntax);
        lemma_tagged_behind(calls, call_blocks(b, tags[0].0, tags[0].1, syntax), rest, syntax);
    } else {
        assert(block(s, tags[0].0, tags[0].1) is None && block(left, tags[0].0, tags[0].1) is None);
        assert forall|j: int| 0 <= j < k - 1 implies block(s, (#[trigger] rest[j]).0, rest[j].1) is None
            && block(left, rest[j].0, rest[j].1) is None by {
            assert(rest[j] == tags[j + 1]);
        }
        assert(rest[k - 1] == tags[k]);
        lemma_pair_out(s, left, rest, k - 1, syntax, calls);
    }
}

/// The pairs of tags around calls in the Gemma syntax, and that the text holds no block
/// of an earlier pair.
pub open spec fn is_gemma_turn(s: Seq<char>, k: int, open: Seq<char>, close: Seq<char>) -> bool {
    &&& !mentions(s, "to=functions."@)
    &&& {
        ||| k == 0 && open == "<|tool_call>call:"@ && close == "<tool_call|>"@
        ||| k == 1 && open == "<tool_call>call:"@ && close == "</tool_call>"@ && !mentions(
            s,
            "<|tool_call>call:"@,
        )
        ||| k == 2 && open == "<|tool_call>call:"@ && close == "<|end|>"@ && !mentions(
            s,
            "<tool_call|>"@,
        ) && !mentions(s, "<tool_call>call:"@)
    }
}

proof fn lemma_no_close(s: Seq<char>, open: Seq<char>, close: Seq<char>)
    requires
        !mentions(s, close),
    ensures
        block(s, open, close) is None,
{
    lemma_find_from(s, open, 0);
    lemma_find_from(s, close, 0);
    if let Some(from) = find(s, open) {
        lemma_find_from(s, close, from + open.len());
    }
}

proof fn lemma_gemma_turn(s: Seq<char>, k: int, open: Seq<char>, close: Seq<char>)
    requires
        is_gemma_turn(s, k, open, close),
    ensures
        0 <= k < gemma_tags().len(),
        gemma_tags()[k] == (open, close),
        open.len() > 0,
        close.len() > 0,
        has_no_border(open),
        has_no_border(close),
        harmony(s, Seq::empty()) == Some(Scan { text: s, calls: Seq::empty() }),
        forall|j: int|
            0 <= j < k ==> block(s, (#[trigger] gemma_tags()[j]).0, gemma_tags()[j].1) is None,
{
    reveal_strlit("<|tool_call>call:");
    reveal_strlit("<tool_call>call:");
    reveal_strlit("<tool_call|>");
    reveal_strlit("</tool_call>");
    reveal_strlit("<|end|>");
    if k == 2 {
        lemma_no_close(s, "<|tool_call>call:"@, "<tool_call|>"@);
    }
}

proof fn lemma_gemma_block(
    lead: Seq<char>,
    inner: Seq<char>,
    rest: Seq<char>,
    k: int,
    open: Seq<char>,
    close: Seq<char>,
)
    requires
        is_gemma_turn(lead + (open + inner + close) + rest, k, open, close),
        is_gemma_turn(lead + rest, k, open, close),
        !mentions(lead, open),
        !mentions(inner, close),
    ensures
        extraction(lead + (open + inner + close) + rest) == maybe_behind(
            with_call(Seq::empty(), gemma_call(inner)),
            extraction(lead + rest),
        ),
{
    let s = lead + (open + inner + close) + rest;
    let left = lead + rest;
    let none = Seq::<CallView>::empty();
    let tags = gemma_tags();
    lemma_gemma_turn(s, k, open, close);
    lemma_gemma_turn(left, k, open, close);
    lemma_block_at(lead, open, inner, close, rest);
    let own = with_call(none, gemma_call(inner));
    assert(with_block(none, inner, Syntax::Gemma) == own);
    assert(call_blocks(Scan { text: s, calls: none }, open, close, Syntax::Gemma) == call_blocks(
        Scan { text: left, calls: own },
        open,
        close,
        Syntax::Gemma,
    ));
    lemma_pair_out(s, left, tags, k, Syntax::Gemma, own);
    let b = tagged(Scan { text: left, calls: none }, tags, Syntax::Gemma);
    lemma_bare_behind(own, b.text, b.calls);
    lemma_xml_stage(own, gemma_bare(b.text, b.calls));
    assert(extraction(left) == gemma_stage(Scan { text: left, calls: none }));
    assert(extraction(s) == gemma_stage(Scan { text: s, calls: none }));
}

/// The first call in the Gemma syntax between tags is given, and everything else is read
/// as if it were not there.
pub proof fn law_gemma_call_and_more(
    lead: Seq<char>,
    name: Seq<char>,
    arguments: Seq<char>,
    rest: Seq<char>,
    k: int,
    open: Seq<char>,
    close: Seq<char>,
    call: CallView,
)
    requires
        is_gemma_turn(lead + (open + (name + arguments) + close) + rest, k, open, close),
        is_gemma_turn(lead + rest, k, open, close),
        !mentions(lead, open),
        !mentions(name + arguments, close),
        is_gemma(name, arguments, call),
    ensures
        extraction(lead + (open + (name + arguments) + close) + rest) == maybe_behind(
            seq![call],
            extraction(lead + rest),
        ),
{
    lemma_gemma_block(lead, name + arguments, rest, k, open, close);
    lemma_gemma_plain(name, arguments, call);
    lemma_one(call);
}

/// A block that holds no call is dropped, and everything else is read as if it were not
/// there.
pub proof fn law_gemma_block_without_call(
    lead: Seq<char>,
    inner: Seq<char>,
    rest: Seq<char>,
    k: int,
    open: Seq<char>,
    close: Seq<char>,
)
    requires
        is_gemma_turn(lead + (open + inner + close) + rest, k, open, close),
        is_gemma_turn(lead + rest, k, open, close),
        !mentions(lead, open),
        !mentions(inner, close),
        !inner.contains('{'),
    ensures
        extraction(lead + (open + inner + close) + rest) == extraction(lead + rest),
{
    lemma_gemma_block(lead, inner, rest, k, open, close);
    lemma_lacks_char(inner, '{');
    let none = Seq::<CallView>::empty();
    if let Some(scan) = extraction(lead + rest) {
        assert(none + scan.calls =~= scan.calls);
    }
}

/// The first call without tags is given, and everything else is read as if it were not
/// there.
pub proof fn law_bare_call_and_more(
    lead: Seq<char>,
    name: Seq<char>,
    arguments: Seq<char>,
    rest: Seq<char>,
    call: CallView,
)
    requires
        !mentions(lead, "call:"@),
        is_gemma(name, arguments, call),
        is_braced(arguments),
        lacks_gemma_tags(lead + bare_text(name, arguments) + rest),
        lacks_gemma_tags(lead + rest),
    ensures
        extraction(lead + bare_text(name, arguments) + rest) == maybe_behind(
            seq![call],
            extraction(lead + rest),
        ),
{
    let s = lead + bare_text(name, arguments) + rest;
    let left = lead + rest;
    let none = Seq::<CallView>::empty();
    lemma_one(call);
    lemma_no_gemma_tags(s);
    lemma_no_gemma_tags(left);
    lemma_bare_step(lead, name, arguments, call, rest, none);
    lemma_bare_behind(seq![call], left, none);
    lemma_xml_stage(seq![call], gemma_bare(left, none));
    assert(extraction(left) == gemma_stage(Scan { text: left, calls: none }));
    assert(extraction(s) == gemma_stage(Scan { text: s, calls: none }));
}

/// The text holds no call in the Harmony syntax, and no tag of the Gemma syntax.
pub open spec fn lacks_gemma_tags(s: Seq<char>) -> bool {
    !mentions(s, "to=functions."@) && !mentions(s, "<|tool_call>call:"@) && !mentions(
        s,
        "<tool_call>call:"@,
    )
}

proof fn lemma_no_gemma_tags(s: Seq<char>)
    requires
        lacks_gemma_tags(s),
    ensures
        harmony(s, Seq::empty()) == Some(Scan { text: s, calls: Seq::empty() }),
        tagged(Scan { text: s, calls: Seq::empty() }, gemma_tags(), Syntax::Gemma) == (Scan {
            text: s,
            calls: Seq::empty(),
        }),
{
    let tags = gemma_tags();
    assert forall|k: int| 0 <= k < tags.len() implies !mentions(s, (#[trigger] tags[k]).0) by {}
    lemma_no_blocks(Scan { text: s, calls: Seq::empty() }, tags, Syntax::Gemma);
}

// ---------------------------------------------------------------------------
// XML

/// The text holds no mark of the Harmony and the Gemma syntaxes.
pub open spec fn lacks_marks_before_xml(s: Seq<char>) -> bool {
    !mentions(s, "to=functions."@) && !mentions(s, "call:"@)
}

proof fn lemma_reaches_xml(s: Seq<char>)
    requires
        lacks_marks_before_xml(s),
    ensures
        extraction(s) == xml_stage(Scan { text: s, calls: Seq::empty() }),
{
    let mark = "call:"@;
    reveal_strlit("call:");
    reveal_strlit("<|tool_call>call:");
    reveal_strlit("<tool_call>call:");
    assert("<|tool_call>call:"@.subrange(12, 17) =~= mark);
    assert("<tool_call>call:"@.subrange(11, 16) =~= mark);
    lemma_lacks_longer(s, "<|tool_call>call:"@, mark, 12);
    lemma_lacks_longer(s, "<tool_call>call:"@, mark, 11);
    lemma_no_gemma_tags(s);
    let none = Seq::<CallView>::empty();
    assert(gemma_bare(s, none) == (Scan { text: s, calls: none }));
}

proof fn lemma_xml_out(s: Seq<char>, left: Seq<char>, call: CallView)
    requires
        lacks_marks_before_xml(s),
        lacks_marks_before_xml(left),
        xml_calls(s, Seq::empty()) == xml_calls(left, seq![call]),
    ensures
        extraction(s) == maybe_behind(seq![call], extraction(left)),
{
    let none = Seq::<CallView>::empty();
    lemma_one(call);
    lemma_reaches_xml(s);
    lemma_reaches_xml(left);
    lemma_xml_stage(seq![call], Scan { text: left, calls: none });
    assert(xml_stage(Scan { text: s, calls: none }) == xml_stage(
        Scan { text: left, calls: seq![call] },
    ));
}

/// The first call in the XML syntax between tags is given, and everything else is read
/// as if it were not there.
pub proof fn law_xml_call_and_more(
    lead: Seq<char>,
    p: XmlPiece,
    call: CallView,
    rest: Seq<char>,
)
    requires
        !mentions(lead, "<function="@),
        is_xml(p, call),
        lacks_marks_before_xml(lead + xml_text(p) + rest),
        lacks_marks_before_xml(lead + rest),
    ensures
        extraction(lead + xml_text(p) + rest) == maybe_behind(seq![call], extraction(lead + rest)),
{
    let none = Seq::<CallView>::empty();
    lemma_xml_step(lead, p, call, rest, none);
    lemma_one(call);
    lemma_xml_out(lead + xml_text(p) + rest, lead + rest, call);
}

proof fn lemma_xml_begins_bare(lead: Seq<char>, after: Seq<char>)
    requires
        !mentions(lead, "<function="@),
        !mentions(lead, "<tool_call>"@),
    ensures
        ({
            let s = lead + "<function="@ + after;
            let at = lead.len() as int;
            &&& find(s, "<function="@) == Some(at)
            &&& outer_start(s, at) == at
            &&& s.skip(at + 10) == after
            &&& "<function="@.len() == 10
        }),
{
    reveal_strlit("<function=");
    reveal_strlit("<tool_call>");
    let s = lead + "<function="@ + after;
    let at = lead.len() as int;
    lemma_first_there(lead, "<function="@, after);
    assert(s.take(at) =~= lead);
    lemma_find_from(lead, "<tool_call>"@, 0);
    lemma_rfind_to(lead, "<tool_call>"@, at - 11);
    assert(s.skip(at + 10) =~= after);
}

#[verifier::rlimit(40)]
proof fn lemma_xml_ends_bare(
    s: Seq<char>,
    from: int,
    name: Seq<char>,
    body: Seq<char>,
    rest: Seq<char>,
)
    requires
        0 <= from <= s.len(),
        s.skip(from) == name + seq!['>'] + body + "</function>"@ + rest,
        !mentions(rest, "</tool_call>"@),
        !name.contains('>'),
        !mentions(body, "</function>"@),
    ensures
        ({
            let name_to = from + name.len();
            let end = name_to + 1 + body.len();
            &&& find_from(s, seq!['>'], from) == Some(name_to)
            &&& s.subrange(from, name_to) == name
            &&& find_from(s, "</function>"@, name_to + 1) == Some(end)
            &&& s.subrange(name_to + 1, end) == body
            &&& outer_end(s, end + 11) == end + 11
            &&& s.skip(end + 11) == rest
            &&& end + 11 <= s.len()
            &&& "</function>"@.len() == 11
        }),
{
    reveal_strlit("</function>");
    let m2 = seq!['>'];
    let m3 = "</function>"@;
    let t = s.skip(from);
    let name_to = from + name.len();
    let b = name_to + 1;
    let end = b + body.len();
    lemma_lacks_char(name, '>');
    assert(t =~= name + m2 + (body + m3 + rest));
    lemma_next_there(s, from, name, m2, body + m3 + rest);
    assert(s.subrange(from, name_to) =~= t.subrange(0, name.len() as int));
    assert(t.subrange(0, name.len() as int) =~= name);
    let u = s.skip(b);
    assert(u =~= t.skip(name.len() as int + 1));
    assert(u =~= body + m3 + rest);
    lemma_next_there(s, b, body, m3, rest);
    assert(s.subrange(b, end) =~= u.subrange(0, body.len() as int));
    assert(u.subrange(0, body.len() as int) =~= body);
    assert(s.skip(end + 11) =~= u.skip(body.len() as int + 11));
    assert(u.skip(body.len() as int + 11) =~= rest);
    lemma_find_skip(s, "</tool_call>"@, end + 11, 0);
}

proof fn lemma_xml_site_bare(lead: Seq<char>, name: Seq<char>, body: Seq<char>, rest: Seq<char>)
    requires
        !mentions(lead, "<function="@),
        !mentions(lead, "<tool_call>"@),
        !mentions(rest, "</tool_call>"@),
        !name.contains('>'),
        !mentions(body, "</function>"@),
    ensures
        ({
            let after = name + seq!['>'] + body + "</function>"@ + rest;
            let s = lead + "<function="@ + after;
            let at = lead.len() as int;
            let to = at + 10 + name.len() + 1 + body.len() + 11;
            &&& xml_site(s) == Some(
                SiteView { from: at, to: Some(to), name: trim(name), raw: body },
            )
            &&& s.skip(to) == rest
            &&& to <= s.len()
        }),
{
    let after = name + seq!['>'] + body + "</function>"@ + rest;
    let s = lead + "<function="@ + after;
    lemma_xml_begins_bare(lead, after);
    lemma_xml_ends_bare(s, lead.len() as int + 10, name, body, rest);
}

proof fn lemma_xml_one(s: Seq<char>, site: SiteView, to: int, left: Seq<char>, call: CallView)
    requires
        xml_site(s) == Some(site),
        site.to == Some(to),
        cut(s, site.from, to) == left,
        call.name == site.name,
        call.arguments == members_text(parameters(site.raw, no_members())),
    ensures
        xml_calls(s, Seq::empty()) == xml_calls(left, seq![call]),
{
    lemma_one(call);
    assert(call == (CallView {
        name: site.name,
        arguments: members_text(parameters(site.raw, no_members())),
    }));
}

proof fn lemma_cut_front(lead: Seq<char>, s: Seq<char>, to: int, rest: Seq<char>)
    requires
        lead.len() <= to <= s.len(),
        s.take(lead.len() as int) == lead,
        s.skip(to) == rest,
    ensures
        cut(s, lead.len() as int, to) == lead + rest,
{
    assert(cut(s, lead.len() as int, to) =~= lead + rest);
}

proof fn lemma_regroup(
    a: Seq<char>,
    b: Seq<char>,
    c: Seq<char>,
    d: Seq<char>,
    e: Seq<char>,
    f: Seq<char>,
    g: Seq<char>,
)
    ensures
        a + b + c + d + e + f + g == a + b + (c + d + e + f + g),
        (a + b + (c + d + e + f + g)).take(a.len() as int) == a,
{
    assert(a + b + c + d + e + f + g =~= a + b + (c + d + e + f + g));
    assert((a + b + (c + d + e + f + g)).take(a.len() as int) =~= a);
}

/// A call in the XML syntax needs no tags around it.
pub proof fn law_xml_call_without_tags(
    lead: Seq<char>,
    name: Seq<char>,
    body: Seq<char>,
    rest: Seq<char>,
)
    requires
        !mentions(lead, "<function="@),
        !mentions(lead, "<tool_call>"@),
        !mentions(rest, "</tool_call>"@),
        !name.contains('>'),
        !mentions(body, "</function>"@),
        lacks_marks_before_xml(
            lead + "<function="@ + name + seq!['>'] + body + "</function>"@ + rest,
        ),
        lacks_marks_before_xml(lead + rest),
    ensures
        extraction(lead + "<function="@ + name + seq!['>'] + body + "</function>"@ + rest)
            == maybe_behind(
            seq![
                CallView {
                    name: trim(name),
                    arguments: members_text(parameters(body, Map::empty())),
                },
            ],
            extraction(lead + rest),
        ),
{
    let after = name + seq!['>'] + body + "</function>"@ + rest;
    let s = lead + "<function="@ + after;
    let at = lead.len() as int;
    let to = at + 10 + name.len() + 1 + body.len() + 11;
    lemma_regroup(lead, "<function="@, name, seq!['>'], body, "</function>"@, rest);
    lemma_xml_site_bare(lead, name, body, rest);
    lemma_cut_front(lead, s, to, rest);
    let call = CallView { name: trim(name), arguments: members_text(parameters(body, Map::empty())) };
    let site = SiteView { from: at, to: Some(to), name: trim(name), raw: body };
    lemma_xml_one(s, site, to, lead + rest, call);
    lemma_xml_out(s, lead + rest, call);
}

// ---------------------------------------------------------------------------
// JSON

/// The turn of a pair of tags around calls as JSON: the text holds no mark of another
/// syntax, nor one of an earlier pair.
pub open spec fn is_json_turn(s: Seq<char>, k: int, open: Seq<char>, close: Seq<char>) -> bool {
    is_json_pair(k, open, close) && lacks_other_marks(s) && lacks_earlier_marks(s, k)
}

proof fn lemma_json_turn(s: Seq<char>, k: int, open: Seq<char>, close: Seq<char>)
    requires
        is_json_turn(s, k, open, close),
    ensures
        extraction(s) == Some(json_stage(Scan { text: s, calls: Seq::empty() })),
        forall|j: int|
            0 <= j < k ==> block(s, (#[trigger] json_tags()[j]).0, json_tags()[j].1) is None,
{
    lemma_reaches_json(s);
}

proof fn lemma_json_block(
    lead: Seq<char>,
    inner: Seq<char>,
    rest: Seq<char>,
    k: int,
    open: Seq<char>,
    close: Seq<char>,
    own: Seq<CallView>,
)
    requires
        is_json_turn(lead + (open + inner + close) + rest, k, open, close),
        is_json_turn(lead + rest, k, open, close),
        !mentions(lead, open),
        stands_clear(inner, close),
        with_json(Seq::empty(), trim(inner)) == own,
    ensures
        extraction(lead + (open + inner + close) + rest) == maybe_behind(
            own,
            extraction(lead + rest),
        ),
{
    let s = lead + (open + inner + close) + rest;
    let left = lead + rest;
    let none = Seq::<CallView>::empty();
    let tags = json_tags();
    lemma_json_pair(k, open, close);
    lemma_json_turn(s, k, open, close);
    lemma_json_turn(left, k, open, close);
    lemma_block_at(lead, open, inner, close, rest);
    assert(with_block(none, inner, Syntax::Json) == own);
    assert(call_blocks(Scan { text: s, calls: none }, open, close, Syntax::Json) == call_blocks(
        Scan { text: left, calls: own },
        open,
        close,
        Syntax::Json,
    ));
    lemma_pair_out(s, left, tags, k, Syntax::Json, own);
    lemma_untagged_behind(own, tagged(Scan { text: left, calls: none }, tags, Syntax::Json));
}

/// The first call as JSON between tags is given, and everything else is read as if it
/// were not there.
pub proof fn law_json_call_and_more(
    lead: Seq<char>,
    inner: Seq<char>,
    rest: Seq<char>,
    k: int,
    open: Seq<char>,
    close: Seq<char>,
    call: CallView,
)
    requires
        is_json_turn(lead + (open + inner + close) + rest, k, open, close),
        is_json_turn(lead + rest, k, open, close),
        !mentions(lead, open),
        stands_clear(inner, close),
        states_call(trim(inner), call),
    ensures
        extraction(lead + (open + inner + close) + rest) == maybe_behind(
            seq![call],
            extraction(lead + rest),
        ),
{
    lemma_one(call);
    assert(json_call(trim(inner)) == Some(call));
    lemma_json_block(lead, inner, rest, k, open, close, seq![call]);
}

/// All calls of a JSON array between tags are given, in order, and everything else is
/// read as if it were not there.
pub proof fn law_json_array_and_more(
    lead: Seq<char>,
    inner: Seq<char>,
    rest: Seq<char>,
    k: int,
    open: Seq<char>,
    close: Seq<char>,
    own: Seq<char>,
    calls: Seq<CallView>,
)
    requires
        is_json_turn(lead + (open + inner + close) + rest, k, open, close),
        is_json_turn(lead + rest, k, open, close),
        !mentions(lead, open),
        stands_clear(inner, close),
        json_node(trim(inner), Seq::empty()) == Some(
            NodeView { text: own, shape: Shape::Array(calls.len()) },
        ),
        json_node(trim(inner), "/name"@) is None,
        json_node(trim(inner), "/function/name"@) is None,
        forall|i: int|
            0 <= i < calls.len() ==> item_states_call(trim(inner), i as nat, #[trigger] calls[i]),
    ensures
        extraction(lead + (open + inner + close) + rest) == maybe_behind(
            calls,
            extraction(lead + rest),
        ),
{
    let none = Seq::<CallView>::empty();
    law_each_item_is_a_call(none, trim(inner), own, calls);
    assert(none + calls =~= calls);
    lemma_json_block(lead, inner, rest, k, open, close, calls);
}

/// A block that is no JSON is dropped, and everything else is read as if it were not
/// there.
pub proof fn law_json_block_without_call(
    lead: Seq<char>,
    inner: Seq<char>,
    rest: Seq<char>,
    k: int,
    open: Seq<char>,
    close: Seq<char>,
)
    requires
        is_json_turn(lead + (open + inner + close) + rest, k, open, close),
        is_json_turn(lead + rest, k, open, close),
        !mentions(lead, open),
        stands_clear(inner, close),
        json_node(trim(inner), Seq::empty()) is None,
        json_node(trim(inner), "/name"@) is None,
        json_node(trim(inner), "/function/name"@) is None,
    ensures
        extraction(lead + (open + inner + close) + rest) == extraction(lead + rest),
{
    let none = Seq::<CallView>::empty();
    lemma_json_block(lead, inner, rest, k, open, close, none);
    if let Some(scan) = extraction(lead + rest) {
        assert(none + scan.calls =~= scan.calls);
    }
}

} // verus!
