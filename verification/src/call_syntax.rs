//! Reading one tool call, in JSON or in a syntax close to it.

use vstd::prelude::*;
use vstd::slice::slice_subrange;

use crate::chat::call_object;
use crate::json::are_steady;
use crate::json::found;
use crate::json::gives_back;
use crate::json::insert_plain;
use crate::json::json_at;
use crate::json::json_node;
use crate::json::map_members;
use crate::json::members_text;
use crate::json::nests_within;
use crate::json::new_members;
use crate::json::no_members;
use crate::json::plain_text;
use crate::json::quoted;
use crate::json::written;
use crate::json::Json;
use crate::json::JsonKind;
use crate::json::JsonNode;
use crate::json::NodeView;
use crate::json::Plain;
use crate::json::Shape;
use crate::number::integer_of;
use crate::number::parse_integer;
use crate::number::signed_decimal;
use crate::ollama_types::CallView;
use crate::ollama_types::FunctionCall;
use crate::text::chars_of;
use crate::text::find;
use crate::text::find_from;
use crate::text::is_white;
use crate::text::lemma_find_from;
use crate::text::push_all;
use crate::text::replace_all;
use crate::text::replaced;
use crate::text::same_chars;
use crate::text::search;
use crate::text::split;
use crate::text::split_parts;
use crate::text::string_of;
use crate::text::strip_set;
use crate::text::stripped;
use crate::text::trim;
use crate::text::trimmed;
use crate::text::white;

verus! {

// ---------------------------------------------------------------------------
// Matching braces

/// The index after the brace that closes the first one opened, from index `i`
/// on, with `depth` braces open. Braces inside strings do not count, nor does a
/// character after a backslash.
pub open spec fn close_from(
    s: Seq<char>,
    i: int,
    depth: int,
    in_string: bool,
    escape: bool,
) -> Option<int>
    decreases s.len() - i,
{
    if i >= s.len() {
        None
    } else if escape {
        close_from(s, i + 1, depth, in_string, false)
    } else if s[i] == '\\' {
        close_from(s, i + 1, depth, in_string, true)
    } else if s[i] == '"' {
        close_from(s, i + 1, depth, !in_string, false)
    } else if in_string {
        close_from(s, i + 1, depth, in_string, false)
    } else if s[i] == '{' {
        close_from(s, i + 1, depth + 1, in_string, false)
    } else if s[i] == '}' && depth == 1 {
        Some(i + 1)
    } else if s[i] == '}' {
        close_from(s, i + 1, depth - 1, in_string, false)
    } else {
        close_from(s, i + 1, depth, in_string, false)
    }
}

/// The index after the brace that closes the first one opened from `from` on.
pub open spec fn brace_end(s: Seq<char>, from: int) -> Option<int> {
    match find_from(s, seq!['{'], from) {
        Some(start) => close_from(s, start, 0, false, false),
        None => None,
    }
}

/// The index after the brace that closes the first one opened from `from` on.
pub fn find_matching_brace(s: &[char], from: usize) -> (r: Option<usize>)
    requires
        from <= s@.len(),
    ensures
        match r {
            Some(i) => brace_end(s@, from as int) == Some(i as int) && from < i <= s@.len(),
            None => brace_end(s@, from as int) is None,
        },
{
    proof {
        reveal_strlit("{");
        assert("{"@ =~= seq!['{']);
    }
    let start: usize = match search(s, "{", from) {
        Some(i) => i,
        None => {
            return None;
        },
    };
    proof {
        lemma_find_from(s@, seq!['{'], from as int);
        assert(s@.subrange(start as int, start + 1)[0] == '{');
    }
    let mut i: usize = start;
    let mut depth: usize = 0;
    let mut in_string: bool = false;
    let mut escape: bool = false;
    while i < s.len()
        invariant
            from <= start <= i <= s@.len(),
            start < s@.len(),
            s@[start as int] == '{',
            depth <= i - start,
            i == start ==> depth == 0 && !in_string && !escape,
            i > start ==> depth >= 1,
            brace_end(s@, from as int) == close_from(
                s@,
                i as int,
                depth as int,
                in_string,
                escape,
            ),
        decreases s@.len() - i,
    {
        let c = s[i];
        if escape {
            escape = false;
        } else if c == '\\' {
            escape = true;
        } else if c == '"' {
            in_string = !in_string;
        } else if in_string {
        } else if c == '{' {
            depth = depth + 1;
        } else if c == '}' {
            if depth == 1 {
                return Some(i + 1);
            }
            depth = depth - 1;
        }
        i = i + 1;
    }
    None
}

// ---------------------------------------------------------------------------
// Keys without quotation marks

/// `char::is_alphabetic`, for the characters beyond ASCII.
pub uninterp spec fn char_alphabetic(c: char) -> bool;

/// `char::is_alphanumeric`, for the characters beyond ASCII.
pub uninterp spec fn char_alphanumeric(c: char) -> bool;

/// Calls `char::is_alphabetic`. Claimed: the answer depends on the character
/// alone.
#[verifier::external_body]
fn alphabetic(c: char) -> (r: bool)
    ensures
        r == char_alphabetic(c),
{
    c.is_alphabetic()
}

/// Calls `char::is_alphanumeric`. Claimed: the answer depends on the character
/// alone.
#[verifier::external_body]
fn alphanumeric(c: char) -> (r: bool)
    ensures
        r == char_alphanumeric(c),
{
    c.is_alphanumeric()
}

/// A character with which a word begins; white space is none.
pub open spec fn begins_word(c: char) -> bool {
    if is_white(c) {
        false
    } else if (c as int) < 0x80 {
        'a' <= c <= 'z' || 'A' <= c <= 'Z' || c == '_'
    } else {
        char_alphabetic(c)
    }
}

/// A character with which a word goes on; white space is none.
pub open spec fn continues_word(c: char) -> bool {
    if is_white(c) {
        false
    } else if (c as int) < 0x80 {
        'a' <= c <= 'z' || 'A' <= c <= 'Z' || '0' <= c <= '9' || c == '_'
    } else {
        char_alphanumeric(c)
    }
}

/// The end of the word that goes on at index `i`.
pub open spec fn word_end(s: Seq<char>, i: int) -> int
    decreases s.len() - i,
{
    if i < s.len() && continues_word(s[i]) {
        word_end(s, i + 1)
    } else {
        i
    }
}

/// The end of the white space at index `i`.
pub open spec fn gap_end(s: Seq<char>, i: int) -> int
    decreases s.len() - i,
{
    if i < s.len() && is_white(s[i]) {
        gap_end(s, i + 1)
    } else {
        i
    }
}

/// Where a word ends.
pub proof fn lemma_word_end(s: Seq<char>, i: int)
    ensures
        i <= word_end(s, i),
        i <= s.len() ==> word_end(s, i) <= s.len(),
    decreases s.len() - i,
{
    if i < s.len() && continues_word(s[i]) {
        lemma_word_end(s, i + 1);
    }
}

/// Where white space ends.
pub proof fn lemma_gap_end(s: Seq<char>, i: int)
    ensures
        i <= gap_end(s, i),
        i <= s.len() ==> gap_end(s, i) <= s.len(),
    decreases s.len() - i,
{
    if i < s.len() && is_white(s[i]) {
        lemma_gap_end(s, i + 1);
    }
}

/// The text from index `i` on, with quotation marks put around each word outside
/// strings that a colon follows.
pub open spec fn quote_keys(s: Seq<char>, i: int, in_string: bool, escape: bool) -> Seq<char>
    decreases s.len() - i,
{
    if i < 0 || i >= s.len() {
        Seq::empty()
    } else if in_string {
        let stays = escape || s[i] != '"';
        seq![s[i]] + quote_keys(s, i + 1, stays, !escape && s[i] == '\\')
    } else if s[i] == '"' {
        seq![s[i]] + quote_keys(s, i + 1, true, false)
    } else if begins_word(s[i]) {
        let j = word_end(s, i + 1);
        let k = gap_end(s, j);
        proof {
            lemma_word_end(s, i + 1);
            lemma_gap_end(s, j);
        }
        let word = s.subrange(i, j);
        let marked = if k < s.len() && s[k] == ':' {
            seq!['"'] + word + seq!['"']
        } else {
            word
        };
        marked + s.subrange(j, k) + quote_keys(s, k, false, false)
    } else {
        seq![s[i]] + quote_keys(s, i + 1, false, false)
    }
}

/// Whether a word begins with the character.
fn is_word_start(c: char) -> (r: bool)
    ensures
        r == begins_word(c),
{
    if white(c) {
        false
    } else if (c as u32) < 0x80 {
        ('a' <= c && c <= 'z') || ('A' <= c && c <= 'Z') || c == '_'
    } else {
        alphabetic(c)
    }
}

/// Whether a word goes on with the character.
fn is_word_part(c: char) -> (r: bool)
    ensures
        r == continues_word(c),
{
    if white(c) {
        false
    } else if (c as u32) < 0x80 {
        ('a' <= c && c <= 'z') || ('A' <= c && c <= 'Z') || ('0' <= c && c <= '9') || c == '_'
    } else {
        alphanumeric(c)
    }
}

/// Puts quotation marks around keys that have none: `{foo: "bar"}` becomes
/// `{"foo": "bar"}`.
pub fn quote_unquoted_keys(s: &[char]) -> (r: Vec<char>)
    ensures
        r@ == quote_keys(s@, 0, false, false),
{
    let n: usize = s.len();
    let mut out: Vec<char> = Vec::new();
    let mut i: usize = 0;
    let mut in_string: bool = false;
    let mut escape: bool = false;
    proof {
        assert(Seq::<char>::empty() + quote_keys(s@, 0, false, false) =~= quote_keys(
            s@,
            0,
            false,
            false,
        ));
    }
    while i < n
        invariant
            n == s@.len(),
            i <= n,
            !in_string ==> !escape,
            quote_keys(s@, 0, false, false) == out@ + quote_keys(s@, i as int, in_string, escape),
        decreases n - i,
    {
        let c = s[i];
        let ghost before = out@;
        if in_string {
            let stays: bool = escape || c != '"';
            let next_escape: bool = !escape && c == '\\';
            proof {
                let tail = quote_keys(s@, i + 1, stays, next_escape);
                assert(before + (seq![c] + tail) =~= before.push(c) + tail);
            }
            out.push(c);
            in_string = stays;
            escape = next_escape;
            i = i + 1;
        } else if c == '"' {
            proof {
                let tail = quote_keys(s@, i + 1, true, false);
                assert(before + (seq![c] + tail) =~= before.push(c) + tail);
            }
            out.push(c);
            in_string = true;
            i = i + 1;
        } else if is_word_start(c) {
            let mut j: usize = i + 1;
            while j < n && is_word_part(s[j])
                invariant
                    n == s@.len(),
                    i + 1 <= j <= n,
                    word_end(s@, i + 1) == word_end(s@, j as int),
                decreases n - j,
            {
                j = j + 1;
            }
            let mut k: usize = j;
            while k < n && white(s[k])
                invariant
                    n == s@.len(),
                    j <= k <= n,
                    gap_end(s@, j as int) == gap_end(s@, k as int),
                decreases n - k,
            {
                k = k + 1;
            }
            let key: bool = k < n && s[k] == ':';
            if key {
                out.push('"');
            }
            push_all(&mut out, slice_subrange(s, i, j));
            if key {
                out.push('"');
            }
            push_all(&mut out, slice_subrange(s, j, k));
            proof {
                let word = s@.subrange(i as int, j as int);
                let gap = s@.subrange(j as int, k as int);
                let tail = quote_keys(s@, k as int, false, false);
                let marked = if key {
                    seq!['"'] + word + seq!['"']
                } else {
                    word
                };
                assert(before + (marked + gap + tail) =~= (before + marked + gap) + tail);
                assert(out@ =~= before + marked + gap);
            }
            i = k;
        } else {
            proof {
                let tail = quote_keys(s@, i + 1, false, false);
                assert(before + (seq![c] + tail) =~= before.push(c) + tail);
            }
            out.push(c);
            i = i + 1;
        }
    }
    proof {
        assert(out@ + Seq::<char>::empty() =~= out@);
    }
    out
}

// ---------------------------------------------------------------------------
// Simple key and value pairs

/// The JSON text of a bare value: an integer, a truth value or else a string.
pub open spec fn bare_value(s: Seq<char>) -> Seq<char> {
    match integer_of(s) {
        Some(n) => signed_decimal(n),
        None => if s == "true"@ || s == "false"@ {
            s
        } else {
            quoted(s)
        },
    }
}

/// `members` with the key and the value of `pair`, where it has a colon.
pub open spec fn with_pair(members: Map<Seq<char>, Seq<char>>, pair: Seq<char>) -> Map<
    Seq<char>,
    Seq<char>,
> {
    match find(pair, seq![':']) {
        Some(i) => {
            let key = strip_set(trim(pair.subrange(0, i)), seq!['"']);
            let value = strip_set(trim(pair.subrange(i + 1, pair.len() as int)), seq!['"']);
            members.insert(key, bare_value(value))
        },
        None => members,
    }
}

/// The members that a list of pairs gives, a later one in place of an earlier.
pub open spec fn pairs_members(pairs: Seq<Seq<char>>) -> Map<Seq<char>, Seq<char>>
    decreases pairs.len(),
{
    if pairs.len() == 0 {
        no_members()
    } else {
        with_pair(pairs_members(pairs.drop_last()), pairs.last())
    }
}

/// The members of `{key: value, key: value}`, read without JSON's rules.
pub open spec fn simple_members(s: Seq<char>) -> Map<Seq<char>, Seq<char>> {
    pairs_members(split(strip_set(s, seq!['{', '}']), ','))
}

/// The value that a bare text stands for.
fn read_bare_value(s: &[char]) -> (r: Plain)
    ensures
        plain_text(r) == bare_value(s@),
{
    match parse_integer(s) {
        Some(n) => Plain::Int(n),
        None => {
            let yes = chars_of("true");
            let no = chars_of("false");
            if same_chars(s, yes.as_slice()) {
                Plain::Bool(true)
            } else if same_chars(s, no.as_slice()) {
                Plain::Bool(false)
            } else {
                Plain::Str(string_of(s))
            }
        },
    }
}

/// Reads `{key: value, key: value}` without JSON's rules.
pub fn parse_simple_kv(s: &[char]) -> (r: serde_json::Map<String, serde_json::Value>)
    ensures
        map_members(r) == simple_members(s@),
{
    proof {
        reveal_strlit("{}");
        assert("{}"@ =~= seq!['{', '}']);
        reveal_strlit("\"");
        assert("\""@ =~= seq!['"']);
        reveal_strlit(":");
        assert(":"@ =~= seq![':']);
    }
    let parts = split_parts(stripped(s, "{}"), ',');
    let ghost pairs = split(strip_set(s@, seq!['{', '}']), ',');
    let mut m = new_members();
    let mut i: usize = 0;
    proof {
        assert(pairs.take(0) =~= Seq::<Seq<char>>::empty());
    }
    while i < parts.len()
        invariant
            "\""@ == seq!['"'],
            ":"@ == seq![':'],
            parts@.len() == pairs.len(),
            forall|k: int| 0 <= k < parts@.len() ==> #[trigger] parts@[k]@ == pairs[k],
            i <= parts@.len(),
            map_members(m) == pairs_members(pairs.take(i as int)),
        decreases parts@.len() - i,
    {
        let pair = parts[i].as_slice();
        let n: usize = pair.len();
        proof {
            assert(pair@ == parts@[i as int]@);
            assert(pairs.take(i + 1).drop_last() =~= pairs.take(i as int));
            lemma_find_from(pair@, seq![':'], 0);
        }
        match search(pair, ":", 0) {
            Some(at) => {
                let key = stripped(trimmed(slice_subrange(pair, 0, at)), "\"");
                let value = stripped(trimmed(slice_subrange(pair, at + 1, n)), "\"");
                insert_plain(&mut m, string_of(key), read_bare_value(value));
            },
            None => {},
        }
        i = i + 1;
    }
    proof {
        assert(pairs.take(pairs.len() as int) =~= pairs);
    }
    m
}

// ---------------------------------------------------------------------------
// Reading one call

/// The text of what a lookup found, where it is an object.
pub open spec fn as_object(node: Option<NodeView>) -> Option<Seq<char>> {
    match node {
        Some(n) => if n.shape == Shape::Object {
            Some(n.text)
        } else {
            None
        },
        None => None,
    }
}

/// What a lookup found, where it is a string.
pub open spec fn as_string(node: Option<NodeView>) -> Option<Seq<char>> {
    match node {
        Some(n) => match n.shape {
            Shape::Str(s) => Some(s),
            _ => None,
        },
        None => None,
    }
}

/// The arguments of a call from what a lookup found and from what its contents,
/// where it is a string, read as JSON: an object as it is, a string as what it
/// reads as, and anything else as an object without members.
pub open spec fn as_arguments(node: Option<NodeView>, inner: Option<NodeView>) -> Seq<char> {
    match (as_object(node), as_string(node), inner) {
        (Some(t), _, _) => t,
        (None, Some(_), Some(n)) => n.text,
        _ => members_text(no_members()),
    }
}

/// The call with the name and arguments that an object has itself, or else with
/// those of its `function`.
pub open spec fn as_call(
    name: Option<NodeView>,
    arguments: Seq<char>,
    function_name: Option<NodeView>,
    function_arguments: Seq<char>,
) -> Option<CallView> {
    match (as_string(name), as_string(function_name)) {
        (Some(n), _) => Some(CallView { name: n, arguments }),
        (None, Some(n)) => Some(CallView { name: n, arguments: function_arguments }),
        (None, None) => None,
    }
}

/// The value of a whole JSON text.
pub open spec fn whole(s: Seq<char>) -> Option<NodeView> {
    json_node(s, Seq::empty())
}

/// The value of a whole JSON text, where it is an object.
pub open spec fn object_in(s: Seq<char>) -> Option<Seq<char>> {
    as_object(whole(s))
}

/// The arguments in `{...}`, in JSON or close to it: with quotation marks written
/// as `<|"|>`, with keys that have none, or as bare pairs.
pub open spec fn loose_arguments(s: Seq<char>) -> Seq<char> {
    let plain = replace_all(s, "<|\"|>"@, seq!['"']);
    match object_in(plain) {
        Some(t) => t,
        None => match object_in(quote_keys(plain, 0, false, false)) {
            Some(t) => t,
            None => members_text(simple_members(plain)),
        },
    }
}

/// The call that `name{...}` stands for.
pub open spec fn gemma_call(s: Seq<char>) -> Option<CallView> {
    match find(s, seq!['{']) {
        Some(i) => {
            let name = trim(s.subrange(0, i));
            if name.len() == 0 {
                None
            } else {
                Some(
                    CallView {
                        name,
                        arguments: loose_arguments(trim(s.subrange(i, s.len() as int))),
                    },
                )
            }
        },
        None => None,
    }
}

/// The arguments at a place of a JSON text.
pub open spec fn arguments_at(text: Seq<char>, pointer: Seq<char>) -> Seq<char> {
    let node = json_node(text, pointer);
    let inner = match as_string(node) {
        Some(s) => whole(s),
        None => None,
    };
    as_arguments(node, inner)
}

/// The call that a JSON object stands for: its `name` and `arguments`, or those
/// of its `function`.
pub open spec fn json_call(text: Seq<char>) -> Option<CallView> {
    as_call(
        json_node(text, "/name"@),
        arguments_at(text, "/arguments"@),
        json_node(text, "/function/name"@),
        arguments_at(text, "/function/arguments"@),
    )
}

/// The mathematical form of what reading a call gave.
pub open spec fn call_found(r: Option<FunctionCall>) -> Option<CallView> {
    match r {
        Some(c) => Some(c@),
        None => None,
    }
}

/// What a lookup found, where it is an object.
pub fn object_of(node: Option<JsonNode>) -> (r: Option<Json>)
    ensures
        match r {
            Some(v) => as_object(found(node)) == Some(v@),
            None => as_object(found(node)) is None,
        },
{
    match node {
        Some(n) => match n.kind {
            JsonKind::Object => Some(Json::of_node(n)),
            _ => None,
        },
        None => None,
    }
}

/// What a lookup found, where it is a string.
pub fn string_in(node: Option<JsonNode>) -> (r: Option<String>)
    ensures
        match r {
            Some(s) => as_string(found(node)) == Some(s@),
            None => as_string(found(node)) is None,
        },
{
    match node {
        Some(n) => match n.kind {
            JsonKind::Str(s) => Some(s),
            _ => None,
        },
        None => None,
    }
}

/// The arguments of a call, from what a lookup found and from what its contents
/// read as.
pub fn arguments_of(node: Option<JsonNode>, inner: Option<JsonNode>) -> (r: Json)
    ensures
        r@ == as_arguments(found(node), found(inner)),
{
    match node {
        Some(n) => match n.kind {
            JsonKind::Object => Json::of_node(n),
            JsonKind::Str(_) => match inner {
                Some(v) => Json::of_node(v),
                None => empty_object(),
            },
            _ => empty_object(),
        },
        None => empty_object(),
    }
}

/// The call with the name and arguments of an object, or of its `function`.
pub fn call_of(
    name: Option<JsonNode>,
    arguments: Json,
    function_name: Option<JsonNode>,
    function_arguments: Json,
) -> (r: Option<FunctionCall>)
    ensures
        call_found(r) == as_call(
            found(name),
            arguments@,
            found(function_name),
            function_arguments@,
        ),
{
    match string_in(name) {
        Some(n) => Some(FunctionCall { name: n, arguments }),
        None => match string_in(function_name) {
            Some(n) => Some(FunctionCall { name: n, arguments: function_arguments }),
            None => None,
        },
    }
}

/// Reads a whole JSON text.
pub(crate) fn read_whole(s: &str) -> (r: Option<JsonNode>)
    ensures
        found(r) == whole(s@),
{
    proof {
        reveal_strlit("");
        assert(""@ =~= Seq::<char>::empty());
    }
    json_at(s, "")
}

/// Reads a JSON text that has to be an object.
pub(crate) fn read_object(s: &[char]) -> (r: Option<Json>)
    ensures
        match r {
            Some(v) => object_in(s@) == Some(v@),
            None => object_in(s@) is None,
        },
{
    let text = string_of(s);
    object_of(read_whole(text.as_str()))
}

/// Reads the arguments in `{...}`.
fn read_loose_arguments(s: &[char]) -> (r: Json)
    ensures
        r@ == loose_arguments(s@),
{
    proof {
        reveal_strlit("\"");
        assert("\""@ =~= seq!['"']);
    }
    let plain = replaced(s, "<|\"|>", "\"");
    match read_object(plain.as_slice()) {
        Some(v) => v,
        None => {
            let fixed = quote_unquoted_keys(plain.as_slice());
            match read_object(fixed.as_slice()) {
                Some(v) => v,
                None => {
                    let m = parse_simple_kv(plain.as_slice());
                    Json::of_members(&m)
                },
            }
        },
    }
}

/// Reads `name{...}`.
pub fn parse_gemma_call(s: &[char]) -> (r: Option<FunctionCall>)
    ensures
        call_found(r) == gemma_call(s@),
{
    proof {
        reveal_strlit("{");
        assert("{"@ =~= seq!['{']);
    }
    match search(s, "{", 0) {
        Some(i) => {
            let name = trimmed(slice_subrange(s, 0, i));
            if name.len() == 0 {
                return None;
            }
            let arguments = read_loose_arguments(trimmed(slice_subrange(s, i, s.len())));
            Some(FunctionCall { name: string_of(name), arguments })
        },
        None => None,
    }
}

/// An object without members.
fn empty_object() -> (r: Json)
    ensures
        r@ == members_text(no_members()),
{
    let m = new_members();
    Json::of_members(&m)
}

/// Reads the arguments at a place of a JSON text.
fn read_arguments(text: &str, pointer: &str) -> (r: Json)
    ensures
        r@ == arguments_at(text@, pointer@),
        gives_back(text@, pointer@, json_node(text@, pointer@)),
{
    let node = json_at(text, pointer);
    let inner = match &node {
        Some(n) => match &n.kind {
            JsonKind::Str(s) => read_whole(s.as_str()),
            _ => None,
        },
        None => None,
    };
    arguments_of(node, inner)
}

/// The arguments of a call are an object that is read as it is written, and nest
/// no deeper than can be read within another object.
pub open spec fn is_steady_call(call: CallView) -> bool {
    is_object_text(call.arguments) && nests_within(call.arguments, 0, 0, false, false, 126)
}

/// The compact text of a JSON object that is read as it is written.
pub open spec fn is_object_text(s: Seq<char>) -> bool {
    whole(s) == Some(NodeView { text: s, shape: Shape::Object })
}

/// Where the text is that of a call, the call is read from it.
pub open spec fn reads_back(text: Seq<char>) -> bool {
    forall|call: CallView|
        text == call_object(call) && #[trigger] is_steady_call(call) ==> json_call(text) == Some(
            call,
        )
}

/// What a lookup in the text of a call gives.
proof fn lemma_call_members(call: CallView, pointer: Seq<char>, node: Option<NodeView>)
    requires
        gives_back(call_object(call), pointer, node),
        is_steady_call(call),
    ensures
        pointer == "/name"@ ==> node == Some(
            NodeView { text: quoted(call.name), shape: Shape::Str(call.name) },
        ),
        pointer == "/arguments"@ ==> node == Some(
            NodeView { text: call.arguments, shape: Shape::Object },
        ),
{
    let members = seq![
        ("arguments"@, NodeView { text: call.arguments, shape: Shape::Object }),
        ("name"@, NodeView { text: quoted(call.name), shape: Shape::Str(call.name) }),
    ];
    reveal_strlit("name");
    reveal_strlit("arguments");
    reveal_strlit("/name");
    reveal_strlit("/arguments");
    assert(written(members) =~= seq![
        ("arguments"@, call.arguments),
        ("name"@, quoted(call.name)),
    ]);
    assert(are_steady(members));
    assert("/arguments"@ =~= seq!['/'] + members[0].0);
    assert("/name"@ =~= seq!['/'] + members[1].0);
}

/// Reads a JSON object that stands for a call. A call that was written with
/// arguments that are read as they are written is given back.
pub fn parse_json_tool_call(text: &str) -> (r: Option<FunctionCall>)
    ensures
        call_found(r) == json_call(text@),
        reads_back(text@),
{
    let name = json_at(text, "/name");
    let arguments = read_arguments(text, "/arguments");
    proof {
        assert forall|call: CallView|
            text@ == call_object(call) && #[trigger] is_steady_call(call) implies json_call(text@)
            == Some(call) by {
            lemma_call_members(call, "/name"@, json_node(text@, "/name"@));
            lemma_call_members(call, "/arguments"@, json_node(text@, "/arguments"@));
        }
    }
    call_of(
        name,
        arguments,
        json_at(text, "/function/name"),
        read_arguments(text, "/function/arguments"),
    )
}

// ---------------------------------------------------------------------------
// Values that may be plain text

/// The value that a text stands for: what it is in JSON, or else the text itself
/// as a string.
pub open spec fn value_of(text: Seq<char>) -> Seq<char> {
    match whole(text) {
        Some(n) => n.text,
        None => quoted(text),
    }
}

/// What a text was read as, or else the text itself as a string.
pub fn value_or_string(parsed: Option<Json>, text: &str) -> (r: Json)
    ensures
        r@ == (match parsed {
            Some(value) => value@,
            None => quoted(text@),
        }),
{
    match parsed {
        Some(value) => value,
        None => Json::string(text),
    }
}

/// Reads the value that a text stands for.
pub fn read_value(text: &str) -> (r: Json)
    ensures
        r@ == value_of(text@),
{
    value_or_string(Json::parse(text), text)
}

// ---------------------------------------------------------------------------
// Laws of putting quotation marks around keys

/// Stretches of a text from index `from` on, each a pair of indices, one after the
/// other.
pub open spec fn are_stretches(spans: Seq<(int, int)>, s: Seq<char>, from: int) -> bool
    decreases spans.len(),
{
    if spans.len() == 0 {
        from <= s.len()
    } else {
        from <= spans[0].0 < spans[0].1 <= s.len() && are_stretches(spans.skip(1), s, spans[0].1)
    }
}

/// The text from index `from` on with a pair of quotation marks around each of the
/// stretches.
pub open spec fn marked(s: Seq<char>, from: int, spans: Seq<(int, int)>) -> Seq<char>
    decreases spans.len(),
{
    if spans.len() == 0 {
        s.skip(from)
    } else {
        let (a, b) = spans[0];
        s.subrange(from, a) + seq!['"'] + s.subrange(a, b) + seq!['"'] + marked(
            s,
            b,
            spans.skip(1),
        )
    }
}

/// Each of the stretches is a word that a colon follows, with or without white
/// space before it.
pub open spec fn are_keys(spans: Seq<(int, int)>, s: Seq<char>) -> bool {
    forall|n: int|
        0 <= n < spans.len() ==> {
            let (a, b) = #[trigger] spans[n];
            &&& 0 <= a < b <= s.len()
            &&& begins_word(s[a])
            &&& b == word_end(s, a + 1)
            &&& gap_end(s, b) < s.len() && s[gap_end(s, b)] == ':'
        }
}

/// The marks from index `j` on also mark the text from an earlier index on: what
/// stands between is kept.
proof fn lemma_marked_from(s: Seq<char>, i: int, j: int, spans: Seq<(int, int)>)
    requires
        0 <= i <= j <= s.len(),
        are_stretches(spans, s, j),
    ensures
        are_stretches(spans, s, i),
        marked(s, i, spans) == s.subrange(i, j) + marked(s, j, spans),
{
    if spans.len() == 0 {
        assert(s.skip(i) =~= s.subrange(i, j) + s.skip(j));
    } else {
        let (a, b) = spans[0];
        assert(s.subrange(i, a) =~= s.subrange(i, j) + s.subrange(j, a));
        assert(marked(s, i, spans) =~= s.subrange(i, j) + marked(s, j, spans));
    }
}

proof fn lemma_marks(s: Seq<char>, i: int, in_string: bool, escape: bool) -> (spans: Seq<(int, int)>)
    requires
        0 <= i <= s.len(),
    ensures
        are_stretches(spans, s, i),
        are_keys(spans, s),
        quote_keys(s, i, in_string, escape) == marked(s, i, spans),
    decreases s.len() - i,
{
    if i == s.len() {
        assert(s.skip(i) =~= Seq::<char>::empty());
        Seq::empty()
    } else if !in_string && s[i] != '"' && begins_word(s[i]) {
        let j = word_end(s, i + 1);
        let k = gap_end(s, j);
        lemma_word_end(s, i + 1);
        lemma_gap_end(s, j);
        let rest = lemma_marks(s, k, false, false);
        if k < s.len() && s[k] == ':' {
            let spans = seq![(i, j)] + rest;
            assert(spans.skip(1) =~= rest);
            lemma_marked_from(s, j, k, rest);
            assert forall|n: int| 0 <= n < spans.len() implies {
                let (a, b) = #[trigger] spans[n];
                &&& 0 <= a < b <= s.len()
                &&& begins_word(s[a])
                &&& b == word_end(s, a + 1)
                &&& gap_end(s, b) < s.len() && s[gap_end(s, b)] == ':'
            } by {
                if n > 0 {
                    assert(spans[n] == rest[n - 1]);
                }
            }
            assert(quote_keys(s, i, in_string, escape) =~= marked(s, i, spans));
            spans
        } else {
            lemma_marked_from(s, i, k, rest);
            assert(s.subrange(i, k) =~= s.subrange(i, j) + s.subrange(j, k));
            assert(quote_keys(s, i, in_string, escape) =~= marked(s, i, rest));
            rest
        }
    } else {
        let (next, after) = if in_string {
            (escape || s[i] != '"', !escape && s[i] == '\\')
        } else {
            (s[i] == '"', false)
        };
        let rest = lemma_marks(s, i + 1, next, after);
        lemma_marked_from(s, i, i + 1, rest);
        assert(s.subrange(i, i + 1) =~= seq![s[i]]);
        rest
    }
}

/// Only pairs of quotation marks are added, each around a word that a colon
/// follows: without them the text is what it was.
pub proof fn law_only_keys_are_marked(s: Seq<char>)
    ensures
        exists|spans: Seq<(int, int)>| #[trigger]
            are_stretches(spans, s, 0) && are_keys(spans, s) && quote_keys(s, 0, false, false)
                == marked(s, 0, spans),
{
    let spans = lemma_marks(s, 0, false, false);
    assert(are_stretches(spans, s, 0));
}

proof fn lemma_word_shift(a: Seq<char>, b: Seq<char>, i: int)
    requires
        0 <= i <= b.len(),
    ensures
        word_end(a + b, a.len() + i) == a.len() + word_end(b, i),
    decreases b.len() - i,
{
    if i < b.len() && continues_word(b[i]) {
        assert((a + b)[a.len() + i] == b[i]);
        lemma_word_shift(a, b, i + 1);
    }
}

proof fn lemma_gap_shift(a: Seq<char>, b: Seq<char>, i: int)
    requires
        0 <= i <= b.len(),
    ensures
        gap_end(a + b, a.len() + i) == a.len() + gap_end(b, i),
    decreases b.len() - i,
{
    if i < b.len() && is_white(b[i]) {
        assert((a + b)[a.len() + i] == b[i]);
        lemma_gap_shift(a, b, i + 1);
    }
}

/// What is done with the rest of a text does not depend on what stands before it.
pub(crate) proof fn lemma_quote_shift(a: Seq<char>, b: Seq<char>, i: int, in_string: bool, escape: bool)
    requires
        0 <= i <= b.len(),
    ensures
        quote_keys(a + b, a.len() + i, in_string, escape) == quote_keys(b, i, in_string, escape),
    decreases b.len() - i,
{
    let s = a + b;
    if i < b.len() {
        assert(s[a.len() + i] == b[i]);
        if !in_string && b[i] != '"' && begins_word(b[i]) {
            let j = word_end(b, i + 1);
            let k = gap_end(b, j);
            lemma_word_end(b, i + 1);
            lemma_gap_end(b, j);
            lemma_word_shift(a, b, i + 1);
            lemma_gap_shift(a, b, j);
            lemma_quote_shift(a, b, k, false, false);
            assert(s.subrange(a.len() + i, a.len() + j) =~= b.subrange(i, j));
            assert(s.subrange(a.len() + j, a.len() + k) =~= b.subrange(j, k));
        } else {
            lemma_quote_shift(a, b, i + 1, true, true);
            lemma_quote_shift(a, b, i + 1, true, false);
            lemma_quote_shift(a, b, i + 1, false, true);
            lemma_quote_shift(a, b, i + 1, false, false);
        }
    }
}

/// The text before the rest, in a string: it is passed over as it is.
pub(crate) proof fn lemma_quote_string(word: Seq<char>, rest: Seq<char>)
    requires
        forall|n: int| 0 <= n < word.len() ==> (#[trigger] word[n]) != '"' && word[n] != '\\',
    ensures
        quote_keys(word + rest, 0, true, false) == word + quote_keys(rest, 0, true, false),
    decreases word.len(),
{
    if word.len() == 0 {
        assert(word + rest =~= rest);
        assert(word + quote_keys(rest, 0, true, false) =~= quote_keys(rest, 0, true, false));
    } else {
        let tail = word.skip(1);
        let first = seq![word[0]];
        assert forall|n: int| 0 <= n < tail.len() implies (#[trigger] tail[n]) != '"' && tail[n]
            != '\\' by {
            assert(tail[n] == word[n + 1]);
        }
        lemma_quote_string(tail, rest);
        assert(word + rest =~= first + (tail + rest));
        assert((word + rest)[0] == word[0]);
        lemma_quote_shift(first, tail + rest, 0, true, false);
        assert(first + (tail + quote_keys(rest, 0, true, false)) =~= word + quote_keys(
            rest,
            0,
            true,
            false,
        ));
    }
}

/// White space before the rest, outside strings: it is passed over as it is.
pub(crate) proof fn lemma_quote_gap(gap: Seq<char>, rest: Seq<char>)
    requires
        forall|n: int| 0 <= n < gap.len() ==> is_white(#[trigger] gap[n]),
    ensures
        quote_keys(gap + rest, 0, false, false) == gap + quote_keys(rest, 0, false, false),
    decreases gap.len(),
{
    if gap.len() == 0 {
        assert(gap + rest =~= rest);
        assert(gap + quote_keys(rest, 0, false, false) =~= quote_keys(rest, 0, false, false));
    } else {
        let tail = gap.skip(1);
        let first = seq![gap[0]];
        assert forall|n: int| 0 <= n < tail.len() implies is_white(#[trigger] tail[n]) by {
            assert(tail[n] == gap[n + 1]);
        }
        lemma_quote_gap(tail, rest);
        assert(gap + rest =~= first + (tail + rest));
        assert((gap + rest)[0] == gap[0]);
        assert(is_white(gap[0]));
        lemma_quote_shift(first, tail + rest, 0, false, false);
        assert(first + (tail + quote_keys(rest, 0, false, false)) =~= gap + quote_keys(
            rest,
            0,
            false,
            false,
        ));
    }
}

/// What a word and the white space after it are made of, and what ends them.
proof fn lemma_word_parts(s: Seq<char>, i: int)
    requires
        0 <= i <= s.len(),
    ensures
        ({
            let j = word_end(s, i);
            let k = gap_end(s, j);
            &&& i <= j <= k <= s.len()
            &&& forall|n: int| i <= n < j ==> continues_word(#[trigger] s[n])
            &&& forall|n: int| j <= n < k ==> is_white(#[trigger] s[n])
            &&& j < s.len() ==> !continues_word(s[j])
            &&& k < s.len() ==> !is_white(s[k])
        }),
{
    lemma_word_all(s, i);
    lemma_gap_all(s, word_end(s, i));
}

proof fn lemma_word_all(s: Seq<char>, i: int)
    requires
        0 <= i <= s.len(),
    ensures
        i <= word_end(s, i) <= s.len(),
        forall|n: int| i <= n < word_end(s, i) ==> continues_word(#[trigger] s[n]),
        word_end(s, i) < s.len() ==> !continues_word(s[word_end(s, i)]),
    decreases s.len() - i,
{
    if i < s.len() && continues_word(s[i]) {
        lemma_word_all(s, i + 1);
    }
}

proof fn lemma_gap_all(s: Seq<char>, i: int)
    requires
        0 <= i <= s.len(),
    ensures
        i <= gap_end(s, i) <= s.len(),
        forall|n: int| i <= n < gap_end(s, i) ==> is_white(#[trigger] s[n]),
        gap_end(s, i) < s.len() ==> !is_white(s[gap_end(s, i)]),
    decreases s.len() - i,
{
    if i < s.len() && is_white(s[i]) {
        lemma_gap_all(s, i + 1);
    }
}

/// A word that ends where something else begins is found whole.
pub(crate) proof fn lemma_word_of(word: Seq<char>, rest: Seq<char>, i: int)
    requires
        0 <= i <= word.len(),
        forall|n: int| i <= n < word.len() ==> continues_word(#[trigger] word[n]),
        rest.len() > 0 ==> !continues_word(rest[0]),
    ensures
        word_end(word + rest, i) == word.len(),
    decreases word.len() - i,
{
    let s = word + rest;
    if i < word.len() {
        assert(s[i] == word[i]);
        lemma_word_of(word, rest, i + 1);
    } else if rest.len() > 0 {
        assert(s[i] == rest[0]);
    }
}

/// White space that ends where something else begins is found whole.
pub(crate) proof fn lemma_gap_of(front: Seq<char>, gap: Seq<char>, rest: Seq<char>, i: int)
    requires
        0 <= i <= gap.len(),
        forall|n: int| i <= n < gap.len() ==> is_white(#[trigger] gap[n]),
        rest.len() > 0 ==> !is_white(rest[0]),
    ensures
        gap_end(front + gap + rest, front.len() + i) == front.len() + gap.len(),
    decreases gap.len() - i,
{
    let s = front + gap + rest;
    if i < gap.len() {
        assert(s[front.len() + i] == gap[i]);
        lemma_gap_of(front, gap, rest, i + 1);
    } else if rest.len() > 0 {
        assert(s[front.len() + i] == rest[0]);
    }
}

/// What is made of a text begins with the first character of the text or with a
/// quotation mark; a colon stays a colon.
proof fn lemma_quote_first(s: Seq<char>, i: int)
    requires
        0 <= i < s.len(),
    ensures
        ({
            let t = quote_keys(s, i, false, false);
            t.len() > 0 && (t[0] == s[i] || t[0] == '"')
        }),
{
    if s[i] != '"' && begins_word(s[i]) {
        lemma_word_parts(s, i + 1);
    }
}

proof fn lemma_quote_twice(s: Seq<char>, i: int, in_string: bool, escape: bool)
    requires
        0 <= i <= s.len(),
    ensures
        ({
            let t = quote_keys(s, i, in_string, escape);
            quote_keys(t, 0, in_string, escape) == t
        }),
    decreases s.len() - i,
{
    let t = quote_keys(s, i, in_string, escape);
    if i == s.len() {
        assert(t =~= Seq::<char>::empty());
    } else if !in_string && s[i] != '"' && begins_word(s[i]) {
        let j = word_end(s, i + 1);
        let k = gap_end(s, j);
        lemma_word_parts(s, i + 1);
        lemma_quote_twice(s, k, false, false);
        let word = s.subrange(i, j);
        let gap = s.subrange(j, k);
        let rest = quote_keys(s, k, false, false);
        assert(word[0] == s[i]);
        assert forall|n: int| 1 <= n < word.len() implies continues_word(#[trigger] word[n]) by {
            assert(word[n] == s[i + n]);
        }
        assert forall|n: int| 0 <= n < gap.len() implies is_white(#[trigger] gap[n]) by {
            assert(gap[n] == s[j + n]);
        }
        let key = k < s.len() && s[k] == ':';
        if key {
            let quote = seq!['"'];
            let inner = word + (quote + (gap + rest));
            assert(t =~= quote + inner);
            assert forall|n: int| 0 <= n < word.len() implies (#[trigger] word[n]) != '"' && word[n]
                != '\\' by {
                if n > 0 {
                    assert(continues_word(word[n]));
                }
            }
            lemma_quote_shift(quote, inner, 0, true, false);
            assert(t[0] == '"');
            lemma_quote_string(word, quote + (gap + rest));
            assert((quote + (gap + rest))[0] == '"');
            lemma_quote_shift(quote, gap + rest, 0, false, false);
            lemma_quote_gap(gap, rest);
            assert(quote_keys(t, 0, false, false) =~= t);
        } else {
            assert(t =~= word + gap + rest);
            if k < s.len() {
                lemma_quote_first(s, k);
            } else {
                assert(rest =~= Seq::<char>::empty());
            }
            let tail = gap + rest;
            assert(word + tail =~= t);
            if gap.len() > 0 {
                assert(tail[0] == gap[0] && is_white(gap[0]));
            } else if rest.len() > 0 {
                assert(tail[0] == rest[0]);
                assert(k == j);
            }
            lemma_word_of(word, tail, 1);
            lemma_gap_of(word, gap, rest, 0);
            let m = word.len() + gap.len();
            assert(t[0] == word[0]);
            assert(m < t.len() ==> t[m as int] == rest[0]);
            lemma_quote_shift(word + gap, rest, 0, false, false);
            assert(t.subrange(0, word.len() as int) =~= word);
            assert(t.subrange(word.len() as int, m as int) =~= gap);
            assert(quote_keys(t, 0, false, false) =~= t);
        }
    } else {
        let (next, after) = if in_string {
            (escape || s[i] != '"', !escape && s[i] == '\\')
        } else {
            (s[i] == '"', false)
        };
        let rest = quote_keys(s, i + 1, next, after);
        let first = seq![s[i]];
        lemma_quote_twice(s, i + 1, next, after);
        assert(t =~= first + rest);
        assert(t[0] == s[i]);
        lemma_quote_shift(first, rest, 0, next, after);
    }
}

/// To put quotation marks around the keys of a text twice gives what once gives.
pub proof fn law_marking_keys_twice_is_once(s: Seq<char>)
    ensures
        quote_keys(quote_keys(s, 0, false, false), 0, false, false) == quote_keys(
            s,
            0,
            false,
            false,
        ),
{
    lemma_quote_twice(s, 0, false, false);
}

} // verus!
