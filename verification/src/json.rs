//! JSON, as `serde_json` reads and writes it.
//!
//! A JSON value is held as its compact text. What stands inside a text is
//! addressed by a JSON pointer, so that every value is read from the text that
//! it came with.

use vstd::prelude::*;

use crate::number::decimal;
use crate::number::digit;
use crate::number::push_digits;
use crate::number::signed_decimal;
use crate::text::copy_str;
use crate::text::lemma_precedes_total;
use crate::text::precedes;

verus! {

// ---------------------------------------------------------------------------
// What is read of a JSON text

/// What kind of value stands at a place of a JSON text.
pub enum JsonKind {
    Null,
    Bool,
    Number,
    /// A string, with its contents.
    Str(String),
    /// An array, with the number of its items.
    Array(usize),
    Object,
}

/// A value at a place of a JSON text: its compact text and its kind.
pub struct JsonNode {
    pub text: String,
    pub kind: JsonKind,
}

/// The mathematical form of a [`JsonKind`].
pub enum Shape {
    Null,
    Bool,
    Number,
    Str(Seq<char>),
    Array(nat),
    Object,
}

/// The mathematical form of a [`JsonNode`].
pub struct NodeView {
    pub text: Seq<char>,
    pub shape: Shape,
}

impl View for JsonKind {
    type V = Shape;

    open spec fn view(&self) -> Shape {
        match *self {
            JsonKind::Null => Shape::Null,
            JsonKind::Bool => Shape::Bool,
            JsonKind::Number => Shape::Number,
            JsonKind::Str(s) => Shape::Str(s@),
            JsonKind::Array(n) => Shape::Array(n as nat),
            JsonKind::Object => Shape::Object,
        }
    }
}

impl View for JsonNode {
    type V = NodeView;

    open spec fn view(&self) -> NodeView {
        NodeView { text: self.text@, shape: self.kind@ }
    }
}

/// The mathematical form of what a lookup gave.
pub open spec fn found(r: Option<JsonNode>) -> Option<NodeView> {
    match r {
        Some(n) => Some(n@),
        None => None,
    }
}

/// The value that `serde_json` reads from `text` at the place that the JSON
/// pointer `pointer` names: its compact text and its kind. None where `text` is
/// no JSON or nothing stands at that place.
pub uninterp spec fn json_node(text: Seq<char>, pointer: Seq<char>) -> Option<NodeView>;

/// Arrays and objects stand in one another no deeper than `limit` in a JSON text
/// from index `i` on, where `depth` of them are open before it.
pub open spec fn nests_within(
    s: Seq<char>,
    i: int,
    depth: int,
    in_string: bool,
    escape: bool,
    limit: int,
) -> bool
    decreases s.len() - i,
{
    if i < 0 || i >= s.len() {
        true
    } else if in_string {
        let stays = escape || s[i] != '"';
        nests_within(s, i + 1, depth, stays, !escape && s[i] == '\\', limit)
    } else if s[i] == '{' || s[i] == '[' {
        depth < limit && nests_within(s, i + 1, depth + 1, false, false, limit)
    } else if s[i] == '}' || s[i] == ']' {
        nests_within(s, i + 1, depth - 1, false, false, limit)
    } else {
        nests_within(s, i + 1, depth, s[i] == '"', false, limit)
    }
}

/// A value that is read as it is written, in an object as well: a string, or a
/// value that its own text gives and that nests arrays and objects no deeper than
/// 126 levels, one less than `serde_json` reads.
pub open spec fn is_steady(value: NodeView) -> bool {
    ||| value.shape matches Shape::Str(s) && value.text == quoted(s)
    ||| json_node(value.text, Seq::empty()) == Some(value) && nests_within(
        value.text,
        0,
        0,
        false,
        false,
        126,
    )
}

/// Members of an object, each a key and its value, that are read as they are
/// written: no key stands twice, and none holds a character that pointers or
/// `serde_json` itself take for a sign.
pub open spec fn are_steady(members: Seq<(Seq<char>, NodeView)>) -> bool {
    &&& forall|i: int|
        0 <= i < members.len() ==> is_steady((#[trigger] members[i]).1) && !members[i].0.contains(
            '/',
        ) && !members[i].0.contains('~') && !members[i].0.contains('$')
    &&& forall|i: int, j: int|
        0 <= i < j < members.len() ==> (#[trigger] members[i]).0 != (#[trigger] members[j]).0
}

/// The keys and the texts of the values of an object's members.
pub open spec fn written(members: Seq<(Seq<char>, NodeView)>) -> Seq<(Seq<char>, Seq<char>)> {
    Seq::new(members.len(), |i: int| (members[i].0, members[i].1.text))
}

/// Where `text` is that of an object, `node` is the member that `pointer` names.
pub open spec fn gives_back(text: Seq<char>, pointer: Seq<char>, node: Option<NodeView>) -> bool {
    forall|members: Seq<(Seq<char>, NodeView)>, i: int|
        #![trigger are_steady(members), members[i]]
        are_steady(members) && text == object_text(written(members)) && 0 <= i < members.len()
            && pointer == seq!['/'] + members[i].0 ==> node == Some(members[i].1)
}

/// Calls `serde_json::from_str` for a `Value`, `Value::pointer` and the compact
/// `Value::to_string`. Claimed: what they give depends on the two texts alone, and
/// of the text of an object they give back each member as it was written, where
/// the members are such as are read as they are written.
#[verifier::external_body]
pub(crate) fn json_at(text: &str, pointer: &str) -> (r: Option<JsonNode>)
    ensures
        found(r) == json_node(text@, pointer@),
        gives_back(text@, pointer@, found(r)),
{
    let root: serde_json::Value = serde_json::from_str(text).ok()?;
    let value = root.pointer(pointer)?;
    let kind = match value {
        serde_json::Value::Null => JsonKind::Null,
        serde_json::Value::Bool(_) => JsonKind::Bool,
        serde_json::Value::Number(_) => JsonKind::Number,
        serde_json::Value::String(s) => JsonKind::Str(s.clone()),
        serde_json::Value::Array(items) => JsonKind::Array(items.len()),
        serde_json::Value::Object(_) => JsonKind::Object,
    };
    Some(JsonNode { text: value.to_string(), kind })
}

/// The pointer to an item of an array.
pub open spec fn item_pointer(i: nat) -> Seq<char> {
    seq!['/'] + decimal(i)
}

/// Appends the pointer to an item of an array.
pub(crate) fn push_item(place: &mut Vec<char>, i: usize)
    ensures
        final(place)@ == old(place)@ + item_pointer(i as nat),
{
    let ghost start = place@;
    place.push('/');
    push_digits(place, i as u128, 10);
    proof {
        assert(place@ =~= start + item_pointer(i as nat));
    }
}

/// The views of a list of strings.
pub open spec fn texts(list: Seq<String>) -> Seq<Seq<char>> {
    Seq::new(list.len(), |i: int| list[i]@)
}

/// The indented text that `serde_json` writes for the list of the values at the
/// given places of `text`.
pub uninterp spec fn json_pretty_list(text: Seq<char>, pointers: Seq<Seq<char>>) -> Seq<char>;

/// Calls `serde_json::to_string_pretty` on the list of the values that
/// `Value::pointer` finds in `text`. Claimed: the text depends on `text` and on
/// the pointers alone.
#[verifier::external_body]
pub(crate) fn pretty_list(text: &str, pointers: &Vec<String>) -> (r: String)
    ensures
        r@ == json_pretty_list(text@, texts(pointers@)),
{
    let root: serde_json::Value = serde_json::from_str(text).unwrap_or_default();
    let items: Vec<Option<&serde_json::Value>> = pointers.iter().map(|p| root.pointer(p)).collect();
    serde_json::to_string_pretty(&items).unwrap_or_default()
}

// ---------------------------------------------------------------------------
// Strings

/// How a character stands inside a JSON string.
pub open spec fn escape(c: char) -> Seq<char> {
    if c == '"' || c == '\\' {
        seq!['\\', c]
    } else if c == '\u{8}' {
        seq!['\\', 'b']
    } else if c == '\u{9}' {
        seq!['\\', 't']
    } else if c == '\u{a}' {
        seq!['\\', 'n']
    } else if c == '\u{c}' {
        seq!['\\', 'f']
    } else if c == '\u{d}' {
        seq!['\\', 'r']
    } else if (c as int) < 32 {
        seq!['\\', 'u', '0', '0', digit(c as int / 16), digit(c as int % 16)]
    } else {
        seq![c]
    }
}

/// How a text stands inside a JSON string.
pub open spec fn escaped(s: Seq<char>) -> Seq<char>
    decreases s.len(),
{
    if s.len() == 0 {
        Seq::empty()
    } else {
        escaped(s.drop_last()) + escape(s.last())
    }
}

/// A text as a JSON string.
pub open spec fn quoted(s: Seq<char>) -> Seq<char> {
    seq!['"'] + escaped(s) + seq!['"']
}

/// Calls `serde_json::to_string` on a string. Claimed: quotation marks around
/// the text, with the quotation mark, the backslash and the control characters
/// below the space escaped and everything else as it is.
#[verifier::external_body]
pub(crate) fn quote(s: &str) -> (r: String)
    ensures
        r@ == quoted(s@),
{
    serde_json::to_string(s).unwrap_or_default()
}

// ---------------------------------------------------------------------------
// Objects

/// `serde_json::Value`, a JSON value.
#[verifier::external_type_specification]
#[verifier::external_body]
pub struct ExValue(serde_json::Value);

/// `serde_json::Map`, the members of a JSON object.
#[verifier::external_type_specification]
#[verifier::external_body]
#[verifier::reject_recursive_types(K)]
#[verifier::reject_recursive_types(V)]
pub struct ExMap<K, V>(serde_json::Map<K, V>);

/// What a `serde_json::Map` holds: for each key the compact text of its value.
pub uninterp spec fn map_members(m: serde_json::Map<String, serde_json::Value>) -> Map<
    Seq<char>,
    Seq<char>,
>;

/// The contents of an object without members.
pub open spec fn no_members() -> Map<Seq<char>, Seq<char>> {
    Map::empty()
}

/// A value that is put into an object.
pub enum Plain {
    Str(String),
    Int(i64),
    Bool(bool),
}

/// The compact text of a plain value.
pub open spec fn plain_text(p: Plain) -> Seq<char> {
    match p {
        Plain::Str(s) => quoted(s@),
        Plain::Int(n) => signed_decimal(n as int),
        Plain::Bool(true) => "true"@,
        Plain::Bool(false) => "false"@,
    }
}

/// The members of an object, one after the other, with commas between them.
pub open spec fn member_list(entries: Seq<(Seq<char>, Seq<char>)>) -> Seq<char>
    decreases entries.len(),
{
    if entries.len() == 0 {
        Seq::empty()
    } else {
        let e = entries.last();
        let own = quoted(e.0) + seq![':'] + e.1;
        if entries.len() == 1 {
            own
        } else {
            member_list(entries.drop_last()) + seq![','] + own
        }
    }
}

/// The compact text of an object with the given members in the given order.
pub open spec fn object_text(entries: Seq<(Seq<char>, Seq<char>)>) -> Seq<char> {
    seq!['{'] + member_list(entries) + seq!['}']
}

/// `entries` lists `members` in the order of the keys.
pub open spec fn lists(
    entries: Seq<(Seq<char>, Seq<char>)>,
    members: Map<Seq<char>, Seq<char>>,
) -> bool {
    &&& forall|i: int, j: int|
        0 <= i < j < entries.len() ==> precedes(#[trigger] entries[i].0, #[trigger] entries[j].0)
    &&& forall|i: int|
        0 <= i < entries.len() ==> members.dom().contains(#[trigger] entries[i].0)
            && members[entries[i].0] == entries[i].1
    &&& forall|k: Seq<char>| #[trigger]
        members.dom().contains(k) ==> exists|i: int|
            0 <= i < entries.len() && #[trigger] entries[i].0 == k
}

/// The compact text of the object that holds `members`.
pub open spec fn members_text(members: Map<Seq<char>, Seq<char>>) -> Seq<char> {
    object_text(choose|entries: Seq<(Seq<char>, Seq<char>)>| lists(entries, members))
}

/// Calls `serde_json::Map::new`, which gives a map without members.
#[verifier::external_body]
pub(crate) fn new_members() -> (r: serde_json::Map<String, serde_json::Value>)
    ensures
        map_members(r) == no_members(),
{
    serde_json::Map::new()
}

/// Calls `serde_json::Map::insert` with a string, an integer or a truth value.
/// Claimed: the key then holds that value, and the other keys hold what they
/// held.
#[verifier::external_body]
pub(crate) fn insert_plain(
    m: &mut serde_json::Map<String, serde_json::Value>,
    key: String,
    value: Plain,
)
    ensures
        map_members(*final(m)) == map_members(*old(m)).insert(key@, plain_text(value)),
{
    m.insert(
        key,
        match value {
            Plain::Str(s) => serde_json::Value::String(s),
            Plain::Int(n) => serde_json::Value::from(n),
            Plain::Bool(b) => serde_json::Value::Bool(b),
        },
    );
}

/// Calls `serde_json::from_str` and, where that succeeds, `serde_json::Map::insert`
/// with the value read. Claimed: the key then holds that value; where the text
/// is no JSON, the map stays as it is and the answer is no.
#[verifier::external_body]
pub(crate) fn insert_parsed(
    m: &mut serde_json::Map<String, serde_json::Value>,
    key: String,
    text: &str,
) -> (r: bool)
    ensures
        match json_node(text@, Seq::empty()) {
            Some(n) => r && map_members(*final(m)) == map_members(*old(m)).insert(key@, n.text),
            None => !r && *final(m) == *old(m),
        },
{
    match serde_json::from_str::<serde_json::Value>(text) {
        Ok(value) => {
            m.insert(key, value);
            true
        },
        Err(_) => false,
    }
}

/// Calls `serde_json::to_string` on a map. Claimed: the compact text of the
/// object, with the members in the order of their keys.
#[verifier::external_body]
pub(crate) fn write_members(m: &serde_json::Map<String, serde_json::Value>) -> (r: String)
    ensures
        r@ == members_text(map_members(*m)),
{
    serde_json::to_string(m).unwrap_or_default()
}

/// The mathematical form of the members of an object.
pub open spec fn entries_view(entries: Seq<(&str, String)>) -> Seq<(Seq<char>, Seq<char>)> {
    Seq::new(entries.len(), |i: int| (entries[i].0@, entries[i].1@))
}

/// Writes an object with the given members, each a key and the text of its value,
/// in the given order.
pub(crate) fn write_object(entries: &Vec<(&str, String)>) -> (r: String)
    ensures
        r@ == object_text(entries_view(entries@)),
{
    let ghost all = entries_view(entries@);
    proof {
        reveal_strlit("{");
        reveal_strlit(":");
        reveal_strlit(",");
        reveal_strlit("}");
        assert(all.take(0) =~= Seq::<(Seq<char>, Seq<char>)>::empty());
    }
    let mut out = copy_str("{");
    proof {
        assert(out@ =~= seq!['{'] + member_list(all.take(0)));
    }
    let mut i: usize = 0;
    while i < entries.len()
        invariant
            ":"@ =~= seq![':'],
            ","@ =~= seq![','],
            all == entries_view(entries@),
            i <= entries@.len(),
            out@ == seq!['{'] + member_list(all.take(i as int)),
        decreases entries@.len() - i,
    {
        let ghost before = all.take(i as int);
        let ghost after = all.take(i + 1);
        if i > 0 {
            out.append(",");
        }
        out.append(quote(entries[i].0).as_str());
        out.append(":");
        out.append(entries[i].1.as_str());
        proof {
            assert(after.drop_last() =~= before);
            assert(after.last() == all[i as int]);
            assert(out@ =~= seq!['{'] + member_list(after));
        }
        i = i + 1;
    }
    proof {
        assert(all.take(all.len() as int) =~= all);
    }
    out.append("}");
    proof {
        assert(out@ =~= object_text(all));
    }
    out
}

// ---------------------------------------------------------------------------
// Values

/// A JSON value, held as its compact text.
pub struct Json {
    text: String,
}

impl View for Json {
    type V = Seq<char>;

    closed spec fn view(&self) -> Seq<char> {
        self.text@
    }
}

impl Json {
    /// The value that a JSON text stands for.
    pub fn parse(text: &str) -> (r: Option<Json>)
        ensures
            match r {
                Some(v) => json_node(text@, Seq::empty()) matches Some(n) && v@ == n.text,
                None => json_node(text@, Seq::empty()) is None,
            },
    {
        proof {
            reveal_strlit("");
            assert(""@ =~= Seq::<char>::empty());
        }
        match json_at(text, "") {
            Some(n) => Some(Json { text: n.text }),
            None => None,
        }
    }

    /// A JSON string.
    pub fn string(s: &str) -> (r: Json)
        ensures
            r@ == quoted(s@),
    {
        Json { text: quote(s) }
    }

    /// The object with the given members, each a key and the text of its value, in
    /// the given order.
    pub(crate) fn object(entries: &Vec<(&str, String)>) -> (r: Json)
        ensures
            r@ == object_text(entries_view(entries@)),
    {
        Json { text: write_object(entries) }
    }

    /// The value at a place of a JSON text.
    pub(crate) fn of_node(node: JsonNode) -> (r: Json)
        ensures
            r@ == node@.text,
    {
        Json { text: node.text }
    }

    /// The object that holds the given members.
    pub(crate) fn of_members(m: &serde_json::Map<String, serde_json::Value>) -> (r: Json)
        ensures
            r@ == members_text(map_members(*m)),
    {
        Json { text: write_members(m) }
    }

    /// The compact text.
    pub fn text(&self) -> (r: &str)
        ensures
            r@ == self@,
    {
        self.text.as_str()
    }
}

// ---------------------------------------------------------------------------
// The order of the members decides the text

/// The listing of an object's members in the order of their keys is unique.
pub proof fn lemma_listing_unique(
    a: Seq<(Seq<char>, Seq<char>)>,
    b: Seq<(Seq<char>, Seq<char>)>,
    members: Map<Seq<char>, Seq<char>>,
)
    requires
        lists(a, members),
        lists(b, members),
    ensures
        a == b,
{
    lemma_listing_agrees(a, b, members, a.len() as int);
    lemma_listing_agrees(b, a, members, b.len() as int);
    if a.len() < b.len() {
        let k = b[a.len() as int].0;
        assert(members.dom().contains(k));
        let i = choose|i: int| 0 <= i < a.len() && #[trigger] a[i].0 == k;
        assert(b[i] == a[i]);
        lemma_precedes_total(k, k);
        assert(precedes(b[i].0, b[a.len() as int].0));
    } else if b.len() < a.len() {
        let k = a[b.len() as int].0;
        assert(members.dom().contains(k));
        let i = choose|i: int| 0 <= i < b.len() && #[trigger] b[i].0 == k;
        assert(a[i] == b[i]);
        lemma_precedes_total(k, k);
        assert(precedes(a[i].0, a[b.len() as int].0));
    }
    assert(a =~= b);
}

proof fn lemma_listing_agrees(
    a: Seq<(Seq<char>, Seq<char>)>,
    b: Seq<(Seq<char>, Seq<char>)>,
    members: Map<Seq<char>, Seq<char>>,
    n: int,
)
    requires
        lists(a, members),
        lists(b, members),
        0 <= n <= a.len(),
    ensures
        forall|i: int| 0 <= i < n && i < b.len() ==> #[trigger] a[i] == b[i],
    decreases n,
{
    if n > 0 {
        lemma_listing_agrees(a, b, members, n - 1);
        let i = n - 1;
        if i < b.len() {
            let ka = a[i].0;
            let kb = b[i].0;
            assert(members.dom().contains(ka) && members.dom().contains(kb));
            let k = choose|k: int| 0 <= k < b.len() && #[trigger] b[k].0 == ka;
            let l = choose|l: int| 0 <= l < a.len() && #[trigger] a[l].0 == kb;
            lemma_precedes_total(ka, ka);
            lemma_precedes_total(kb, kb);
            lemma_precedes_total(ka, kb);
            if k < i {
                assert(a[k] == b[k]);
                assert(precedes(a[k].0, a[i].0));
            }
            if l < i {
                assert(a[l] == b[l]);
                assert(precedes(b[l].0, b[i].0));
            }
            if k > i {
                assert(precedes(b[i].0, b[k].0));
            }
            if l > i {
                assert(precedes(a[i].0, a[l].0));
            }
            assert(a[i] == b[i]);
        }
    }
}

/// The compact text of an object is that of its members listed in the order of
/// their keys.
pub proof fn law_object_text_is_in_order(
    entries: Seq<(Seq<char>, Seq<char>)>,
    members: Map<Seq<char>, Seq<char>>,
)
    requires
        lists(entries, members),
    ensures
        members_text(members) == object_text(entries),
{
    let chosen = choose|e: Seq<(Seq<char>, Seq<char>)>| lists(e, members);
    lemma_listing_unique(chosen, entries, members);
}

} // verus!
