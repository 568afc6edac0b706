//! Laws of the registry: which model a request means, and how models are named.

use vstd::prelude::*;

use crate::chat::in_small_letters;
use crate::path::components;
use crate::path::extension;
use crate::path::file_name;
use crate::path::file_stem;
use crate::path::named_parts;
use crate::path::path_ends_with;
use crate::path::path_root;
use crate::registry::colon_twin;
use crate::registry::first_alike;
use crate::registry::first_with_part;
use crate::registry::first_with_path;
use crate::registry::latest_twin;
use crate::registry::lemma_first_alike;
use crate::registry::lemma_named_at;
use crate::registry::lemma_resolved;
use crate::registry::lowered_names;
use crate::registry::model_of_file;
use crate::registry::named_at;
use crate::registry::names_differ;
use crate::registry::resolved;
use crate::registry::same_but_for_colons;
use crate::registry::ModelView;
use crate::registry::RegisteredModel;
use crate::text::ends_with;
use crate::text::find;
use crate::text::lemma_find_from;
use crate::text::lemma_rfind_to;
use crate::text::mentions;
use crate::text::occurs_at;
use crate::text::rfind_to;
use crate::text::split;
use crate::text::swap_char;
use crate::text::trim;

verus! {

// ---------------------------------------------------------------------------
// Names that are alike

/// The texts differ at most in that one has a hyphen where the other has a colon.
pub open spec fn are_alike(a: Seq<char>, b: Seq<char>) -> bool {
    a.len() == b.len() && forall|k: int|
        0 <= k < a.len() ==> #[trigger] a[k] == b[k] || (a[k] == '-' && b[k] == ':') || (a[k] == ':'
            && b[k] == '-')
}

/// Names are taken for the same where they differ only in hyphens and colons.
pub proof fn law_hyphens_and_colons_are_alike(a: Seq<char>, b: Seq<char>)
    ensures
        same_but_for_colons(a, b) <==> are_alike(a, b),
{
    let x = swap_char(a, ':', '-');
    let y = swap_char(b, ':', '-');
    if are_alike(a, b) {
        assert forall|k: int| 0 <= k < x.len() implies x[k] == y[k] by {
            assert(a[k] == b[k] || (a[k] == '-' && b[k] == ':') || (a[k] == ':' && b[k] == '-'));
        }
        assert(x =~= y);
    }
    if x == y {
        assert(x.len() == y.len());
        assert forall|k: int| 0 <= k < a.len() implies #[trigger] a[k] == b[k] || (a[k] == '-' && b[k]
            == ':') || (a[k] == ':' && b[k] == '-') by {
            assert(x[k] == y[k]);
        }
    }
}

/// A name holds the text, whatever the case of the letters.
pub open spec fn holds(name: Seq<char>, text: Seq<char>) -> bool {
    exists|at: int| #[trigger] occurs_at(in_small_letters(name), in_small_letters(text), at)
}

proof fn lemma_mentions(s: Seq<char>, p: Seq<char>)
    ensures
        mentions(s, p) <==> exists|at: int| #[trigger] occurs_at(s, p, at),
{
    lemma_find_from(s, p, 0);
}

proof fn lemma_first_of_parts(models: Seq<RegisteredModel>, text: Seq<char>)
    ensures
        match first_with_part(models, in_small_letters(text)) {
            Some(i) => 0 <= i < models.len() && holds(models[i].name@, text) && forall|j: int|
                0 <= j < i ==> !holds((#[trigger] models[j]).name@, text),
            None => forall|j: int| 0 <= j < models.len() ==> !holds((#[trigger] models[j]).name@, text),
        },
    decreases models.len(),
{
    let part = in_small_letters(text);
    if models.len() > 0 {
        let front = models.drop_last();
        lemma_first_of_parts(front, text);
        assert(lowered_names(models).drop_last() =~= lowered_names(front));
        assert(lowered_names(models).last() == in_small_letters(models.last().name@));
        lemma_mentions(in_small_letters(models.last().name@), part);
        assert forall|j: int| 0 <= j < front.len() implies #[trigger] models[j] == front[j] by {}
        match first_with_part(front, part) {
            Some(i) => {
                assert(models[i] == front[i]);
                assert forall|j: int| 0 <= j < i implies !holds(
                    (#[trigger] models[j]).name@,
                    text,
                ) by {
                    assert(!holds(front[j].name@, text));
                }
            },
            None => {
                assert forall|j: int| 0 <= j < front.len() implies !holds(
                    (#[trigger] models[j]).name@,
                    text,
                ) by {
                    assert(!holds(front[j].name@, text));
                }
            },
        }
    }
}

proof fn lemma_first_of_paths(models: Seq<RegisteredModel>, tail: Seq<char>)
    ensures
        match first_with_path(models, tail) {
            Some(i) => 0 <= i < models.len() && path_ends_with(models[i].path@, tail) && forall|j: int|
                0 <= j < i ==> !path_ends_with((#[trigger] models[j]).path@, tail),
            None => forall|j: int|
                0 <= j < models.len() ==> !path_ends_with((#[trigger] models[j]).path@, tail),
        },
    decreases models.len(),
{
    if models.len() > 0 {
        let front = models.drop_last();
        lemma_first_of_paths(front, tail);
        assert forall|j: int| 0 <= j < front.len() implies #[trigger] models[j] == front[j] by {}
        match first_with_path(front, tail) {
            Some(i) => {
                assert(models[i] == front[i]);
                assert forall|j: int| 0 <= j < i implies !path_ends_with(
                    (#[trigger] models[j]).path@,
                    tail,
                ) by {
                    assert(!path_ends_with(front[j].path@, tail));
                }
            },
            None => {
                assert forall|j: int| 0 <= j < front.len() implies !path_ends_with(
                    (#[trigger] models[j]).path@,
                    tail,
                ) by {
                    assert(!path_ends_with(front[j].path@, tail));
                }
            },
        }
    }
}

// ---------------------------------------------------------------------------
// Which model a request means

/// A model is what a request asks for by its name: the names are the same, or the
/// same but for the tag `:latest` on one of them, or but for hyphens and colons.
pub open spec fn is_called(name: Seq<char>, asked: Seq<char>) -> bool {
    ||| name == asked
    ||| name + ":latest"@ == asked
    ||| name == asked + ":latest"@ && !ends_with(asked, ":latest"@)
    ||| are_alike(name, asked)
}

/// A model is what a request asks for: by its name, by the end of its path where the
/// request is the path of a file, or by a part of its name.
pub open spec fn is_meant(model: RegisteredModel, asked: Seq<char>, path_exists: bool) -> bool {
    ||| is_called(model.name@, asked)
    ||| path_exists && path_ends_with(model.path@, asked)
    ||| holds(model.name@, asked)
}

proof fn lemma_latest_twin(q: Seq<char>, name: Seq<char>)
    ensures
        latest_twin(q) == name <==> (name + ":latest"@ == q || (name == q + ":latest"@
            && !ends_with(q, ":latest"@))),
{
    reveal_strlit(":latest");
    if ends_with(q, ":latest"@) {
        let base = q.subrange(0, q.len() - 7);
        assert(base + ":latest"@ =~= q);
    }
    if name + ":latest"@ == q {
        assert(q.subrange(q.len() - 7, q.len() as int) =~= ":latest"@);
        assert(q.subrange(0, q.len() - 7) =~= name);
    }
}

proof fn lemma_colon_twin(q: Seq<char>)
    ensures
        are_alike(colon_twin(q), q),
{
    let t = colon_twin(q);
    assert forall|k: int| 0 <= k < t.len() implies #[trigger] t[k] == q[k] || (t[k] == '-' && q[k]
        == ':') || (t[k] == ':' && q[k] == '-') by {}
}

/// A request that is not blank is answered with a model that it asks for, and with
/// none only where it asks for none of them.
pub proof fn law_request_means_what_it_asks_for(
    models: Seq<RegisteredModel>,
    query: Seq<char>,
    path_exists: bool,
)
    requires
        trim(query).len() > 0,
    ensures
        match resolved(models, query, path_exists) {
            Some(i) => 0 <= i < models.len() && is_meant(models[i], trim(query), path_exists),
            None => forall|j: int|
                0 <= j < models.len() ==> !is_meant(#[trigger] models[j], trim(query), path_exists),
        },
{
    let q = trim(query);
    lemma_named_at(models, q);
    lemma_named_at(models, latest_twin(q));
    lemma_named_at(models, colon_twin(q));
    lemma_first_alike(models, q);
    lemma_first_of_paths(models, q);
    lemma_first_of_parts(models, q);
    lemma_colon_twin(q);
    lemma_resolved(models, query, path_exists);
    match resolved(models, query, path_exists) {
        Some(i) => {
            lemma_latest_twin(q, models[i].name@);
            law_hyphens_and_colons_are_alike(models[i].name@, q);
        },
        None => {
            assert forall|j: int| 0 <= j < models.len() implies !is_meant(
                #[trigger] models[j],
                q,
                path_exists,
            ) by {
                lemma_latest_twin(q, models[j].name@);
                law_hyphens_and_colons_are_alike(models[j].name@, q);
            }
        },
    }
}

/// A request that is not blank and that occurs in the name of a model, whatever the
/// case of the letters, is answered with a model.
pub proof fn law_part_of_a_name_is_enough(
    models: Seq<RegisteredModel>,
    i: int,
    query: Seq<char>,
    at: int,
    path_exists: bool,
)
    requires
        0 <= i < models.len(),
        trim(query).len() > 0,
        occurs_at(in_small_letters(models[i].name@), in_small_letters(trim(query)), at),
    ensures
        resolved(models, query, path_exists) is Some,
{
    law_request_means_what_it_asks_for(models, query, path_exists);
    assert(holds(models[i].name@, trim(query)));
    if resolved(models, query, path_exists) is None {
        assert(!is_meant(models[i], trim(query), path_exists));
    }
}

/// Where no model is what a request asks for by its name or by its path, the answer
/// is the first one whose name holds the request, whatever the case of the letters.
pub proof fn law_first_name_that_holds_the_request(
    models: Seq<RegisteredModel>,
    i: int,
    query: Seq<char>,
    path_exists: bool,
)
    requires
        0 <= i < models.len(),
        trim(query).len() > 0,
        forall|j: int| 0 <= j < models.len() ==> !is_called((#[trigger] models[j]).name@, trim(query)),
        path_exists ==> forall|j: int|
            0 <= j < models.len() ==> !path_ends_with((#[trigger] models[j]).path@, trim(query)),
        holds(models[i].name@, trim(query)),
        forall|j: int| 0 <= j < i ==> !holds((#[trigger] models[j]).name@, trim(query)),
    ensures
        resolved(models, query, path_exists) == Some(i),
{
    let q = trim(query);
    lemma_named_at(models, q);
    lemma_named_at(models, latest_twin(q));
    lemma_named_at(models, colon_twin(q));
    lemma_first_alike(models, q);
    lemma_first_of_paths(models, q);
    lemma_first_of_parts(models, q);
    lemma_colon_twin(q);
    assert forall|j: int| 0 <= j < models.len() implies {
        let name = (#[trigger] models[j]).name@;
        name != q && name != latest_twin(q) && name != colon_twin(q) && !same_but_for_colons(name, q)
    } by {
        lemma_latest_twin(q, models[j].name@);
        law_hyphens_and_colons_are_alike(models[j].name@, q);
    }
}

/// A request that is the path of a file is answered, where no model is what it asks
/// for by its name, with the first model whose path ends with it.
pub proof fn law_first_path_that_ends_with_the_request(
    models: Seq<RegisteredModel>,
    i: int,
    query: Seq<char>,
)
    requires
        0 <= i < models.len(),
        trim(query).len() > 0,
        forall|j: int| 0 <= j < models.len() ==> !is_called((#[trigger] models[j]).name@, trim(query)),
        path_ends_with(models[i].path@, trim(query)),
        forall|j: int| 0 <= j < i ==> !path_ends_with((#[trigger] models[j]).path@, trim(query)),
    ensures
        resolved(models, query, true) == Some(i),
{
    let q = trim(query);
    lemma_named_at(models, q);
    lemma_named_at(models, latest_twin(q));
    lemma_named_at(models, colon_twin(q));
    lemma_first_alike(models, q);
    lemma_first_of_paths(models, q);
    lemma_colon_twin(q);
    assert forall|j: int| 0 <= j < models.len() implies {
        let name = (#[trigger] models[j]).name@;
        name != q && name != latest_twin(q) && name != colon_twin(q) && !same_but_for_colons(name, q)
    } by {
        lemma_latest_twin(q, models[j].name@);
        law_hyphens_and_colons_are_alike(models[j].name@, q);
    }
}

/// A request by the name of a model means that model, whatever white space is around
/// it and whatever else is known.
pub proof fn law_own_name_comes_first(
    models: Seq<RegisteredModel>,
    i: int,
    query: Seq<char>,
    path_exists: bool,
)
    requires
        names_differ(models),
        0 <= i < models.len(),
        trim(query).len() > 0,
        models[i].name@ == trim(query),
    ensures
        resolved(models, query, path_exists) == Some(i),
{
    lemma_named_at(models, trim(query));
}

/// Where no model has the name that is asked for, one that has it but for the tag
/// `:latest` on one of the two comes next.
pub proof fn law_latest_comes_second(
    models: Seq<RegisteredModel>,
    i: int,
    query: Seq<char>,
    path_exists: bool,
)
    requires
        names_differ(models),
        0 <= i < models.len(),
        trim(query).len() > 0,
        forall|j: int| 0 <= j < models.len() ==> (#[trigger] models[j]).name@ != trim(query),
        models[i].name@ + ":latest"@ == trim(query) || (models[i].name@ == trim(query) + ":latest"@
            && !ends_with(trim(query), ":latest"@)),
    ensures
        resolved(models, query, path_exists) == Some(i),
{
    let q = trim(query);
    lemma_named_at(models, q);
    lemma_named_at(models, latest_twin(q));
    lemma_latest_twin(q, models[i].name@);
}

/// Where no model has the name that is asked for, with or without the tag `:latest`,
/// one whose name differs only in hyphens and colons comes next, before any path and
/// any part of a name.
pub proof fn law_hyphens_and_colons_come_third(
    models: Seq<RegisteredModel>,
    query: Seq<char>,
    path_exists: bool,
)
    requires
        trim(query).len() > 0,
        forall|j: int|
            0 <= j < models.len() ==> (#[trigger] models[j]).name@ != trim(query)
                && models[j].name@ + ":latest"@ != trim(query) && models[j].name@ != trim(query)
                + ":latest"@,
        exists|j: int| 0 <= j < models.len() && are_alike((#[trigger] models[j]).name@, trim(query)),
    ensures
        resolved(models, query, path_exists) matches Some(i) && 0 <= i < models.len() && are_alike(
            models[i].name@,
            trim(query),
        ),
{
    let q = trim(query);
    lemma_named_at(models, q);
    lemma_named_at(models, latest_twin(q));
    lemma_named_at(models, colon_twin(q));
    lemma_first_alike(models, q);
    lemma_colon_twin(q);
    let j = choose|j: int| 0 <= j < models.len() && are_alike((#[trigger] models[j]).name@, q);
    law_hyphens_and_colons_are_alike(models[j].name@, q);
    if let Some(i) = named_at(models, latest_twin(q)) {
        lemma_latest_twin(q, models[i].name@);
    }
    if let Some(i) = first_alike(models, q) {
        law_hyphens_and_colons_are_alike(models[i].name@, q);
    }
}

/// A blank request means the first model.
pub proof fn law_blank_request_means_first(
    models: Seq<RegisteredModel>,
    query: Seq<char>,
    path_exists: bool,
)
    requires
        trim(query).len() == 0,
        models.len() > 0,
    ensures
        resolved(models, query, path_exists) == Some(0int),
{
}

// ---------------------------------------------------------------------------
// Paths

proof fn lemma_find_in_front(a: Seq<char>, b: Seq<char>, c: char)
    requires
        a.contains(c),
    ensures
        find(a + b, seq![c]) == find(a, seq![c]),
        find(a, seq![c]) matches Some(i) && 0 <= i < a.len(),
{
    let p = seq![c];
    lemma_find_from(a, p, 0);
    lemma_find_from(a + b, p, 0);
    let k = choose|k: int| 0 <= k < a.len() && a[k] == c;
    assert(a.subrange(k, k + 1) =~= p);
    assert(occurs_at(a, p, k));
    let i = find(a, p)->0;
    assert(occurs_at(a, p, i));
    assert((a + b).subrange(i, i + 1) =~= a.subrange(i, i + 1));
    assert(occurs_at(a + b, p, i));
    let m = find(a + b, p)->0;
    if m < i {
        assert((a + b).subrange(m, m + 1) =~= a.subrange(m, m + 1));
        assert(occurs_at(a, p, m));
    }
}

proof fn lemma_absent_char(s: Seq<char>, c: char)
    requires
        !s.contains(c),
    ensures
        find(s, seq![c]) is None,
        split(s, c) == seq![s],
{
    let p = seq![c];
    lemma_find_from(s, p, 0);
    if let Some(i) = find(s, p) {
        assert(s.subrange(i, i + 1)[0] == s[i]);
    }
}

proof fn lemma_split_step(s: Seq<char>, c: char, i: int)
    requires
        find(s, seq![c]) == Some(i),
    ensures
        split(s, c) == seq![s.take(i)] + split(s.skip(i + 1), c),
{
}

pub(crate) proof fn lemma_find_after(a: Seq<char>, c: char, b: Seq<char>)
    requires
        !a.contains(c),
    ensures
        find(a + seq![c] + b, seq![c]) == Some(a.len() as int),
{
    let p = seq![c];
    let s = a + p + b;
    let n = a.len() as int;
    lemma_find_from(s, p, 0);
    assert(s.subrange(n, n + 1) =~= p);
    assert(occurs_at(s, p, n));
    let i = find(s, p)->0;
    if i < n {
        assert(s.subrange(i, i + 1)[0] == s[i]);
        assert(s[i] == a[i]);
    }
}

/// The parts of a text around a separator are those before it and those after it.
pub(crate) proof fn lemma_split_around(a: Seq<char>, b: Seq<char>, c: char)
    ensures
        split(a + seq![c] + b, c) == split(a, c) + split(b, c),
    decreases a.len(),
{
    if a.contains(c) {
        lemma_find_in_front(a, seq![c] + b, c);
        let i = find(a, seq![c])->0;
        lemma_split_around(a.skip(i + 1), b, c);
        lemma_split_front(a, b, c, i);
    } else {
        lemma_absent_char(a, c);
        lemma_find_after(a, c, b);
        let all = a + seq![c] + b;
        lemma_split_step(all, c, a.len() as int);
        assert(all.skip(a.len() as int + 1) =~= b);
        assert(all.take(a.len() as int) =~= a);
    }
}

proof fn lemma_split_front(a: Seq<char>, b: Seq<char>, c: char, i: int)
    requires
        0 <= i < a.len(),
        find(a, seq![c]) == Some(i),
        find(a + (seq![c] + b), seq![c]) == Some(i),
        split(a.skip(i + 1) + seq![c] + b, c) == split(a.skip(i + 1), c) + split(b, c),
    ensures
        split(a + seq![c] + b, c) == split(a, c) + split(b, c),
{
    let all = a + seq![c] + b;
    assert(all =~= a + (seq![c] + b));
    lemma_split_step(all, c, i);
    lemma_split_step(a, c, i);
    assert(all.skip(i + 1) =~= a.skip(i + 1) + seq![c] + b);
    assert(all.take(i) =~= a.take(i));
    lemma_regroup_parts(seq![a.take(i)], split(a.skip(i + 1), c), split(b, c));
}

proof fn lemma_regroup_parts(a: Seq<Seq<char>>, b: Seq<Seq<char>>, c: Seq<Seq<char>>)
    ensures
        a + (b + c) == (a + b) + c,
{
    assert(a + (b + c) =~= (a + b) + c);
}

pub(crate) proof fn lemma_named_parts(a: Seq<Seq<char>>, b: Seq<Seq<char>>)
    ensures
        named_parts(a + b) == named_parts(a) + named_parts(b),
    decreases b.len(),
{
    if b.len() == 0 {
        assert(a + b =~= a);
        assert(named_parts(a) + named_parts(b) =~= named_parts(a));
    } else {
        lemma_named_parts(a, b.drop_last());
        assert((a + b).drop_last() =~= a + b.drop_last());
        assert(named_parts(a + b) =~= named_parts(a) + named_parts(b));
    }
}

/// A file in a directory is named by what stands after the last separator.
pub(crate) proof fn lemma_file_below(dir: Seq<char>, name: Seq<char>)
    requires
        !name.contains('/'),
        name.len() > 0,
        name != seq!['.'],
        name != seq!['.', '.'],
    ensures
        file_name(dir + seq!['/'] + name) == Some(name),
{
    let path = dir + seq!['/'] + name;
    lemma_split_around(dir, name, '/');
    lemma_absent_char(name, '/');
    lemma_named_parts(split(dir, '/'), seq![name]);
    assert(seq![name].drop_last() =~= Seq::<Seq<char>>::empty());
    assert(seq![name].last() == name);
    let none = Seq::<Seq<char>>::empty();
    assert(named_parts(none) == none);
    assert(named_parts(seq![name]) == none.push(name));
    assert(named_parts(seq![name]) =~= seq![name]);
    assert(components(path).last() == name);
    assert(name != seq!['/']) by {
        if name == seq!['/'] {
            assert(name[0] == '/');
        }
    }
}

/// A model file in a directory is a model named after it, without the extension, and
/// is reported with the path, the place, the size and the metadata that it has.
pub proof fn law_model_is_named_after_its_file(
    dir: Seq<char>,
    stem: Seq<char>,
    source: Seq<char>,
    size: u64,
    architecture: Seq<char>,
    parameter_count: u64,
    quantization: Option<Seq<char>>,
    context_length: u32,
)
    requires
        !stem.contains('/'),
        stem.len() > 0,
    ensures
        ({
            let path = dir + seq!['/'] + (stem + ".gguf"@);
            &&& file_stem(path) == Some(stem)
            &&& extension(path) == Some("gguf"@)
            &&& model_of_file(
                path,
                source,
                size,
                architecture,
                parameter_count,
                quantization,
                context_length,
            ) == (ModelView {
                name: stem,
                path,
                source,
                size,
                architecture,
                parameter_count,
                quantization,
                context_length,
            })
        }),
{
    reveal_strlit(".gguf");
    reveal_strlit("gguf");
    let name = stem + ".gguf"@;
    assert forall|i: int| 0 <= i < name.len() implies name[i] != '/' by {
        if i < stem.len() {
            assert(name[i] == stem[i]);
            assert(stem.contains(stem[i]));
        } else {
            assert(name[i] == ".gguf"@[i - stem.len()]);
        }
    }
    assert(name.len() >= 6);
    lemma_file_below(dir, name);
    let dot = seq!['.'];
    lemma_rfind_to(name, dot, name.len() - 1);
    let n = stem.len() as int;
    assert(name.subrange(n, n + 1) =~= dot);
    assert(occurs_at(name, dot, n));
    let i = rfind_to(name, dot, name.len() - 1)->0;
    assert(name.subrange(i, i + 1)[0] == name[i]);
    assert(name[i] == '.');
    if i > n {
        assert(name[i] == ".gguf"@[i - n]);
    }
    assert(i == n);
    assert(name.subrange(0, n) =~= stem);
    assert(name.subrange(n + 1, name.len() as int) =~= "gguf"@);
}

/// A path ends with what it leads to from one of its directories on.
pub proof fn law_path_ends_with_what_it_leads_to(dir: Seq<char>, tail: Seq<char>)
    requires
        tail.len() > 0,
        tail[0] != '/',
        tail[0] != '.',
    ensures
        path_ends_with(dir + seq!['/'] + tail, tail),
        path_ends_with(tail, tail),
{
    let path = dir + seq!['/'] + tail;
    lemma_split_around(dir, tail, '/');
    lemma_named_parts(split(dir, '/'), split(tail, '/'));
    let parts = split(tail, '/');
    lemma_find_from(tail, seq!['/'], 0);
    if parts[0] == seq!['.'] {
        if let Some(i) = find(tail, seq!['/']) {
            assert(parts[0] == tail.subrange(0, i));
            assert(tail.subrange(0, i)[0] == tail[0]);
        } else {
            assert(parts[0] == tail);
        }
        assert(parts[0][0] == '.');
    }
    assert(path_root(tail) =~= Seq::<Seq<char>>::empty());
    let b = named_parts(parts);
    assert(components(tail) =~= b);
    let a = components(path);
    let head = path_root(path) + named_parts(split(dir, '/'));
    assert(a =~= head + b);
    assert(a.subrange(a.len() - b.len(), a.len() as int) =~= b);
    assert(b.subrange(0, b.len() as int) =~= b);
}

} // verus!
