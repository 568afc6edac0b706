//! Laws of the stores of models: which of the files that a scan found are known, and
//! what a manifest tells.

use vstd::prelude::*;

use crate::json::item_pointer;
use crate::json::json_node;
use crate::json::quoted;
use crate::json::NodeView;
use crate::json::Shape;
use crate::manifest::law_digest_names_blob;
use crate::manifest::manifest_layers;
use crate::manifest::manifest_model;
use crate::manifest::model_digest;
use crate::manifest::LayerView;
use crate::number::decimal;
use crate::ollama_types::option_text;
use crate::path::components;
use crate::path::extension;
use crate::path::file_stem;
use crate::path::join_path;
use crate::path::named_parts;
use crate::path::path_below;
use crate::path::path_root;
use crate::registry::discovered;
use crate::registry::goes_by;
use crate::registry::is_model_path;
use crate::registry::model_in;
use crate::registry::with_found;
use crate::registry::with_manifest;
use crate::registry::with_ollama;
use crate::registry::Discovered;
use crate::registry::FoundFile;
use crate::registry::ModelView;
use crate::registry::OllamaModel;
use crate::registry_laws::lemma_file_below;
use crate::registry_laws::lemma_named_parts;
use crate::registry_laws::lemma_split_around;
use crate::syntax_laws::lemma_lacks_char;
use crate::text::ends_with;
use crate::text::lemma_find_from;
use crate::text::lemma_rfind_to;
use crate::text::occurs_at;
use crate::text::rfind_to;
use crate::text::split;
use crate::text_laws::law_parts_are_taken_apart;
use crate::text_laws::spelled;

verus! {

// ---------------------------------------------------------------------------
// What a scan found

proof fn lemma_found_last(
    known: Map<Seq<char>, ModelView>,
    files: Seq<FoundFile>,
    source: Seq<char>,
    name: Seq<char>,
)
    ensures
        (forall|i: int| 0 <= i < files.len() ==> model_in(#[trigger] files[i], source).name != name)
            ==> with_found(known, files, source).contains_key(name) == known.contains_key(name)
            && with_found(known, files, source)[name] == known[name],
        forall|i: int|
            0 <= i < files.len() && model_in(#[trigger] files[i], source).name == name && (forall|
                j: int,
            |
                i < j < files.len() ==> model_in(#[trigger] files[j], source).name != name)
                ==> with_found(known, files, source)[name] == model_in(files[i], source),
    decreases files.len(),
{
    if files.len() > 0 {
        let front = files.drop_last();
        let n = front.len() as int;
        lemma_found_last(known, front, source, name);
        assert(files.last() == files[n]);
        if forall|i: int|
            0 <= i < files.len() ==> model_in(#[trigger] files[i], source).name != name {
            assert forall|i: int| 0 <= i < front.len() implies model_in(
                #[trigger] front[i],
                source,
            ).name != name by {
                assert(front[i] == files[i]);
            }
            assert(model_in(files[n], source).name != name);
        }
        assert forall|i: int|
            0 <= i < files.len() && model_in(#[trigger] files[i], source).name == name && (forall|
                j: int,
            |
                i < j < files.len() ==> model_in(#[trigger] files[j], source).name
                    != name) implies with_found(known, files, source)[name] == model_in(
            files[i],
            source,
        ) by {
            if i < n {
                assert(model_in(files[n], source).name != name);
                assert(front[i] == files[i]);
                assert forall|j: int| i < j < front.len() implies model_in(
                    #[trigger] front[j],
                    source,
                ).name != name by {
                    assert(front[j] == files[j]);
                }
            }
        }
    }
}

proof fn lemma_manifest_known(
    known: Map<Seq<char>, ModelView>,
    one: OllamaModel,
    name: Seq<char>,
)
    ensures
        ({
            let model = model_in(one.file, "Ollama"@);
            let after = with_manifest(known, one.name@, model);
            &&& goes_by(one, name) ==> after[name] == (ModelView { name, ..model })
            &&& !goes_by(one, name) ==> after.contains_key(name) == known.contains_key(name)
                && after[name] == known[name]
        }),
{
    reveal_strlit(":latest");
    let full = one.name@;
    if ends_with(full, ":latest"@) {
        let base = full.subrange(0, full.len() - ":latest"@.len());
        assert(base + ":latest"@ =~= full);
    }
    if full == name + ":latest"@ {
        assert(full.subrange(full.len() - 7, full.len() as int) =~= ":latest"@);
        assert(full.subrange(0, full.len() - 7) =~= name);
    }
}

proof fn lemma_ollama_last(
    known: Map<Seq<char>, ModelView>,
    models: Seq<OllamaModel>,
    name: Seq<char>,
)
    ensures
        (forall|i: int| 0 <= i < models.len() ==> !goes_by(#[trigger] models[i], name))
            ==> with_ollama(known, models).contains_key(name) == known.contains_key(name)
            && with_ollama(known, models)[name] == known[name],
        forall|i: int|
            0 <= i < models.len() && goes_by(#[trigger] models[i], name) && (forall|j: int|
                i < j < models.len() ==> !goes_by(#[trigger] models[j], name)) ==> with_ollama(
                known,
                models,
            )[name] == (ModelView { name, ..model_in(models[i].file, "Ollama"@) }),
    decreases models.len(),
{
    if models.len() > 0 {
        let front = models.drop_last();
        let n = front.len() as int;
        lemma_ollama_last(known, front, name);
        assert(models.last() == models[n]);
        lemma_manifest_known(with_ollama(known, front), models[n], name);
        if forall|i: int| 0 <= i < models.len() ==> !goes_by(#[trigger] models[i], name) {
            assert forall|i: int| 0 <= i < front.len() implies !goes_by(#[trigger] front[i], name) by {
                assert(front[i] == models[i]);
            }
            assert(!goes_by(models[n], name));
        }
        assert forall|i: int|
            0 <= i < models.len() && goes_by(#[trigger] models[i], name) && (forall|j: int|
                i < j < models.len() ==> !goes_by(#[trigger] models[j], name)) implies with_ollama(
            known,
            models,
        )[name] == (ModelView { name, ..model_in(models[i].file, "Ollama"@) }) by {
            if i < n {
                assert(!goes_by(models[n], name));
                assert(front[i] == models[i]);
                assert forall|j: int| i < j < front.len() implies !goes_by(
                    #[trigger] front[j],
                    name,
                ) by {
                    assert(front[j] == models[j]);
                }
            }
        }
    }
}

/// Of the models of the Ollama store that go by a name, the one that was found last is
/// known by it, whatever other files are called.
pub proof fn law_store_comes_first(found: Discovered, i: int, name: Seq<char>)
    requires
        0 <= i < found.ollama@.len(),
        found.ollama@[i].name@ == name || found.ollama@[i].name@ == name + ":latest"@,
        forall|j: int|
            i < j < found.ollama@.len() ==> (#[trigger] found.ollama@[j]).name@ != name
                && found.ollama@[j].name@ != name + ":latest"@,
    ensures
        ({
            let file = found.ollama@[i].file;
            discovered(found)[name] == ModelView {
                name,
                path: file.path@,
                source: "Ollama"@,
                size: file.size,
                architecture: file.metadata.architecture@,
                parameter_count: file.metadata.parameter_count,
                quantization: option_text(file.metadata.quantization),
                context_length: file.metadata.context_length,
            }
        }),
{
    let none = Map::<Seq<char>, ModelView>::empty();
    let custom = with_found(none, found.custom@, "Custom"@);
    let local = with_found(custom, found.local@, "Local"@);
    lemma_ollama_last(local, found.ollama@, name);
    assert(goes_by(found.ollama@[i], name));
    assert forall|j: int| i < j < found.ollama@.len() implies !goes_by(
        #[trigger] found.ollama@[j],
        name,
    ) by {}
}

/// A file in the current directory is known by its name, unless one that was found
/// later, or a model of the Ollama store, has the same.
pub proof fn law_local_files_come_second(found: Discovered, i: int)
    requires
        0 <= i < found.local@.len(),
        ({
            let name = model_in(found.local@[i], "Local"@).name;
            &&& forall|j: int|
                i < j < found.local@.len() ==> model_in(#[trigger] found.local@[j], "Local"@).name
                    != name
            &&& forall|j: int|
                0 <= j < found.ollama@.len() ==> (#[trigger] found.ollama@[j]).name@ != name
                    && found.ollama@[j].name@ != name + ":latest"@
        }),
    ensures
        ({
            let model = model_in(found.local@[i], "Local"@);
            &&& discovered(found)[model.name] == model
            &&& model.source == "Local"@
            &&& model.path == found.local@[i].path@
            &&& model.size == found.local@[i].size
        }),
{
    let none = Map::<Seq<char>, ModelView>::empty();
    let name = model_in(found.local@[i], "Local"@).name;
    let custom = with_found(none, found.custom@, "Custom"@);
    let local = with_found(custom, found.local@, "Local"@);
    lemma_found_last(custom, found.local@, "Local"@, name);
    lemma_ollama_last(local, found.ollama@, name);
    assert forall|j: int| 0 <= j < found.ollama@.len() implies !goes_by(
        #[trigger] found.ollama@[j],
        name,
    ) by {}
}

/// A file in the directory that was asked for is known by its name, unless one that was
/// found later has the same.
pub proof fn law_custom_files_come_third(found: Discovered, i: int)
    requires
        0 <= i < found.custom@.len(),
        ({
            let name = model_in(found.custom@[i], "Custom"@).name;
            &&& forall|j: int|
                i < j < found.custom@.len() ==> model_in(#[trigger] found.custom@[j], "Custom"@).name
                    != name
            &&& forall|j: int|
                0 <= j < found.local@.len() ==> model_in(#[trigger] found.local@[j], "Local"@).name
                    != name
            &&& forall|j: int|
                0 <= j < found.ollama@.len() ==> (#[trigger] found.ollama@[j]).name@ != name
                    && found.ollama@[j].name@ != name + ":latest"@
        }),
    ensures
        ({
            let model = model_in(found.custom@[i], "Custom"@);
            &&& discovered(found)[model.name] == model
            &&& model.source == "Custom"@
            &&& model.path == found.custom@[i].path@
            &&& model.size == found.custom@[i].size
        }),
{
    let none = Map::<Seq<char>, ModelView>::empty();
    let name = model_in(found.custom@[i], "Custom"@).name;
    let custom = with_found(none, found.custom@, "Custom"@);
    let local = with_found(custom, found.local@, "Local"@);
    lemma_found_last(none, found.custom@, "Custom"@, name);
    lemma_found_last(custom, found.local@, "Local"@, name);
    lemma_ollama_last(local, found.ollama@, name);
    assert forall|j: int| 0 <= j < found.ollama@.len() implies !goes_by(
        #[trigger] found.ollama@[j],
        name,
    ) by {}
}

/// The extension of a file is what stands behind the last dot of its name.
pub proof fn law_extension_of_file(dir: Seq<char>, stem: Seq<char>, ending: Seq<char>)
    requires
        !stem.contains('/'),
        stem.len() > 0,
        !ending.contains('/'),
        !ending.contains('.'),
        ending.len() > 0,
    ensures
        extension(dir + seq!['/'] + (stem + seq!['.'] + ending)) == Some(ending),
        file_stem(dir + seq!['/'] + (stem + seq!['.'] + ending)) == Some(stem),
{
    let name = stem + seq!['.'] + ending;
    let n = stem.len() as int;
    assert forall|i: int| 0 <= i < name.len() implies name[i] != '/' by {
        if i < n {
            assert(name[i] == stem[i]);
            assert(stem.contains(stem[i]));
        } else if i > n {
            assert(name[i] == ending[i - n - 1]);
            assert(ending.contains(ending[i - n - 1]));
        }
    }
    assert(name.len() >= 3);
    lemma_file_below(dir, name);
    let dot = seq!['.'];
    lemma_rfind_to(name, dot, name.len() - 1);
    assert(name.subrange(n, n + 1) =~= dot);
    assert(occurs_at(name, dot, n));
    let i = rfind_to(name, dot, name.len() - 1)->0;
    assert(name.subrange(i, i + 1)[0] == name[i]);
    assert(name[i] == '.');
    if i > n {
        assert(name[i] == ending[i - n - 1]);
        assert(ending.contains(ending[i - n - 1]));
    }
    assert(i == n);
    assert(name.subrange(0, n) =~= stem);
    assert(name.subrange(n + 1, name.len() as int) =~= ending);
}

/// Of the files and links with an extension those with `gguf` are taken for models, and
/// no others.
pub proof fn law_which_files_are_models(
    dir: Seq<char>,
    stem: Seq<char>,
    ending: Seq<char>,
    is_file: bool,
    is_link: bool,
)
    requires
        !stem.contains('/'),
        stem.len() > 0,
        !ending.contains('/'),
        !ending.contains('.'),
        ending.len() > 0,
    ensures
        is_model_path(dir + seq!['/'] + (stem + seq!['.'] + ending), is_file, is_link) <==> (is_file
            || is_link) && ending == seq!['g', 'g', 'u', 'f'],
{
    law_extension_of_file(dir, stem, ending);
    reveal_strlit("gguf");
    assert("gguf"@ =~= seq!['g', 'g', 'u', 'f']);
}

// ---------------------------------------------------------------------------
// Manifests

/// The name of a directory or a file within a path.
pub open spec fn is_step(s: Seq<char>) -> bool {
    s.len() > 0 && s != seq!['.'] && !s.contains('/')
}

proof fn lemma_steps(parts: Seq<Seq<char>>)
    requires
        parts.len() > 0,
        forall|i: int| 0 <= i < parts.len() ==> is_step(#[trigger] parts[i]),
    ensures
        split(spelled(parts, '/'), '/') == parts,
        named_parts(parts) == parts,
{
    assert forall|i: int| 0 <= i < parts.len() implies !(#[trigger] parts[i]).contains('/') by {
        assert(is_step(parts[i]));
    }
    law_parts_are_taken_apart(parts, '/');
    lemma_all_named(parts);
}

proof fn lemma_all_named(parts: Seq<Seq<char>>)
    requires
        forall|i: int| 0 <= i < parts.len() ==> is_step(#[trigger] parts[i]),
    ensures
        named_parts(parts) == parts,
    decreases parts.len(),
{
    if parts.len() > 0 {
        let front = parts.drop_last();
        assert forall|i: int| 0 <= i < front.len() implies is_step(#[trigger] front[i]) by {
            assert(front[i] == parts[i]);
        }
        lemma_all_named(front);
        assert(is_step(parts[parts.len() - 1]));
        assert(front.push(parts.last()) =~= parts);
    } else {
        assert(parts =~= Seq::empty());
    }
}

/// A step that stays where it is, and a doubled slash, do not change where a path leads.
pub proof fn law_idle_steps_do_not_count(dir: Seq<char>, tail: Seq<char>)
    requires
        dir.len() > 0,
    ensures
        components(dir + seq!['/'] + seq!['.'] + seq!['/'] + tail) == components(
            dir + seq!['/'] + tail,
        ),
        components(dir + seq!['/'] + seq!['/'] + tail) == components(dir + seq!['/'] + tail),
{
    let none = Seq::<char>::empty();
    let dot = seq!['.'];
    let slash = seq!['/'];
    let a = dir + slash + dot + slash + tail;
    let b = dir + slash + slash + tail;
    let c = dir + slash + tail;
    let front = split(dir, '/');
    let back = split(tail, '/');
    lemma_split_around(dir, tail, '/');
    lemma_split_around(dot, tail, '/');
    lemma_split_around(none, tail, '/');
    lemma_split_around(dir, dot + slash + tail, '/');
    lemma_split_around(dir, none + slash + tail, '/');
    assert(a =~= dir + slash + (dot + slash + tail));
    assert(b =~= dir + slash + (none + slash + tail));
    lemma_lacks_char(dot, '/');
    lemma_lacks_char(none, '/');
    assert(split(dot, '/') == seq![dot]);
    assert(split(none, '/') == seq![none]);
    lemma_named_parts(front, back);
    lemma_named_parts(front, seq![dot] + back);
    lemma_named_parts(front, seq![none] + back);
    lemma_named_parts(seq![dot], back);
    lemma_named_parts(seq![none], back);
    let nothing = Seq::<Seq<char>>::empty();
    assert(seq![dot].drop_last() =~= nothing && seq![none].drop_last() =~= nothing);
    assert(named_parts(nothing) == nothing);
    assert(named_parts(seq![dot]) == nothing && named_parts(seq![none]) == nothing);
    assert(nothing + named_parts(back) =~= named_parts(back));
    lemma_find_from(dir, slash, 0);
    assert(front.len() > 0);
    assert(split(a, '/')[0] == front[0] && split(b, '/')[0] == front[0] && split(c, '/')[0]
        == front[0]);
    assert(a[0] == dir[0] && b[0] == dir[0] && c[0] == dir[0]);
}

/// What lies below a directory is found there by the steps that lead to it.
pub proof fn law_steps_below_directory(root: Seq<char>, parts: Seq<Seq<char>>)
    requires
        root.len() > 0,
        parts.len() > 0,
        forall|i: int| 0 <= i < parts.len() ==> is_step(#[trigger] parts[i]),
    ensures
        path_below(root + seq!['/'] + spelled(parts, '/'), root) == Some(parts),
{
    let tail = spelled(parts, '/');
    let path = root + seq!['/'] + tail;
    lemma_steps(parts);
    lemma_split_around(root, tail, '/');
    let front = split(root, '/');
    lemma_named_parts(front, parts);
    lemma_find_from(root, seq!['/'], 0);
    assert(front.len() > 0);
    assert(split(path, '/')[0] == front[0]);
    assert(path[0] == root[0]);
    assert(path_root(path) == path_root(root));
    let b = components(root);
    let a = components(path);
    assert(a =~= b + parts);
    assert(a.subrange(0, b.len() as int) =~= b);
    assert(a.subrange(b.len() as int, a.len() as int) =~= parts);
}

/// A manifest in the store, below the host, the namespace and the model, names the model
/// by the last two and its tag; the namespace stands in front, unless it is the public
/// library. The model is the blob of its digest.
pub proof fn law_manifest_names_model(
    root: Seq<char>,
    host: Seq<char>,
    namespace: Seq<char>,
    model: Seq<char>,
    tag: Seq<char>,
    hash: Seq<char>,
    blobs: Seq<char>,
)
    requires
        root.len() > 0,
        is_step(host),
        is_step(namespace),
        is_step(model),
        is_step(tag),
        !hash.contains(':'),
        blobs.len() > 0,
        blobs.last() != '/',
    ensures
        ({
            let file = root + seq!['/'] + spelled(seq![host, namespace, model, tag], '/');
            let short = root + seq!['/'] + spelled(seq![namespace, model, tag], '/');
            let digest = "sha256:"@ + hash;
            let name = if namespace == "library"@ {
                model + seq![':'] + tag
            } else {
                namespace + seq!['/'] + model + seq![':'] + tag
            };
            let blob = blobs + "/sha256-"@ + hash;
            &&& manifest_model(digest, root, file, blobs) == Some((name, blob))
            &&& manifest_model(digest, root, short, blobs) == Some((name, blob))
        }),
{
    let four = seq![host, namespace, model, tag];
    let three = seq![namespace, model, tag];
    assert forall|i: int| 0 <= i < four.len() implies is_step(#[trigger] four[i]) by {}
    assert forall|i: int| 0 <= i < three.len() implies is_step(#[trigger] three[i]) by {}
    law_steps_below_directory(root, four);
    law_steps_below_directory(root, three);
    let file = root + seq!['/'] + spelled(four, '/');
    let short = root + seq!['/'] + spelled(three, '/');
    law_digest_names_blob(hash, root, file, blobs);
    law_digest_names_blob(hash, root, short, blobs);
    reveal_strlit("sha256-");
    reveal_strlit("/sha256-");
    let name = "sha256-"@ + hash;
    assert(name[0] == 's');
    assert(join_path(blobs, name) =~= blobs + "/sha256-"@ + hash);
}

/// The layer that counts is the first one with the media type of models.
pub proof fn law_first_model_layer_counts(layers: Seq<LayerView>, i: int)
    requires
        0 <= i < layers.len(),
        layers[i].media_type == Some("application/vnd.ollama.image.model"@),
        forall|j: int|
            0 <= j < i ==> (#[trigger] layers[j]).media_type != Some(
                "application/vnd.ollama.image.model"@,
            ),
    ensures
        model_digest(layers) == layers[i].digest,
    decreases i,
{
    if i > 0 {
        assert(layers[0].media_type != Some("application/vnd.ollama.image.model"@));
        let rest = layers.skip(1);
        assert forall|j: int| 0 <= j < i - 1 implies (#[trigger] rest[j]).media_type != Some(
            "application/vnd.ollama.image.model"@,
        ) by {
            assert(rest[j] == layers[j + 1]);
        }
        law_first_model_layer_counts(rest, i - 1);
    }
}

/// Without such a layer there is no model.
pub proof fn law_no_model_layer(layers: Seq<LayerView>)
    requires
        forall|j: int|
            0 <= j < layers.len() ==> (#[trigger] layers[j]).media_type != Some(
                "application/vnd.ollama.image.model"@,
            ),
    ensures
        model_digest(layers) is None,
    decreases layers.len(),
{
    if layers.len() > 0 {
        assert(layers[0].media_type != Some("application/vnd.ollama.image.model"@));
        let rest = layers.skip(1);
        assert forall|j: int| 0 <= j < rest.len() implies (#[trigger] rest[j]).media_type != Some(
            "application/vnd.ollama.image.model"@,
        ) by {
            assert(rest[j] == layers[j + 1]);
        }
        law_no_model_layer(rest);
    }
}

/// The layers of a manifest are the items of its list `layers`, each with its
/// `mediaType` and its `digest`, where these are strings.
pub proof fn law_layers_of_manifest(
    content: Seq<char>,
    text: Seq<char>,
    n: nat,
    i: int,
    media_type: Seq<char>,
    digest: Seq<char>,
)
    requires
        json_node(content, "/layers"@) == Some(NodeView { text, shape: Shape::Array(n) }),
        0 <= i < n,
        json_node(content, "/layers/"@ + decimal(i as nat) + "/mediaType"@) == Some(
            NodeView { text: quoted(media_type), shape: Shape::Str(media_type) },
        ),
        json_node(content, "/layers/"@ + decimal(i as nat) + "/digest"@) == Some(
            NodeView { text: quoted(digest), shape: Shape::Str(digest) },
        ),
    ensures
        manifest_layers(content) matches Some(layers) && layers.len() == n
            && layers[i].media_type == Some(media_type) && layers[i].digest == Some(digest),
{
    reveal_strlit("/layers");
    reveal_strlit("/layers/");
    assert("/layers"@ + item_pointer(i as nat) + "/mediaType"@ =~= "/layers/"@ + decimal(i as nat)
        + "/mediaType"@);
    assert("/layers"@ + item_pointer(i as nat) + "/digest"@ =~= "/layers/"@ + decimal(i as nat)
        + "/digest"@);
}

} // verus!
