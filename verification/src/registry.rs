//! The registry of models: what is known of the models on disk, and which of them
//! a request means.

use vstd::prelude::*;
use vstd::slice::slice_subrange;

use crate::chat::in_small_letters;
use crate::chat::to_small_letters;
use crate::json::texts;
use crate::ollama_types::details_of;
use crate::ollama_types::option_text;
use crate::ollama_types::GgufInfo;
use crate::ollama_types::InfoView;
use crate::ollama_types::ModelMetadata;
use crate::ollama_types::ModelTag;
use crate::ollama_types::TagView;
use crate::path::ends_with_path;
use crate::path::extension;
use crate::path::extension_of;
use crate::path::file_stem;
use crate::path::join_path;
use crate::path::joined_path;
use crate::path::path_ends_with;
use crate::path::stem_of;
use crate::text::chars_of;
use crate::text::copy_chars;
use crate::text::copy_str;
use crate::text::ends;
use crate::text::ends_with;
use crate::text::has_text;
use crate::text::is_before;
use crate::text::lemma_precedes_total;
use crate::text::lemma_precedes_transitive;
use crate::text::mentions;
use crate::text::precedes;
use crate::text::push_all;
use crate::text::same_chars;
use crate::text::same_text;
use crate::text::stands_in;
use crate::text::string_of;
use crate::text::swap_char;
use crate::text::swapped;
use crate::text::trim;
use crate::text::trimmed;

verus! {

// ---------------------------------------------------------------------------
// Models

/// A model that can be loaded on demand.
pub struct RegisteredModel {
    pub name: String,
    pub path: String,
    /// Where it was found: `Local`, `Ollama`, `Custom` or `Direct`.
    pub source: String,
    pub size: u64,
    pub metadata: ModelMetadata,
}

/// The mathematical form of a [`RegisteredModel`].
pub struct ModelView {
    pub name: Seq<char>,
    pub path: Seq<char>,
    pub source: Seq<char>,
    pub size: u64,
    pub architecture: Seq<char>,
    pub parameter_count: u64,
    pub quantization: Option<Seq<char>>,
    pub context_length: u32,
}

impl View for RegisteredModel {
    type V = ModelView;

    open spec fn view(&self) -> ModelView {
        ModelView {
            name: self.name@,
            path: self.path@,
            source: self.source@,
            size: self.size,
            architecture: self.metadata.architecture@,
            parameter_count: self.metadata.parameter_count,
            quantization: option_text(self.metadata.quantization),
            context_length: self.metadata.context_length,
        }
    }
}

/// What is reported of a model's file.
pub open spec fn info_of(m: ModelView) -> InfoView {
    InfoView {
        file_size: m.size,
        architecture: m.architecture,
        parameter_count: m.parameter_count,
        quantization: match m.quantization {
            Some(q) => q,
            None => "unknown"@,
        },
        context_length: m.context_length,
    }
}

/// The entry of a model in the list of models.
pub open spec fn tag_of(m: ModelView) -> TagView {
    TagView { name: m.name, model: m.name, size: m.size, details: details_of(info_of(m)) }
}

/// The model that a file stands for, named after the file.
pub open spec fn model_of_file(
    path: Seq<char>,
    source: Seq<char>,
    size: u64,
    architecture: Seq<char>,
    parameter_count: u64,
    quantization: Option<Seq<char>>,
    context_length: u32,
) -> ModelView {
    ModelView {
        name: match file_stem(path) {
            Some(stem) => stem,
            None => "model"@,
        },
        path,
        source,
        size,
        architecture,
        parameter_count,
        quantization,
        context_length,
    }
}

impl RegisteredModel {
    /// The model that a file stands for, named after the file.
    pub fn of_file(path: &str, source: &str, size: u64, metadata: ModelMetadata) -> (r: Self)
        ensures
            r@ == model_of_file(
                path@,
                source@,
                size,
                metadata.architecture@,
                metadata.parameter_count,
                option_text(metadata.quantization),
                metadata.context_length,
            ),
    {
        let name = match stem_of(path) {
            Some(stem) => stem,
            None => copy_str("model"),
        };
        RegisteredModel { name, path: copy_str(path), source: copy_str(source), size, metadata }
    }

    /// A copy under a name.
    pub fn copy_as(&self, name: String) -> (r: Self)
        ensures
            r@ == (ModelView { name: name@, ..self@ }),
    {
        RegisteredModel {
            name,
            path: copy_str(self.path.as_str()),
            source: copy_str(self.source.as_str()),
            size: self.size,
            metadata: self.metadata.copy(),
        }
    }

    /// A copy.
    pub fn copy(&self) -> (r: Self)
        ensures
            r@ == self@,
    {
        self.copy_as(copy_str(self.name.as_str()))
    }

    /// The entry of the model in the list of models.
    pub fn to_model_tag(&self) -> (r: ModelTag)
        ensures
            r@ == tag_of(self@),
    {
        let info = self.to_gguf_info();
        ModelTag {
            name: copy_str(self.name.as_str()),
            model: copy_str(self.name.as_str()),
            size: self.size,
            details: info.details(),
        }
    }

    /// What is reported of the model's file.
    pub fn to_gguf_info(&self) -> (r: GgufInfo)
        ensures
            r@ == info_of(self@),
    {
        GgufInfo {
            file_size: self.size,
            architecture: copy_str(self.metadata.architecture.as_str()),
            parameter_count: self.metadata.parameter_count,
            quantization: match &self.metadata.quantization {
                Some(q) => copy_str(q.as_str()),
                None => copy_str("unknown"),
            },
            context_length: self.metadata.context_length,
        }
    }
}

// ---------------------------------------------------------------------------
// The registry

/// A model file that was found and could be read.
pub struct FoundFile {
    pub path: String,
    pub size: u64,
    pub metadata: ModelMetadata,
}

/// The model that a file stands for, found in the given place.
pub open spec fn model_in(file: FoundFile, source: Seq<char>) -> ModelView {
    model_of_file(
        file.path@,
        source,
        file.size,
        file.metadata.architecture@,
        file.metadata.parameter_count,
        option_text(file.metadata.quantization),
        file.metadata.context_length,
    )
}

/// A model file of the Ollama store, and the name that its manifest gives it.
pub struct OllamaModel {
    pub name: String,
    pub file: FoundFile,
}

/// What a scan of the directories found, in the order in which it was found: in the
/// directory that was asked for, in the current one, and in the Ollama store.
pub struct Discovered {
    pub custom: Vec<FoundFile>,
    pub local: Vec<FoundFile>,
    pub ollama: Vec<OllamaModel>,
}

impl FoundFile {
    /// The model that the file stands for, found in the given place.
    pub fn model(&self, source: &str) -> (r: RegisteredModel)
        ensures
            r@ == model_in(*self, source@),
    {
        RegisteredModel::of_file(self.path.as_str(), source, self.size, self.metadata.copy())
    }
}

/// The models that are known, each under its own name, and the directories in
/// which they are sought.
pub struct ModelRegistry {
    pub models: Vec<RegisteredModel>,
    pub custom_dir: Option<String>,
    pub ollama_dir: Option<String>,
}

/// The index of the model with the given name.
pub open spec fn named_at(models: Seq<RegisteredModel>, name: Seq<char>) -> Option<int>
    decreases models.len(),
{
    if models.len() == 0 {
        None
    } else {
        match named_at(models.drop_last(), name) {
            Some(i) => Some(i),
            None => if models.last().name@ == name {
                Some(models.len() - 1)
            } else {
                None
            },
        }
    }
}

/// No two models have the same name.
pub open spec fn names_differ(models: Seq<RegisteredModel>) -> bool {
    forall|i: int, j: int|
        0 <= i < j < models.len() ==> #[trigger] models[i].name@ != #[trigger] models[j].name@
}

/// The models by their names.
pub open spec fn by_name(models: Seq<RegisteredModel>) -> Map<Seq<char>, ModelView> {
    Map::new(
        |name: Seq<char>| named_at(models, name) is Some,
        |name: Seq<char>| models[named_at(models, name)->0]@,
    )
}

/// `known` with the model files found in a directory, a later one in place of an
/// earlier one of the same name.
pub open spec fn with_found(
    known: Map<Seq<char>, ModelView>,
    files: Seq<FoundFile>,
    source: Seq<char>,
) -> Map<Seq<char>, ModelView>
    decreases files.len(),
{
    if files.len() == 0 {
        known
    } else {
        let model = model_in(files.last(), source);
        with_found(known, files.drop_last(), source).insert(model.name, model)
    }
}

/// `known` with a model of the Ollama store under the name of its manifest, and
/// without the tag `:latest` as well.
pub open spec fn with_manifest(
    known: Map<Seq<char>, ModelView>,
    name: Seq<char>,
    model: ModelView,
) -> Map<Seq<char>, ModelView> {
    let named = known.insert(name, ModelView { name, ..model });
    if ends_with(name, ":latest"@) {
        let base = name.subrange(0, name.len() - ":latest"@.len());
        named.insert(base, ModelView { name: base, ..model })
    } else {
        named
    }
}

/// `known` with the models of the Ollama store.
pub open spec fn with_ollama(
    known: Map<Seq<char>, ModelView>,
    models: Seq<OllamaModel>,
) -> Map<Seq<char>, ModelView>
    decreases models.len(),
{
    if models.len() == 0 {
        known
    } else {
        with_manifest(
            with_ollama(known, models.drop_last()),
            models.last().name@,
            model_in(models.last().file, "Ollama"@),
        )
    }
}

/// All models that a scan found: those of the Ollama store in place of local ones
/// of the same name, and these in place of custom ones.
pub open spec fn discovered(found: Discovered) -> Map<Seq<char>, ModelView> {
    with_ollama(
        with_found(
            with_found(Map::empty(), found.custom@, "Custom"@),
            found.local@,
            "Local"@,
        ),
        found.ollama@,
    )
}

/// `named_at` gives the first model of the name, and none only where there is
/// none.
pub proof fn lemma_named_at(models: Seq<RegisteredModel>, name: Seq<char>)
    ensures
        match named_at(models, name) {
            Some(i) => 0 <= i < models.len() && models[i].name@ == name && forall|j: int|
                0 <= j < i ==> (#[trigger] models[j]).name@ != name,
            None => forall|j: int| 0 <= j < models.len() ==> (#[trigger] models[j]).name@ != name,
        },
    decreases models.len(),
{
    if models.len() > 0 {
        let front = models.drop_last();
        lemma_named_at(front, name);
        assert forall|j: int| 0 <= j < front.len() implies #[trigger] models[j] == front[j] by {}
        match named_at(front, name) {
            Some(i) => {
                assert(models[i] == front[i]);
            },
            None => {
                assert forall|j: int| 0 <= j < front.len() implies (#[trigger] models[j]).name@
                    != name by {
                    assert(front[j].name@ != name);
                }
            },
        }
    }
}

proof fn lemma_put(
    models: Seq<RegisteredModel>,
    at: Option<int>,
    model: RegisteredModel,
    next: Seq<RegisteredModel>,
)
    requires
        names_differ(models),
        named_at(models, model.name@) == at,
        match at {
            Some(i) => next == models.update(i, model),
            None => next == models.push(model),
        },
    ensures
        names_differ(next),
        by_name(next) == by_name(models).insert(model.name@, model@),
{
    let name = model.name@;
    lemma_named_at(models, name);
    assert forall|i: int, j: int| 0 <= i < j < next.len() implies #[trigger] next[i].name@
        != #[trigger] next[j].name@ by {}
    assert forall|k: Seq<char>| #[trigger]
        by_name(next).dom().contains(k) == by_name(models).insert(name, model@).dom().contains(
            k,
        ) by {
        lemma_named_at(models, k);
        lemma_named_at(next, k);
        if k == name {
            let i = match at {
                Some(i) => i,
                None => models.len() as int,
            };
            assert(next[i].name@ == name);
        } else {
            match named_at(models, k) {
                Some(i) => {
                    assert(next[i].name@ == k);
                },
                None => {},
            }
            match named_at(next, k) {
                Some(i) => {
                    assert(i < models.len());
                    assert(models[i].name@ == k);
                },
                None => {},
            }
        }
    }
    assert forall|k: Seq<char>| #[trigger]
        by_name(next).dom().contains(k) implies by_name(next)[k] == by_name(models).insert(
        name,
        model@,
    )[k] by {
        lemma_named_at(models, k);
        lemma_named_at(next, k);
        let i = named_at(next, k)->0;
        if k == name {
            let w = match at {
                Some(i) => i,
                None => models.len() as int,
            };
            assert(next[w].name@ == name);
            assert(i == w);
        } else {
            assert(next[i] == models[i]);
            let j = named_at(models, k)->0;
            assert(models[j].name@ == k);
            assert(i == j);
        }
    }
    assert(by_name(next) =~= by_name(models).insert(name, model@));
}

impl ModelRegistry {
    /// Every model stands under its own name.
    pub open spec fn wf(&self) -> bool {
        names_differ(self.models@)
    }

    /// The models by their names.
    pub open spec fn known(&self) -> Map<Seq<char>, ModelView> {
        by_name(self.models@)
    }

    /// A registry of what a scan found.
    pub fn new(custom_dir: Option<String>, ollama_dir: Option<String>, found: Discovered) -> (r: Self)
        ensures
            r.wf(),
            r.known() == discovered(found),
            r.custom_dir == custom_dir,
            r.ollama_dir == ollama_dir,
    {
        let mut registry = ModelRegistry { models: Vec::new(), custom_dir, ollama_dir };
        registry.refresh(found);
        registry
    }

    /// Forgets all models and takes up what a new scan found.
    pub fn refresh(&mut self, found: Discovered)
        ensures
            final(self).wf(),
            final(self).known() == discovered(found),
            final(self).custom_dir == old(self).custom_dir,
            final(self).ollama_dir == old(self).ollama_dir,
    {
        self.models = Vec::new();
        proof {
            assert(self.known() =~= Map::<Seq<char>, ModelView>::empty());
        }
        self.scan_directory(found.custom, "Custom");
        self.scan_directory(found.local, "Local");
        self.scan_ollama_models(found.ollama);
    }

    /// The index of the model with the given name.
    pub(crate) fn index_of(&self, name: &[char]) -> (r: Option<usize>)
        ensures
            match r {
                Some(i) => named_at(self.models@, name@) == Some(i as int) && i < self.models@.len(),
                None => named_at(self.models@, name@) is None,
            },
    {
        let mut i: usize = 0;
        proof {
            assert(self.models@.take(0) =~= Seq::<RegisteredModel>::empty());
        }
        while i < self.models.len()
            invariant
                i <= self.models@.len(),
                named_at(self.models@.take(i as int), name@) is None,
            decreases self.models@.len() - i,
        {
            let own = chars_of(self.models[i].name.as_str());
            proof {
                assert(self.models@.take(i + 1).drop_last() =~= self.models@.take(i as int));
                assert(self.models@.take(i + 1).last() == self.models@[i as int]);
            }
            if same_chars(own.as_slice(), name) {
                proof {
                    lemma_named_at(self.models@, name@);
                    lemma_named_at(self.models@.take(i as int), name@);
                    assert forall|j: int| 0 <= j < i implies (
                    #[trigger] self.models@[j]).name@ != name@ by {
                        assert(self.models@.take(i as int)[j].name@ != name@);
                    }
                }
                return Some(i);
            }
            i = i + 1;
        }
        proof {
            assert(self.models@.take(self.models@.len() as int) =~= self.models@);
        }
        None
    }

    /// Puts a model in, in place of one of the same name.
    pub fn insert(&mut self, model: RegisteredModel)
        requires
            old(self).wf(),
        ensures
            final(self).wf(),
            final(self).known() == old(self).known().insert(model.name@, model@),
            final(self).custom_dir == old(self).custom_dir,
            final(self).ollama_dir == old(self).ollama_dir,
    {
        let name = chars_of(model.name.as_str());
        match self.index_of(name.as_slice()) {
            Some(i) => {
                proof {
                    lemma_put(self.models@, Some(i as int), model, self.models@.update(i as int, model));
                }
                self.models.set(i, model);
            },
            None => {
                proof {
                    lemma_put(self.models@, None, model, self.models@.push(model));
                }
                self.models.push(model);
            },
        }
    }

    /// Takes up the model files found in a directory.
    pub fn scan_directory(&mut self, found: Vec<FoundFile>, source_label: &str)
        requires
            old(self).wf(),
        ensures
            final(self).wf(),
            final(self).known() == with_found(old(self).known(), found@, source_label@),
            final(self).custom_dir == old(self).custom_dir,
            final(self).ollama_dir == old(self).ollama_dir,
    {
        let ghost before = self.known();
        let mut i: usize = 0;
        proof {
            assert(found@.take(0) =~= Seq::<FoundFile>::empty());
        }
        while i < found.len()
            invariant
                self.wf(),
                i <= found@.len(),
                self.known() == with_found(before, found@.take(i as int), source_label@),
                self.custom_dir == old(self).custom_dir,
                self.ollama_dir == old(self).ollama_dir,
            decreases found@.len() - i,
        {
            let file = &found[i];
            proof {
                assert(found@.take(i + 1).drop_last() =~= found@.take(i as int));
                assert(found@.take(i + 1).last() == *file);
            }
            self.insert(file.model(source_label));
            i = i + 1;
        }
        proof {
            assert(found@.take(found@.len() as int) =~= found@);
        }
    }

    /// Takes up the models of the Ollama store.
    pub fn scan_ollama_models(&mut self, found: Vec<OllamaModel>)
        requires
            old(self).wf(),
        ensures
            final(self).wf(),
            final(self).known() == with_ollama(old(self).known(), found@),
            final(self).custom_dir == old(self).custom_dir,
            final(self).ollama_dir == old(self).ollama_dir,
    {
        let ghost before = self.known();
        let mut i: usize = 0;
        proof {
            assert(found@.take(0) =~= Seq::<OllamaModel>::empty());
            reveal_strlit(":latest");
        }
        while i < found.len()
            invariant
                ":latest"@.len() == 7,
                self.wf(),
                i <= found@.len(),
                self.known() == with_ollama(before, found@.take(i as int)),
                self.custom_dir == old(self).custom_dir,
                self.ollama_dir == old(self).ollama_dir,
            decreases found@.len() - i,
        {
            let entry = &found[i];
            proof {
                assert(found@.take(i + 1).drop_last() =~= found@.take(i as int));
                assert(found@.take(i + 1).last() == *entry);
            }
            let name = chars_of(entry.name.as_str());
            let model = entry.file.model("Ollama");
            self.insert(model.copy_as(copy_str(entry.name.as_str())));
            if ends(name.as_slice(), ":latest") {
                let base = string_of(slice_subrange(name.as_slice(), 0, name.len() - 7));
                self.insert(model.copy_as(base));
            }
            i = i + 1;
        }
        proof {
            assert(found@.take(found@.len() as int) =~= found@);
        }
    }
}

// ---------------------------------------------------------------------------
// Which model a request means

/// The first of the models whose path ends with the path `tail`.
pub open spec fn first_with_path(models: Seq<RegisteredModel>, tail: Seq<char>) -> Option<int>
    decreases models.len(),
{
    if models.len() == 0 {
        None
    } else {
        match first_with_path(models.drop_last(), tail) {
            Some(i) => Some(i),
            None => if path_ends_with(models.last().path@, tail) {
                Some(models.len() - 1)
            } else {
                None
            },
        }
    }
}

/// The first of the texts that holds `part`.
pub open spec fn first_holding(list: Seq<Seq<char>>, part: Seq<char>) -> Option<int>
    decreases list.len(),
{
    if list.len() == 0 {
        None
    } else {
        match first_holding(list.drop_last(), part) {
            Some(i) => Some(i),
            None => if mentions(list.last(), part) {
                Some(list.len() - 1)
            } else {
                None
            },
        }
    }
}

/// The names of the models in small letters.
pub open spec fn lowered_names(models: Seq<RegisteredModel>) -> Seq<Seq<char>> {
    Seq::new(models.len(), |i: int| in_small_letters(models[i].name@))
}

/// The first of the models whose name, in small letters, holds `part`.
pub open spec fn first_with_part(models: Seq<RegisteredModel>, part: Seq<char>) -> Option<int> {
    first_holding(lowered_names(models), part)
}

/// A name with the tag `:latest` taken off, or put on where it has none.
pub open spec fn latest_twin(name: Seq<char>) -> Seq<char> {
    if ends_with(name, ":latest"@) {
        name.subrange(0, name.len() - ":latest"@.len())
    } else {
        name + ":latest"@
    }
}

/// A name with hyphens for its colons, or with colons for its hyphens where it has
/// no colon.
pub open spec fn colon_twin(name: Seq<char>) -> Seq<char> {
    if name.contains(':') {
        swap_char(name, ':', '-')
    } else {
        swap_char(name, '-', ':')
    }
}

/// Two names are the same where hyphens and colons are taken for one another.
pub open spec fn same_but_for_colons(a: Seq<char>, b: Seq<char>) -> bool {
    swap_char(a, ':', '-') == swap_char(b, ':', '-')
}

/// The first of the models whose name is `name` where hyphens and colons are taken
/// for one another.
pub open spec fn first_alike(models: Seq<RegisteredModel>, name: Seq<char>) -> Option<int>
    decreases models.len(),
{
    if models.len() == 0 {
        None
    } else {
        match first_alike(models.drop_last(), name) {
            Some(i) => Some(i),
            None => if same_but_for_colons(models.last().name@, name) {
                Some(models.len() - 1)
            } else {
                None
            },
        }
    }
}

/// The first answer, or else the second.
pub open spec fn or_else(a: Option<int>, b: Option<int>) -> Option<int> {
    match a {
        Some(i) => Some(i),
        None => b,
    }
}

/// The model that a query means: the first one for an empty query; or else the one
/// of that name, of its twin with or without `:latest`, of its twin with hyphens
/// and colons exchanged; or else the first one whose name differs only in hyphens
/// and colons; or else, where the query is the path of a file, the first one whose
/// path ends with it; or else the first one in whose name it occurs, whatever the
/// case of the letters.
pub open spec fn resolved(
    models: Seq<RegisteredModel>,
    query: Seq<char>,
    path_exists: bool,
) -> Option<int> {
    let q = trim(query);
    if q.len() == 0 {
        if models.len() > 0 {
            Some(0)
        } else {
            None
        }
    } else {
        let by_path = if path_exists {
            first_with_path(models, q)
        } else {
            None
        };
        or_else(
            named_at(models, q),
            or_else(
                named_at(models, latest_twin(q)),
                or_else(
                    named_at(models, colon_twin(q)),
                    or_else(
                        first_alike(models, q),
                        or_else(by_path, first_with_part(models, in_small_letters(q))),
                    ),
                ),
            ),
        )
    }
}

/// What a query resolves to is one of the models.
pub proof fn lemma_resolved(models: Seq<RegisteredModel>, query: Seq<char>, path_exists: bool)
    ensures
        resolved(models, query, path_exists) matches Some(i) ==> 0 <= i < models.len(),
{
    let q = trim(query);
    lemma_named_at(models, q);
    lemma_named_at(models, latest_twin(q));
    lemma_named_at(models, colon_twin(q));
    lemma_first_alike(models, q);
    lemma_first_with_path(models, q);
    lemma_first_holding(lowered_names(models), in_small_letters(q));
}

/// `first_alike` gives the first model whose name is the same but for hyphens and
/// colons, and none only where there is none.
pub proof fn lemma_first_alike(models: Seq<RegisteredModel>, name: Seq<char>)
    ensures
        match first_alike(models, name) {
            Some(i) => 0 <= i < models.len() && same_but_for_colons(models[i].name@, name) && forall|
                j: int,
            |
                0 <= j < i ==> !same_but_for_colons((#[trigger] models[j]).name@, name),
            None => forall|j: int|
                0 <= j < models.len() ==> !same_but_for_colons((#[trigger] models[j]).name@, name),
        },
    decreases models.len(),
{
    if models.len() > 0 {
        let front = models.drop_last();
        lemma_first_alike(front, name);
        assert forall|j: int| 0 <= j < front.len() implies #[trigger] models[j] == front[j] by {}
        match first_alike(front, name) {
            Some(i) => {
                assert(models[i] == front[i]);
            },
            None => {
                assert forall|j: int| 0 <= j < front.len() implies !same_but_for_colons(
                    (#[trigger] models[j]).name@,
                    name,
                ) by {
                    assert(!same_but_for_colons(front[j].name@, name));
                }
            },
        }
    }
}

proof fn lemma_first_with_path(models: Seq<RegisteredModel>, tail: Seq<char>)
    ensures
        first_with_path(models, tail) matches Some(i) ==> 0 <= i < models.len(),
    decreases models.len(),
{
    if models.len() > 0 {
        lemma_first_with_path(models.drop_last(), tail);
    }
}

proof fn lemma_first_holding(list: Seq<Seq<char>>, part: Seq<char>)
    ensures
        first_holding(list, part) matches Some(i) ==> 0 <= i < list.len(),
    decreases list.len(),
{
    if list.len() > 0 {
        lemma_first_holding(list.drop_last(), part);
    }
}

/// The first of the texts that holds `part`.
pub fn find_holding(list: &Vec<String>, part: &str) -> (r: Option<usize>)
    ensures
        match r {
            Some(i) => first_holding(texts(list@), part@) == Some(i as int) && i < list@.len(),
            None => first_holding(texts(list@), part@) is None,
        },
{
    let ghost all = texts(list@);
    let mut i: usize = 0;
    let mut hit: Option<usize> = None;
    proof {
        assert(all.take(0) =~= Seq::<Seq<char>>::empty());
    }
    while i < list.len()
        invariant
            all == texts(list@),
            i <= list@.len(),
            match hit {
                Some(k) => first_holding(all.take(i as int), part@) == Some(k as int) && k
                    < list@.len(),
                None => first_holding(all.take(i as int), part@) is None,
            },
        decreases list@.len() - i,
    {
        proof {
            assert(all.take(i + 1).drop_last() =~= all.take(i as int));
            assert(all.take(i + 1).last() == list@[i as int]@);
        }
        if hit.is_none() {
            let chars = chars_of(list[i].as_str());
            if has_text(chars.as_slice(), part) {
                hit = Some(i);
            }
        }
        i = i + 1;
    }
    proof {
        assert(all.take(all.len() as int) =~= all);
    }
    hit
}

impl ModelRegistry {
    /// The first of the models whose name is `name` where hyphens and colons are
    /// taken for one another.
    fn index_alike(&self, name: &[char]) -> (r: Option<usize>)
        ensures
            match r {
                Some(i) => first_alike(self.models@, name@) == Some(i as int) && i
                    < self.models@.len(),
                None => first_alike(self.models@, name@) is None,
            },
    {
        let wanted = swapped(name, ':', '-');
        let mut i: usize = 0;
        let mut hit: Option<usize> = None;
        proof {
            assert(self.models@.take(0) =~= Seq::<RegisteredModel>::empty());
        }
        while i < self.models.len()
            invariant
                wanted@ == swap_char(name@, ':', '-'),
                i <= self.models@.len(),
                match hit {
                    Some(k) => first_alike(self.models@.take(i as int), name@) == Some(k as int)
                        && k < self.models@.len(),
                    None => first_alike(self.models@.take(i as int), name@) is None,
                },
            decreases self.models@.len() - i,
        {
            proof {
                assert(self.models@.take(i + 1).drop_last() =~= self.models@.take(i as int));
                assert(self.models@.take(i + 1).last() == self.models@[i as int]);
            }
            if hit.is_none() {
                let own = chars_of(self.models[i].name.as_str());
                if same_chars(swapped(own.as_slice(), ':', '-').as_slice(), wanted.as_slice()) {
                    hit = Some(i);
                }
            }
            i = i + 1;
        }
        proof {
            assert(self.models@.take(self.models@.len() as int) =~= self.models@);
        }
        hit
    }

    /// The first of the models whose path ends with the path `tail`.
    fn index_of_path(&self, tail: &str) -> (r: Option<usize>)
        ensures
            match r {
                Some(i) => first_with_path(self.models@, tail@) == Some(i as int) && i
                    < self.models@.len(),
                None => first_with_path(self.models@, tail@) is None,
            },
    {
        let mut i: usize = 0;
        let mut hit: Option<usize> = None;
        proof {
            assert(self.models@.take(0) =~= Seq::<RegisteredModel>::empty());
        }
        while i < self.models.len()
            invariant
                i <= self.models@.len(),
                match hit {
                    Some(k) => first_with_path(self.models@.take(i as int), tail@) == Some(
                        k as int,
                    ) && k < self.models@.len(),
                    None => first_with_path(self.models@.take(i as int), tail@) is None,
                },
            decreases self.models@.len() - i,
        {
            proof {
                assert(self.models@.take(i + 1).drop_last() =~= self.models@.take(i as int));
                assert(self.models@.take(i + 1).last() == self.models@[i as int]);
            }
            if hit.is_none() && ends_with_path(self.models[i].path.as_str(), tail) {
                hit = Some(i);
            }
            i = i + 1;
        }
        proof {
            assert(self.models@.take(self.models@.len() as int) =~= self.models@);
        }
        hit
    }

    /// The first of the models whose name, in small letters, holds `part`.
    fn index_of_part(&self, part: &str) -> (r: Option<usize>)
        ensures
            match r {
                Some(i) => first_with_part(self.models@, part@) == Some(i as int) && i
                    < self.models@.len(),
                None => first_with_part(self.models@, part@) is None,
            },
    {
        let mut names: Vec<String> = Vec::new();
        let mut i: usize = 0;
        while i < self.models.len()
            invariant
                i <= self.models@.len(),
                names@.len() == i,
                forall|k: int|
                    0 <= k < i ==> #[trigger] names@[k]@ == in_small_letters(self.models@[k].name@),
            decreases self.models@.len() - i,
        {
            names.push(to_small_letters(self.models[i].name.as_str()));
            i = i + 1;
        }
        proof {
            assert(texts(names@) =~= lowered_names(self.models@));
        }
        find_holding(&names, part)
    }

    /// The index of the model that a query means; `path_exists` says whether the
    /// query, without white space around it, is the path of a file.
    fn resolve_index(&self, query: &str, path_exists: bool) -> (r: Option<usize>)
        ensures
            match r {
                Some(i) => resolved(self.models@, query@, path_exists) == Some(i as int) && i
                    < self.models@.len(),
                None => resolved(self.models@, query@, path_exists) is None,
            },
    {
        proof {
            reveal_strlit(":latest");
        }
        let chars = chars_of(query);
        let q = trimmed(chars.as_slice());
        if q.len() == 0 {
            return if self.models.len() > 0 {
                Some(0)
            } else {
                None
            };
        }
        if let Some(i) = self.index_of(q) {
            return Some(i);
        }
        let twin = if ends(q, ":latest") {
            copy_chars(slice_subrange(q, 0, q.len() - 7))
        } else {
            let mut tagged = copy_chars(q);
            let tag = chars_of(":latest");
            push_all(&mut tagged, tag.as_slice());
            tagged
        };
        if let Some(i) = self.index_of(twin.as_slice()) {
            return Some(i);
        }
        let other = if stands_in(':', q) {
            swapped(q, ':', '-')
        } else {
            swapped(q, '-', ':')
        };
        if let Some(i) = self.index_of(other.as_slice()) {
            return Some(i);
        }
        if let Some(i) = self.index_alike(q) {
            return Some(i);
        }
        let text = string_of(q);
        if path_exists {
            if let Some(i) = self.index_of_path(text.as_str()) {
                return Some(i);
            }
        }
        let lowered = to_small_letters(text.as_str());
        self.index_of_part(lowered.as_str())
    }

    /// The model that a query means; `path_exists` says whether the query, without
    /// white space around it, is the path of a file.
    pub fn resolve_model(&self, query: &str, path_exists: bool) -> (r: Option<&RegisteredModel>)
        ensures
            match resolved(self.models@, query@, path_exists) {
                Some(i) => 0 <= i < self.models@.len() && r == Some(&self.models@[i]),
                None => r is None,
            },
    {
        match self.resolve_index(query, path_exists) {
            Some(i) => Some(&self.models[i]),
            None => None,
        }
    }
}

// ---------------------------------------------------------------------------
// The list of models

/// `order` lists the indices of all models in the order of their names.
pub open spec fn sorts(order: Seq<int>, models: Seq<RegisteredModel>) -> bool {
    &&& order.len() == models.len()
    &&& forall|i: int| 0 <= i < order.len() ==> 0 <= #[trigger] order[i] < models.len()
    &&& forall|i: int, j: int|
        0 <= i < j < order.len() ==> precedes(
            models[#[trigger] order[i]].name@,
            models[#[trigger] order[j]].name@,
        )
    &&& forall|k: int| 0 <= k < models.len() ==> #[trigger] order.contains(k)
}

/// The indices that a list holds.
pub open spec fn indices(list: Seq<usize>) -> Seq<int> {
    Seq::new(list.len(), |i: int| list[i] as int)
}

/// Entries list the models in the order of their names.
pub open spec fn lists_models(tags: Seq<ModelTag>, models: Seq<RegisteredModel>) -> bool {
    exists|order: Seq<int>| #[trigger]
        sorts(order, models) && tags.len() == order.len() && forall|i: int|
            0 <= i < tags.len() ==> (#[trigger] tags[i])@ == tag_of(models[order[i]]@)
}

impl ModelRegistry {
    /// Whether one model comes before another in the order of their names.
    fn comes_before(&self, i: usize, j: usize) -> (r: bool)
        requires
            i < self.models@.len(),
            j < self.models@.len(),
        ensures
            r == precedes(self.models@[i as int].name@, self.models@[j as int].name@),
    {
        let a = chars_of(self.models[i].name.as_str());
        let b = chars_of(self.models[j].name.as_str());
        is_before(a.as_slice(), b.as_slice())
    }

    /// The indices of the models in the order of their names.
    pub fn sorted(&self) -> (r: Vec<usize>)
        requires
            self.wf(),
        ensures
            sorts(indices(r@), self.models@),
    {
        let ghost models = self.models@;
        let mut order: Vec<usize> = Vec::new();
        let mut n: usize = 0;
        while n < self.models.len()
            invariant
                models == self.models@,
                names_differ(models),
                n <= models.len(),
                order@.len() == n,
                forall|i: int| 0 <= i < n ==> (#[trigger] order@[i]) < n,
                forall|i: int, j: int|
                    0 <= i < j < n ==> precedes(
                        models[#[trigger] order@[i] as int].name@,
                        models[#[trigger] order@[j] as int].name@,
                    ),
                forall|k: usize| k < n ==> #[trigger] order@.contains(k),
            decreases models.len() - n,
        {
            let mut at: usize = 0;
            while at < order.len() && self.comes_before(order[at], n)
                invariant
                    models == self.models@,
                    n < models.len(),
                    order@.len() == n,
                    at <= n,
                    forall|i: int| 0 <= i < n ==> (#[trigger] order@[i]) < n,
                    forall|i: int|
                        0 <= i < at ==> precedes(
                            models[#[trigger] order@[i] as int].name@,
                            models[n as int].name@,
                        ),
                decreases n - at,
            {
                at = at + 1;
            }
            let ghost before = order@;
            let ghost name = models[n as int].name@;
            order.insert(at, n);
            proof {
                let after = order@;
                assert forall|i: int| at <= i < n implies precedes(
                    name,
                    models[#[trigger] before[i] as int].name@,
                ) by {
                    let first = models[before[at as int] as int].name@;
                    assert(before[at as int] < n);
                    lemma_precedes_total(first, name);
                    if i > at {
                        assert(precedes(first, models[before[i] as int].name@));
                        lemma_precedes_transitive(name, first, models[before[i] as int].name@);
                    }
                }
                assert forall|i: int, j: int| 0 <= i < j < n + 1 implies precedes(
                    models[#[trigger] after[i] as int].name@,
                    models[#[trigger] after[j] as int].name@,
                ) by {
                    let a = if i < at {
                        i
                    } else {
                        i - 1
                    };
                    let b = if j < at {
                        j
                    } else {
                        j - 1
                    };
                    if i != at {
                        assert(after[i] == before[a]);
                    }
                    if j != at {
                        assert(after[j] == before[b]);
                    }
                }
                assert forall|k: usize| k < n + 1 implies #[trigger] after.contains(k) by {
                    if k == n {
                        assert(after[at as int] == k);
                    } else {
                        assert(before.contains(k));
                        let i = choose|i: int| 0 <= i < n && #[trigger] before[i] == k;
                        if i < at {
                            assert(after[i] == k);
                        } else {
                            assert(after[i + 1] == k);
                        }
                    }
                }
                assert forall|i: int| 0 <= i < n + 1 implies (#[trigger] after[i]) < n + 1 by {
                    if i < at {
                        assert(after[i] == before[i]);
                    } else if i > at {
                        assert(after[i] == before[i - 1]);
                    }
                }
            }
            n = n + 1;
        }
        proof {
            let all = indices(order@);
            assert forall|k: int| 0 <= k < models.len() implies #[trigger] all.contains(k) by {
                assert(order@.contains(k as usize));
                let i = choose|i: int| 0 <= i < n && #[trigger] order@[i] == k as usize;
                assert(all[i] == k);
            }
        }
        order
    }

    /// The entries of all models, in the order of their names.
    pub fn list_models(&self) -> (r: Vec<ModelTag>)
        requires
            self.wf(),
        ensures
            lists_models(r@, self.models@),
    {
        let order = self.sorted();
        let ghost all = indices(order@);
        let mut out: Vec<ModelTag> = Vec::new();
        let mut i: usize = 0;
        while i < order.len()
            invariant
                all == indices(order@),
                sorts(all, self.models@),
                i <= order@.len(),
                out@.len() == i,
                forall|k: int|
                    0 <= k < i ==> (#[trigger] out@[k])@ == tag_of(self.models@[all[k]]@),
            decreases order@.len() - i,
        {
            proof {
                assert(all[i as int] == order@[i as int]);
            }
            out.push(self.models[order[i]].to_model_tag());
            i = i + 1;
        }
        out
    }
}

// ---------------------------------------------------------------------------
// What a scan looks at

/// A directory entry that is taken for a model: a file or a link with the
/// extension `gguf`.
pub open spec fn is_model_path(path: Seq<char>, is_file: bool, is_link: bool) -> bool {
    (is_file || is_link) && extension(path) == Some("gguf"@)
}

/// Whether a directory entry is taken for a model.
pub fn is_model_file(path: &str, is_file: bool, is_link: bool) -> (r: bool)
    ensures
        r == is_model_path(path@, is_file, is_link),
{
    match extension_of(path) {
        Some(e) => (is_file || is_link) && same_text(e.as_str(), "gguf"),
        None => false,
    }
}

/// A directory, and whether it exists.
pub struct Candidate {
    pub path: String,
    pub exists: bool,
}

/// The path of the Ollama store in a home directory.
pub fn store_in_home(home: &str) -> (r: String)
    ensures
        r@ == join_path(home@, ".ollama/models"@),
{
    joined_path(home, ".ollama/models")
}

/// The path of the directory with the manifests of an Ollama store.
pub fn manifests_of(store: &str) -> (r: String)
    ensures
        r@ == join_path(store@, "manifests"@),
{
    joined_path(store, "manifests")
}

/// The path of the directory with the files of an Ollama store.
pub fn blobs_of(store: &str) -> (r: String)
    ensures
        r@ == join_path(store@, "blobs"@),
{
    joined_path(store, "blobs")
}

/// The directory of the Ollama store: the one that the environment names, or else
/// the one in the home directory, where they exist.
pub fn detect_ollama_dir(named: Option<Candidate>, home: Option<Candidate>) -> (r: Option<String>)
    ensures
        match (named, home) {
            (Some(c), _) if c.exists => r == Some(c.path),
            (_, Some(c)) if c.exists => r == Some(c.path),
            _ => r is None,
        },
{
    if let Some(c) = named {
        if c.exists {
            return Some(c.path);
        }
    }
    if let Some(c) = home {
        if c.exists {
            return Some(c.path);
        }
    }
    None
}

// ---------------------------------------------------------------------------
// Laws of the registry

/// A model of the Ollama store with the tag `:latest` is known with that tag and
/// without it, as the same model.
pub proof fn law_latest_has_alias(
    known: Map<Seq<char>, ModelView>,
    base: Seq<char>,
    model: ModelView,
)
    ensures
        ({
            let name = base + ":latest"@;
            let after = with_manifest(known, name, model);
            &&& after.dom().contains(name) && after[name] == (ModelView { name, ..model })
            &&& after.dom().contains(base) && after[base] == (ModelView { name: base, ..model })
        }),
{
    reveal_strlit(":latest");
    let name = base + ":latest"@;
    assert(name.subrange(name.len() - 7, name.len() as int) =~= ":latest"@);
    assert(name.subrange(0, name.len() - 7) =~= base);
    assert(name.len() != base.len());
}

/// A request for a model by its own name means that model.
pub proof fn law_name_resolves(models: Seq<RegisteredModel>, i: int, path_exists: bool)
    requires
        names_differ(models),
        0 <= i < models.len(),
        trim(models[i].name@) == models[i].name@,
        models[i].name@.len() > 0,
    ensures
        resolved(models, models[i].name@, path_exists) == Some(i),
{
    lemma_named_at(models, models[i].name@);
}

/// A request without the tag `:latest` means the model with it, where no model has
/// the bare name.
pub proof fn law_latest_is_implied(
    models: Seq<RegisteredModel>,
    i: int,
    base: Seq<char>,
    path_exists: bool,
)
    requires
        names_differ(models),
        0 <= i < models.len(),
        models[i].name@ == base + ":latest"@,
        trim(base) == base,
        base.len() > 0,
        !ends_with(base, ":latest"@),
        named_at(models, base) is None,
    ensures
        resolved(models, base, path_exists) == Some(i),
{
    lemma_named_at(models, base + ":latest"@);
}

/// A request with hyphens means the model whose name has colons in the place of all
/// of them, and one with colons the model that has hyphens there, where nothing
/// closer is known.
pub proof fn law_twin_is_meant(
    models: Seq<RegisteredModel>,
    i: int,
    query: Seq<char>,
    path_exists: bool,
)
    requires
        names_differ(models),
        0 <= i < models.len(),
        models[i].name@ == colon_twin(query),
        trim(query) == query,
        query.len() > 0,
        named_at(models, query) is None,
        named_at(models, latest_twin(query)) is None,
    ensures
        resolved(models, query, path_exists) == Some(i),
{
    lemma_named_at(models, colon_twin(query));
}

/// Hyphens and colons are treated alike: a request whose name is that of a model but
/// for hyphens and colons means that model, or the first such one, where nothing
/// closer is known.
pub proof fn law_hyphens_mean_colons(
    models: Seq<RegisteredModel>,
    i: int,
    query: Seq<char>,
    path_exists: bool,
)
    requires
        0 <= i < models.len(),
        same_but_for_colons(models[i].name@, query),
        forall|j: int|
            0 <= j < i ==> !same_but_for_colons((#[trigger] models[j]).name@, query),
        trim(query) == query,
        query.len() > 0,
        named_at(models, query) is None,
        named_at(models, latest_twin(query)) is None,
        named_at(models, colon_twin(query)) is None,
    ensures
        resolved(models, query, path_exists) == Some(i),
{
    lemma_first_alike(models, query);
}

/// Only an empty registry leaves an empty request unanswered.
pub proof fn law_empty_request_means_first(models: Seq<RegisteredModel>, path_exists: bool)
    ensures
        resolved(models, Seq::empty(), path_exists) == (if models.len() > 0 {
            Some(0int)
        } else {
            None
        }),
{
    assert(trim(Seq::<char>::empty()) =~= Seq::<char>::empty());
}

proof fn lemma_with_found(
    known: Map<Seq<char>, ModelView>,
    files: Seq<FoundFile>,
    source: Seq<char>,
    name: Seq<char>,
)
    ensures
        with_found(known, files, source).dom().contains(name) <==> known.dom().contains(name)
            || exists|i: int|
            0 <= i < files.len() && model_in(#[trigger] files[i], source).name == name,
    decreases files.len(),
{
    if files.len() > 0 {
        let front = files.drop_last();
        lemma_with_found(known, front, source, name);
        if exists|i: int| 0 <= i < front.len() && model_in(#[trigger] front[i], source).name == name {
            let i = choose|i: int|
                0 <= i < front.len() && model_in(#[trigger] front[i], source).name == name;
            assert(model_in(files[i], source).name == name);
        }
        if exists|i: int| 0 <= i < files.len() && model_in(#[trigger] files[i], source).name == name {
            let i = choose|i: int|
                0 <= i < files.len() && model_in(#[trigger] files[i], source).name == name;
            if i < front.len() {
                assert(model_in(front[i], source).name == name);
            }
        }
    }
}

/// A model of the Ollama store is known under a name: that of its manifest, or the
/// same without the tag `:latest`.
pub open spec fn goes_by(model: OllamaModel, name: Seq<char>) -> bool {
    model.name@ == name || model.name@ == name + ":latest"@
}

proof fn lemma_with_ollama(
    known: Map<Seq<char>, ModelView>,
    models: Seq<OllamaModel>,
    name: Seq<char>,
)
    ensures
        with_ollama(known, models).dom().contains(name) <==> known.dom().contains(name) || exists|
            i: int,
        |
            0 <= i < models.len() && goes_by(#[trigger] models[i], name),
    decreases models.len(),
{
    if models.len() > 0 {
        reveal_strlit(":latest");
        let front = models.drop_last();
        let last = models.last();
        lemma_with_ollama(known, front, name);
        let full = last.name@;
        if ends_with(full, ":latest"@) {
            let base = full.subrange(0, full.len() - ":latest"@.len());
            assert(base + ":latest"@ =~= full);
        }
        if full == name + ":latest"@ {
            assert(full.subrange(full.len() - 7, full.len() as int) =~= ":latest"@);
            assert(full.subrange(0, full.len() - 7) =~= name);
        }
        assert(with_ollama(known, models).dom().contains(name) <==> with_ollama(
            known,
            front,
        ).dom().contains(name) || goes_by(last, name)) by {
            if ends_with(full, ":latest"@) {
                let base = full.subrange(0, full.len() - ":latest"@.len());
                assert(name == base ==> full == name + ":latest"@);
            }
        }
        if exists|i: int| 0 <= i < front.len() && goes_by(#[trigger] front[i], name) {
            let i = choose|i: int| 0 <= i < front.len() && goes_by(#[trigger] front[i], name);
            assert(goes_by(models[i], name));
        }
        if exists|i: int| 0 <= i < models.len() && goes_by(#[trigger] models[i], name) {
            let i = choose|i: int| 0 <= i < models.len() && goes_by(#[trigger] models[i], name);
            if i < front.len() {
                assert(goes_by(front[i], name));
            }
        }
        if goes_by(last, name) {
            assert(goes_by(models[models.len() - 1], name));
        }
    }
}

/// After a scan exactly the models that it found are known: each file under its
/// own name, and each model of the Ollama store under that of its manifest and
/// without the tag `:latest`.
pub proof fn law_found_models_are_known(found: Discovered, name: Seq<char>)
    ensures
        discovered(found).dom().contains(name) <==> {
            ||| exists|i: int|
                0 <= i < found.custom@.len() && model_in(
                    #[trigger] found.custom@[i],
                    "Custom"@,
                ).name == name
            ||| exists|i: int|
                0 <= i < found.local@.len() && model_in(
                    #[trigger] found.local@[i],
                    "Local"@,
                ).name == name
            ||| exists|i: int|
                0 <= i < found.ollama@.len() && goes_by(#[trigger] found.ollama@[i], name)
        },
{
    let none = Map::<Seq<char>, ModelView>::empty();
    let custom = with_found(none, found.custom@, "Custom"@);
    let local = with_found(custom, found.local@, "Local"@);
    lemma_with_found(none, found.custom@, "Custom"@, name);
    lemma_with_found(custom, found.local@, "Local"@, name);
    lemma_with_ollama(local, found.ollama@, name);
}

/// A name with the tag `:latest` taken off.
pub open spec fn without_latest(name: Seq<char>) -> Seq<char> {
    name.subrange(0, name.len() - ":latest"@.len())
}

/// Every model stands under its own name and comes from one of the places where
/// models are sought, and each one of the Ollama store whose name ends in `:latest`
/// has its short name beside it.
pub open spec fn is_tidy(known: Map<Seq<char>, ModelView>) -> bool {
    forall|name: Seq<char>| #[trigger]
        known.dom().contains(name) ==> {
            let m = known[name];
            &&& m.name == name
            &&& m.source == "Custom"@ || m.source == "Local"@ || m.source == "Ollama"@
            &&& m.source == "Ollama"@ && ends_with(name, ":latest"@) ==> known.dom().contains(
                without_latest(name),
            )
        }
}

proof fn lemma_tidy_found(
    known: Map<Seq<char>, ModelView>,
    files: Seq<FoundFile>,
    source: Seq<char>,
)
    requires
        is_tidy(known),
        source == "Custom"@ || source == "Local"@,
    ensures
        is_tidy(with_found(known, files, source)),
    decreases files.len(),
{
    if files.len() > 0 {
        lemma_tidy_found(known, files.drop_last(), source);
        reveal_strlit("Custom");
        reveal_strlit("Local");
        reveal_strlit("Ollama");
        assert("Custom"@[0] == 'C' && "Local"@[0] == 'L' && "Ollama"@[0] == 'O');
    }
}

proof fn lemma_tidy_ollama(known: Map<Seq<char>, ModelView>, models: Seq<OllamaModel>)
    requires
        is_tidy(known),
        forall|i: int|
            0 <= i < models.len() ==> !ends_with((#[trigger] models[i]).name@, ":latest:latest"@),
    ensures
        is_tidy(with_ollama(known, models)),
    decreases models.len(),
{
    if models.len() > 0 {
        let front = models.drop_last();
        assert forall|i: int| 0 <= i < front.len() implies !ends_with(
            (#[trigger] front[i]).name@,
            ":latest:latest"@,
        ) by {
            assert(front[i] == models[i]);
        }
        lemma_tidy_ollama(known, front);
        reveal_strlit(":latest");
        reveal_strlit(":latest:latest");
        let name = models.last().name@;
        assert(!ends_with(models[models.len() - 1].name@, ":latest:latest"@));
        if ends_with(name, ":latest"@) {
            let base = without_latest(name);
            if ends_with(base, ":latest"@) {
                let tail = name.subrange(name.len() - 14, name.len() as int);
                let first = base.subrange(base.len() - 7, base.len() as int);
                let second = name.subrange(name.len() - 7, name.len() as int);
                assert(tail =~= first + second);
                assert(":latest:latest"@ =~= ":latest"@ + ":latest"@);
                assert(false);
            }
        }
    }
}

/// After a scan every model stands under its own name and comes from one of the
/// places where models are sought, and each one of the Ollama store whose name ends
/// in `:latest` is known without that tag too. A name that ends in the tag twice is
/// left out: it loses it only once.
pub proof fn law_registry_is_tidy(found: Discovered)
    requires
        forall|i: int|
            0 <= i < found.ollama@.len() ==> !ends_with(
                (#[trigger] found.ollama@[i]).name@,
                ":latest:latest"@,
            ),
    ensures
        is_tidy(discovered(found)),
{
    let none = Map::<Seq<char>, ModelView>::empty();
    let custom = with_found(none, found.custom@, "Custom"@);
    let local = with_found(custom, found.local@, "Local"@);
    lemma_tidy_found(none, found.custom@, "Custom"@);
    lemma_tidy_found(custom, found.local@, "Local"@);
    lemma_tidy_ollama(local, found.ollama@);
}

/// What is known under a name is a model of that name.
pub proof fn law_models_stand_under_their_names(models: Seq<RegisteredModel>, name: Seq<char>)
    ensures
        by_name(models).dom().contains(name) ==> by_name(models)[name].name == name,
{
    lemma_named_at(models, name);
}

} // verus!
