//! The manager of the one model that is loaded: when it is used again, and when
//! another takes its place.
//!
//! Opening model files and loading them is done elsewhere. The manager says which
//! of these is to be done next, and is told what came of it. `L` is the handle of
//! a model in memory.

use vstd::prelude::*;

use crate::ollama_types::details_of;
use crate::ollama_types::option_text;
use crate::ollama_types::GgufInfo;
use crate::ollama_types::InfoView;
use crate::ollama_types::ModelMetadata;
use crate::ollama_types::ProcessModel;
use crate::ollama_types::ProcessView;
use crate::registry::info_of;
use crate::registry::lemma_named_at;
use crate::registry::lemma_resolved;
use crate::registry::model_of_file;
use crate::registry::named_at;
use crate::registry::resolved;
use crate::registry::ModelRegistry;
use crate::registry::ModelView;
use crate::registry::RegisteredModel;
use crate::text::alike;
use crate::text::begins;
use crate::text::chars_of;
use crate::text::copy_str;
use crate::text::same_ignoring_case;
use crate::text::same_text;
use crate::text::starts_with;
use crate::text::trim;
use crate::text::trimmed;

verus! {

/// The model that is loaded.
pub struct ActiveModel<L> {
    pub name: String,
    pub path: String,
    pub loaded: L,
    pub gguf_info: GgufInfo,
    pub context_size: u32,
    /// When it was last asked for.
    pub last_used: u64,
}

/// The mathematical form of an [`ActiveModel`], without the handle.
pub struct ActiveView {
    pub name: Seq<char>,
    pub path: Seq<char>,
    pub info: InfoView,
    pub context_size: u32,
    pub last_used: u64,
}

impl<L> View for ActiveModel<L> {
    type V = ActiveView;

    open spec fn view(&self) -> ActiveView {
        ActiveView {
            name: self.name@,
            path: self.path@,
            info: self.gguf_info@,
            context_size: self.context_size,
            last_used: self.last_used,
        }
    }
}

/// The models that can be loaded, the one that is, and the largest context that
/// one is loaded with.
pub struct ModelManager<L> {
    pub registry: ModelRegistry,
    pub active_model: Option<ActiveModel<L>>,
    pub default_context: u32,
}

/// What is to be done to answer a request for a model.
pub enum LoadStep {
    /// The active model answers it.
    Reuse { name: String, info: GgufInfo },
    /// This model is to be loaded with this context; none is active any more.
    Load { entry: RegisteredModel, context: u32 },
    /// The model file at this path is to be opened, and loaded with this context.
    Inspect { path: String, context: u32 },
    /// There is no such model.
    NotFound(String),
}

/// The mathematical form of a [`LoadStep`].
pub enum StepView {
    Reuse { name: Seq<char>, info: InfoView },
    Load { entry: ModelView, context: u32 },
    Inspect { path: Seq<char>, context: u32 },
    NotFound(Seq<char>),
}

impl View for LoadStep {
    type V = StepView;

    open spec fn view(&self) -> StepView {
        match *self {
            LoadStep::Reuse { name, info } => StepView::Reuse { name: name@, info: info@ },
            LoadStep::Load { entry, context } => StepView::Load { entry: entry@, context },
            LoadStep::Inspect { path, context } => StepView::Inspect { path: path@, context },
            LoadStep::NotFound(message) => StepView::NotFound(message@),
        }
    }
}

/// The model that has exactly the name that is asked for, if there is one, is the
/// file that is loaded.
pub open spec fn names_no_other(
    active: ActiveView,
    models: Seq<RegisteredModel>,
    request: Seq<char>,
) -> bool {
    named_at(models, trim(request)) matches Some(i) ==> models[i].path@ == active.path
}

/// A loaded model answers a request: the names are the same whatever the case of
/// their ASCII letters, or nothing is asked for; or else one of the names begins
/// with the other and the request is not the name of another file.
pub open spec fn answers(
    active: ActiveView,
    models: Seq<RegisteredModel>,
    request: Seq<char>,
) -> bool {
    ||| same_ignoring_case(active.name, request)
    ||| request.len() == 0
    ||| (starts_with(active.name, request) || starts_with(request, active.name)) && names_no_other(
        active,
        models,
        request,
    )
}

/// The context that a request gets: what it asks for, but no more than the
/// default.
pub open spec fn target_context(requested: Option<u32>, default_context: u32) -> u32 {
    match requested {
        Some(n) if n < default_context => n,
        _ => default_context,
    }
}

/// The mathematical form of what is active.
pub open spec fn active_view<L>(active: Option<ActiveModel<L>>) -> Option<ActiveView> {
    match active {
        Some(a) => Some(a@),
        None => None,
    }
}

/// The active model answers a request.
pub open spec fn is_ready(
    active: Option<ActiveView>,
    models: Seq<RegisteredModel>,
    request: Seq<char>,
    context: u32,
) -> bool {
    match active {
        Some(a) => answers(a, models, request) && a.context_size >= context,
        None => false,
    }
}

/// The message that there is no such model.
pub open spec fn missing_message(request: Seq<char>) -> Seq<char> {
    "Model '"@ + request + "' not found. Run 'hypura list' to see available models."@
}

/// What is to be done to answer a request: the active model is used again where it
/// answers the request; or else the model that the request means is loaded; or else
/// the file that it names is opened. `named_file` says whether the request is the
/// path of a file, and `trimmed_file` the same of the request without white space
/// around it.
pub open spec fn next_step(
    active: Option<ActiveView>,
    models: Seq<RegisteredModel>,
    request: Seq<char>,
    context: u32,
    trimmed_file: bool,
    named_file: bool,
) -> StepView {
    if is_ready(active, models, request, context) {
        StepView::Reuse { name: active->0.name, info: active->0.info }
    } else {
        match resolved(models, request, trimmed_file) {
            Some(i) => StepView::Load { entry: models[i]@, context },
            None => if named_file {
                StepView::Inspect { path: request, context }
            } else {
                StepView::NotFound(missing_message(request))
            },
        }
    }
}

/// What is active once a model has been loaded.
pub open spec fn active_of(entry: ModelView, context: u32, now: u64) -> ActiveView {
    ActiveView {
        name: entry.name,
        path: entry.path,
        info: info_of(entry),
        context_size: context,
        last_used: now,
    }
}

/// What is reported of the active model.
pub open spec fn process_of(active: ActiveView) -> ProcessView {
    ProcessView {
        name: active.name,
        model: active.name,
        size: active.info.file_size,
        digest: ""@,
        details: details_of(active.info),
        expires_at: ""@,
        size_vram: active.info.file_size,
        context_size: active.context_size,
    }
}

impl<L> ModelManager<L> {
    /// The registry is well-formed, and the active model has no larger context
    /// than the default.
    pub open spec fn wf(&self) -> bool {
        &&& self.registry.wf()
        &&& self.active_model matches Some(a) ==> a.context_size <= self.default_context
    }

    /// A manager without an active model. Where there is an initial model, its file
    /// is to be opened and loaded with the default context.
    pub fn new(registry: ModelRegistry, default_context: u32, initial_model_path: Option<&str>) -> (r: (
        Self,
        Option<LoadStep>,
    ))
        requires
            registry.wf(),
        ensures
            r.0.wf(),
            r.0.registry == registry,
            r.0.active_model is None,
            r.0.default_context == default_context,
            match initial_model_path {
                Some(path) => r.1 matches Some(step) && step@ == (StepView::Inspect {
                    path: path@,
                    context: default_context,
                }),
                None => r.1 is None,
            },
    {
        let step = match initial_model_path {
            Some(path) => Some(LoadStep::Inspect { path: copy_str(path), context: default_context }),
            None => None,
        };
        (ModelManager { registry, active_model: None, default_context }, step)
    }

    /// Whether the request is not the name of another file than the loaded one.
    fn asks_for_no_other(&self, active: &ActiveModel<L>, wanted: &[char]) -> (r: bool)
        ensures
            r == names_no_other(active@, self.registry.models@, wanted@),
    {
        match self.registry.index_of(trimmed(wanted)) {
            Some(i) => same_text(self.registry.models[i].path.as_str(), active.path.as_str()),
            None => true,
        }
    }

    /// Whether the active model answers a request.
    fn active_answers(&self, requested_name: &str, context: u32) -> (r: bool)
        ensures
            r == is_ready(
                active_view(self.active_model),
                self.registry.models@,
                requested_name@,
                context,
            ),
    {
        match &self.active_model {
            Some(active) => {
                let own = chars_of(active.name.as_str());
                let wanted = chars_of(requested_name);
                let matches_name: bool = alike(own.as_slice(), wanted.as_slice()) || wanted.len() == 0
                    || ((begins(own.as_slice(), requested_name) || begins(
                    wanted.as_slice(),
                    active.name.as_str(),
                )) && self.asks_for_no_other(active, wanted.as_slice()));
                matches_name && active.context_size >= context
            },
            None => false,
        }
    }

    /// What is to be done to answer a request for a model with a context of the
    /// given size. `named_file` says whether the request is the path of a file, and
    /// `trimmed_file` the same of the request without white space around it.
    pub fn get_or_load(
        &mut self,
        requested_name: &str,
        requested_ctx: Option<u32>,
        trimmed_file: bool,
        named_file: bool,
        now: u64,
    ) -> (r: LoadStep)
        requires
            old(self).wf(),
        ensures
            final(self).wf(),
            final(self).registry == old(self).registry,
            final(self).default_context == old(self).default_context,
            r@ == next_step(
                active_view(old(self).active_model),
                old(self).registry.models@,
                requested_name@,
                target_context(requested_ctx, old(self).default_context),
                trimmed_file,
                named_file,
            ),
            match r {
                LoadStep::Reuse { .. } => {
                    &&& old(self).active_model is Some
                    &&& final(self).active_model matches Some(a) && a.loaded
                        == old(self).active_model->0.loaded && a@ == (ActiveView {
                        last_used: now,
                        ..old(self).active_model->0@
                    })
                },
                LoadStep::Load { .. } => final(self).active_model is None,
                _ => final(self).active_model == old(self).active_model,
            },
    {
        let target: u32 = match requested_ctx {
            Some(n) => if n < self.default_context {
                n
            } else {
                self.default_context
            },
            None => self.default_context,
        };
        if self.active_answers(requested_name, target) {
            if let Some(mut active) = self.active_model.take() {
                active.last_used = now;
                let step = LoadStep::Reuse {
                    name: copy_str(active.name.as_str()),
                    info: active.gguf_info.copy(),
                };
                self.active_model = Some(active);
                return step;
            }
        }
        let entry = match self.registry.resolve_model(requested_name, trimmed_file) {
            Some(model) => Some(model.copy()),
            None => None,
        };
        match entry {
            Some(entry) => {
                self.active_model = None;
                LoadStep::Load { entry, context: target }
            },
            None => if named_file {
                LoadStep::Inspect { path: copy_str(requested_name), context: target }
            } else {
                let mut message = copy_str("Model '");
                message.append(requested_name);
                message.append("' not found. Run 'hypura list' to see available models.");
                LoadStep::NotFound(message)
            },
        }
    }

    /// Takes up the file of a model that was opened by its path. It is to be
    /// loaded next; no model is active any more.
    pub fn load_model_by_path(&mut self, path: &str, size: u64, metadata: ModelMetadata, context: u32) -> (r:
        LoadStep)
        requires
            old(self).wf(),
        ensures
            final(self).wf(),
            final(self).registry == old(self).registry,
            final(self).default_context == old(self).default_context,
            final(self).active_model is None,
            r@ == (StepView::Load {
                entry: model_of_file(
                    path@,
                    "Direct"@,
                    size,
                    metadata.architecture@,
                    metadata.parameter_count,
                    option_text(metadata.quantization),
                    metadata.context_length,
                ),
                context,
            }),
    {
        self.active_model = None;
        LoadStep::Load { entry: RegisteredModel::of_file(path, "Direct", size, metadata), context }
    }

    /// Makes a model that has been loaded the active one; gives its name and what
    /// is reported of its file.
    pub fn load_model_entry(
        &mut self,
        model_entry: &RegisteredModel,
        context_size: u32,
        loaded: L,
        now: u64,
    ) -> (r: (String, GgufInfo))
        requires
            old(self).wf(),
            context_size <= old(self).default_context,
        ensures
            final(self).wf(),
            final(self).registry == old(self).registry,
            final(self).default_context == old(self).default_context,
            final(self).active_model matches Some(a) && a.loaded == loaded && a@ == active_of(
                model_entry@,
                context_size,
                now,
            ),
            r.0@ == model_entry@.name,
            r.1@ == info_of(model_entry@),
    {
        let info = model_entry.to_gguf_info();
        self.active_model = Some(
            ActiveModel {
                name: copy_str(model_entry.name.as_str()),
                path: copy_str(model_entry.path.as_str()),
                loaded,
                gguf_info: info.copy(),
                context_size,
                last_used: now,
            },
        );
        (copy_str(model_entry.name.as_str()), info)
    }

    /// What is reported of the models that are loaded: the active one, if any.
    pub fn processes(&self) -> (r: Vec<ProcessModel>)
        ensures
            match self.active_model {
                Some(a) => r@.len() == 1 && r@[0]@ == process_of(a@),
                None => r@.len() == 0,
            },
    {
        match &self.active_model {
            Some(active) => vec![
                ProcessModel {
                    name: copy_str(active.name.as_str()),
                    model: copy_str(active.name.as_str()),
                    size: active.gguf_info.file_size,
                    digest: copy_str(""),
                    details: active.gguf_info.details(),
                    expires_at: copy_str(""),
                    size_vram: active.gguf_info.file_size,
                    context_size: active.context_size,
                },
            ],
            None => Vec::new(),
        }
    }
}

// ---------------------------------------------------------------------------
// Laws of the manager

/// No request makes a model be loaded with a larger context than the default.
pub proof fn law_context_is_capped(
    active: Option<ActiveView>,
    models: Seq<RegisteredModel>,
    request: Seq<char>,
    requested: Option<u32>,
    default_context: u32,
    trimmed_file: bool,
    named_file: bool,
)
    ensures
        match next_step(
            active,
            models,
            request,
            target_context(requested, default_context),
            trimmed_file,
            named_file,
        ) {
            StepView::Load { context, .. } => context <= default_context && (
            requested matches Some(n) ==> context <= n),
            StepView::Inspect { context, .. } => context <= default_context && (
            requested matches Some(n) ==> context <= n),
            _ => true,
        },
{
}

/// Once a model has been loaded for a request, a request for it by its name, with
/// a context that is no larger, uses it again.
pub proof fn law_loaded_model_is_reused(
    entry: ModelView,
    context: u32,
    later: u32,
    now: u64,
    models: Seq<RegisteredModel>,
    trimmed_file: bool,
    named_file: bool,
)
    requires
        later <= context,
    ensures
        next_step(
            Some(active_of(entry, context, now)),
            models,
            entry.name,
            later,
            trimmed_file,
            named_file,
        ) == (StepView::Reuse { name: entry.name, info: info_of(entry) }),
{
}

/// A request for another model that is registered, by its name, takes the active
/// model out of use and loads the other one. A name that differs from the active
/// one only in the case of its letters asks for the active one.
pub proof fn law_models_are_swapped(
    active: Option<ActiveView>,
    models: Seq<RegisteredModel>,
    i: int,
    request: Seq<char>,
    context: u32,
    trimmed_file: bool,
    named_file: bool,
)
    requires
        named_at(models, trim(request)) == Some(i),
        trim(request).len() > 0,
        active matches Some(a) ==> models[i].path@ != a.path && !same_ignoring_case(
            a.name,
            request,
        ),
    ensures
        next_step(active, models, request, context, trimmed_file, named_file) == (StepView::Load {
            entry: models[i]@,
            context,
        }),
        models[i].name@ == trim(request),
{
    lemma_named_at(models, trim(request));
    if request.len() == 0 {
        assert(trim(request) =~= request);
    }
}

/// Any request that the active model does not answer loads the model that it means.
pub proof fn law_request_loads_what_it_means(
    active: Option<ActiveView>,
    models: Seq<RegisteredModel>,
    request: Seq<char>,
    context: u32,
    trimmed_file: bool,
    named_file: bool,
)
    requires
        !is_ready(active, models, request, context),
        resolved(models, request, trimmed_file) is Some,
    ensures
        next_step(active, models, request, context, trimmed_file, named_file) matches StepView::Load {
            entry,
            context: c,
        } && c == context && exists|i: int|
            0 <= i < models.len() && resolved(models, request, trimmed_file) == Some(i) && entry
                == #[trigger] models[i]@,
{
    lemma_resolved(models, request, trimmed_file);
    let i = resolved(models, request, trimmed_file)->0;
    assert(models[i]@ == models[i]@);
}

/// A request for the active model with the tag `:latest` uses it again, unless
/// another file has that name.
pub proof fn law_latest_reuses_model(
    active: ActiveView,
    models: Seq<RegisteredModel>,
    context: u32,
    trimmed_file: bool,
    named_file: bool,
)
    requires
        context <= active.context_size,
        names_no_other(active, models, active.name + ":latest"@),
    ensures
        next_step(
            Some(active),
            models,
            active.name + ":latest"@,
            context,
            trimmed_file,
            named_file,
        ) is Reuse,
{
    let request = active.name + ":latest"@;
    assert(request.subrange(0, active.name.len() as int) =~= active.name);
}

/// A model that is loaded answers an empty request.
pub proof fn law_empty_request_keeps_model(
    active: ActiveView,
    models: Seq<RegisteredModel>,
    context: u32,
    trimmed_file: bool,
    named_file: bool,
)
    requires
        context <= active.context_size,
    ensures
        next_step(Some(active), models, Seq::empty(), context, trimmed_file, named_file) is Reuse,
{
}

} // verus!
