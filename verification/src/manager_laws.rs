//! Laws of the manager: when the loaded model is used again, and when not.

use vstd::prelude::*;

use crate::manager::active_of;
use crate::manager::names_no_other;
use crate::manager::next_step;
use crate::manager::process_of;
use crate::manager::target_context;
use crate::manager::ActiveView;
use crate::manager::StepView;
use crate::number::parameter_size;
use crate::registry::lemma_named_at;
use crate::registry::named_at;
use crate::registry::resolved;
use crate::registry::ModelView;
use crate::registry::RegisteredModel;
use crate::text::ascii_lower;
use crate::text::same_ignoring_case;
use crate::text::starts_with;
use crate::text::trim;

verus! {

/// The names are the same whatever the case of their ASCII letters: where two
/// characters differ, they are the same letter, once capital and once small.
pub open spec fn is_same_name(a: Seq<char>, b: Seq<char>) -> bool {
    a.len() == b.len() && forall|k: int|
        0 <= k < a.len() ==> #[trigger] a[k] == b[k] || ('A' <= a[k] <= 'Z' && b[k] as int == a[k] as int
            + 32) || ('A' <= b[k] <= 'Z' && a[k] as int == b[k] as int + 32)
}

proof fn lemma_same_letter(a: char, b: char)
    ensures
        ascii_lower(a) == ascii_lower(b) <==> (a == b || ('A' <= a <= 'Z' && b as int == a as int + 32)
            || ('A' <= b <= 'Z' && a as int == b as int + 32)),
{
}

/// Names are compared without regard to the case of ASCII letters.
pub proof fn law_case_of_letters_does_not_matter(a: Seq<char>, b: Seq<char>)
    ensures
        same_ignoring_case(a, b) <==> is_same_name(a, b),
{
    if a.len() == b.len() {
        assert forall|k: int| 0 <= k < a.len() implies (ascii_lower(#[trigger] a[k]) == ascii_lower(
            b[k],
        ) <==> (a[k] == b[k] || ('A' <= a[k] <= 'Z' && b[k] as int == a[k] as int + 32) || ('A' <= b[k]
            <= 'Z' && a[k] as int == b[k] as int + 32))) by {
            lemma_same_letter(a[k], b[k]);
        }
    }
}

/// Some model has the name, and the file of the first such one is not `path`.
pub open spec fn is_name_of_another(
    models: Seq<RegisteredModel>,
    name: Seq<char>,
    path: Seq<char>,
) -> bool {
    exists|i: int|
        0 <= i < models.len() && (#[trigger] models[i]).name@ == name && models[i].path@ != path
            && forall|j: int| 0 <= j < i ==> (#[trigger] models[j]).name@ != name
}

proof fn lemma_names_no_other(active: ActiveView, models: Seq<RegisteredModel>, request: Seq<char>)
    ensures
        names_no_other(active, models, request) <==> !is_name_of_another(
            models,
            trim(request),
            active.path,
        ),
{
    let name = trim(request);
    lemma_named_at(models, name);
    if is_name_of_another(models, name, active.path) {
        let i = choose|i: int|
            0 <= i < models.len() && (#[trigger] models[i]).name@ == name && models[i].path@
                != active.path && forall|j: int| 0 <= j < i ==> (#[trigger] models[j]).name@ != name;
        let k = named_at(models, name)->0;
        assert(models[k].name@ == name);
        assert(k == i);
    }
    if !names_no_other(active, models, request) {
        let k = named_at(models, name)->0;
        assert(models[k].name@ == name);
        assert(is_name_of_another(models, name, active.path));
    }
}

/// The loaded model is used again exactly where its context is large enough and the
/// request is empty, is its name whatever the case of the letters, or is such that
/// one of the two names begins with the other and the request is not the name of
/// another file.
pub proof fn law_when_the_loaded_model_is_used_again(
    active: ActiveView,
    models: Seq<RegisteredModel>,
    request: Seq<char>,
    context: u32,
    trimmed_file: bool,
    named_file: bool,
)
    ensures
        ({
            let step = next_step(
                Some(active),
                models,
                request,
                context,
                trimmed_file,
                named_file,
            );
            let fits = {
                ||| request.len() == 0
                ||| is_same_name(active.name, request)
                ||| (starts_with(active.name, request) || starts_with(request, active.name))
                    && !is_name_of_another(models, trim(request), active.path)
            };
            &&& step is Reuse <==> fits && context <= active.context_size
            &&& step is Reuse ==> step == (StepView::Reuse {
                name: active.name,
                info: active.info,
            })
        }),
{
    law_case_of_letters_does_not_matter(active.name, request);
    lemma_names_no_other(active, models, request);
}

/// A request that is not empty, is not the name of the loaded model whatever the case
/// of the letters, and does not begin with that name nor is a beginning of it is not
/// answered by the loaded model; where it means a model, that one is loaded.
pub proof fn law_other_requests_swap_the_model(
    active: ActiveView,
    models: Seq<RegisteredModel>,
    request: Seq<char>,
    context: u32,
    trimmed_file: bool,
    named_file: bool,
)
    requires
        request.len() > 0,
        !is_same_name(active.name, request),
        !starts_with(active.name, request),
        !starts_with(request, active.name),
    ensures
        ({
            let step = next_step(
                Some(active),
                models,
                request,
                context,
                trimmed_file,
                named_file,
            );
            &&& !(step is Reuse)
            &&& resolved(models, request, trimmed_file) matches Some(i) ==> step
                == (StepView::Load { entry: models[i]@, context })
        }),
{
    law_case_of_letters_does_not_matter(active.name, request);
}

/// A request for more context than the loaded model has is not answered by it.
pub proof fn law_larger_context_loads_again(
    active: ActiveView,
    models: Seq<RegisteredModel>,
    request: Seq<char>,
    context: u32,
    trimmed_file: bool,
    named_file: bool,
)
    requires
        context > active.context_size,
    ensures
        ({
            let step = next_step(
                Some(active),
                models,
                request,
                context,
                trimmed_file,
                named_file,
            );
            &&& !(step is Reuse)
            &&& resolved(models, request, trimmed_file) matches Some(i) ==> step
                == (StepView::Load { entry: models[i]@, context })
        }),
{
}

/// Where no loaded model answers a request, the model that it means is loaded; where
/// it means none, the file that it names is opened; and where there is no such file,
/// that is said.
pub proof fn law_what_is_done_for_a_request(
    active: Option<ActiveView>,
    models: Seq<RegisteredModel>,
    request: Seq<char>,
    context: u32,
    trimmed_file: bool,
    named_file: bool,
)
    ensures
        ({
            let step = next_step(active, models, request, context, trimmed_file, named_file);
            &&& active is None ==> !(step is Reuse)
            &&& !(step is Reuse) ==> match resolved(models, request, trimmed_file) {
                Some(i) => step == (StepView::Load { entry: models[i]@, context }),
                None => if named_file {
                    step == (StepView::Inspect { path: request, context })
                } else {
                    step == StepView::NotFound(
                        "Model '"@ + request
                            + "' not found. Run 'hypura list' to see available models."@,
                    )
                },
            }
        }),
{
}

/// A request gets the context that it asks for, but no more than the default, and the
/// default where it asks for none.
pub proof fn law_context_of_a_request(asked: u32, default_context: u32)
    ensures
        asked <= default_context ==> target_context(Some(asked), default_context) == asked,
        asked > default_context ==> target_context(Some(asked), default_context)
            == default_context,
        target_context(None, default_context) == default_context,
{
}

/// A model that has been loaded is active under its own name and path, with the
/// context that it was loaded with, and is reported with the size, the architecture
/// and the context of its file.
pub proof fn law_loaded_model_is_active(entry: ModelView, context: u32, now: u64)
    ensures
        ({
            let active = active_of(entry, context, now);
            &&& active.name == entry.name
            &&& active.path == entry.path
            &&& active.context_size == context
            &&& active.last_used == now
            &&& active.info.file_size == entry.size
            &&& active.info.architecture == entry.architecture
            &&& active.info.parameter_count == entry.parameter_count
            &&& active.info.context_length == entry.context_length
            &&& entry.quantization matches Some(q) ==> active.info.quantization == q
            &&& entry.quantization is None ==> active.info.quantization == "unknown"@
        }),
{
}

/// The active model is reported under its name, with the size of its file, what its
/// file says of itself, and the context that it was loaded with.
pub proof fn law_process_reports_the_active_model(active: ActiveView)
    ensures
        ({
            let process = process_of(active);
            &&& process.name == active.name
            &&& process.model == active.name
            &&& process.size == active.info.file_size
            &&& process.size_vram == active.info.file_size
            &&& process.context_size == active.context_size
            &&& process.details.format == "gguf"@
            &&& process.details.family == active.info.architecture
            &&& process.details.quantization_level == active.info.quantization
            &&& process.details.parameter_size == parameter_size(active.info.parameter_count as nat)
            &&& process.digest == ""@
            &&& process.expires_at == ""@
        }),
{
}

} // verus!
