use hypura::manager::LoadStep;
use hypura::manager::ModelManager;
use hypura::manifest::find_model_digest;
use hypura::manifest::model_of_digest;
use hypura::manifest::parse_ollama_manifest;
use hypura::manifest::Layer;
use hypura::ollama_types::ModelMetadata;
use hypura::path::ends_with_path;
use hypura::path::extension_of;
use hypura::path::joined_path;
use hypura::path::stem_of;
use hypura::registry::blobs_of;
use hypura::registry::detect_ollama_dir;
use hypura::registry::find_holding;
use hypura::registry::is_model_file;
use hypura::registry::manifests_of;
use hypura::registry::store_in_home;
use hypura::registry::Candidate;
use hypura::registry::Discovered;
use hypura::registry::FoundFile;
use hypura::registry::ModelRegistry;
use hypura::registry::OllamaModel;
use hypura::registry::RegisteredModel;

fn metadata() -> ModelMetadata {
    ModelMetadata {
        architecture: "llama".into(),
        parameter_count: 7_000_000_000,
        quantization: Some("Q4_K".into()),
        context_length: 4096,
    }
}

fn model(path: &str, source: &str, size: u64) -> RegisteredModel {
    RegisteredModel::of_file(path, source, size, metadata())
}

fn file(path: &str, size: u64) -> FoundFile {
    FoundFile { path: path.into(), size, metadata: metadata() }
}

fn ollama(name: &str, path: &str) -> OllamaModel {
    OllamaModel { name: name.into(), file: file(path, 3) }
}

fn registry(custom: Vec<FoundFile>, local: Vec<FoundFile>, store: Vec<OllamaModel>) -> ModelRegistry {
    ModelRegistry::new(None, Some("/o".into()), Discovered { custom, local, ollama: store })
}

fn resolve(r: &ModelRegistry, query: &str, exists: bool) -> Option<String> {
    r.resolve_model(query, exists).map(|m| m.name.clone())
}

fn name(s: &str) -> Option<String> {
    Some(s.to_string())
}

#[test]
fn a_file_is_a_model_named_after_it() {
    let m = model("/models/Qwen2.5-7B.gguf", "Local", 42);
    assert_eq!(m.name, "Qwen2.5-7B");
    assert_eq!(m.path, "/models/Qwen2.5-7B.gguf");
    assert_eq!(m.source, "Local");
    assert_eq!(model("..", "Local", 1).name, "model");
}

#[test]
fn tags_and_infos_of_models() {
    let mut m = model("/a.gguf", "Local", 42);
    let tag = m.to_model_tag();
    assert_eq!(tag.name, "a");
    assert_eq!(tag.model, "a");
    assert_eq!(tag.size, 42);
    assert_eq!(tag.details.format, "gguf");
    assert_eq!(tag.details.family, "llama");
    assert_eq!(tag.details.parameter_size, "7.0B");
    assert_eq!(tag.details.quantization_level, "Q4_K");
    m.metadata.quantization = None;
    let info = m.to_gguf_info();
    assert_eq!(info.quantization, "unknown");
    assert_eq!(info.file_size, 42);
    assert_eq!(info.parameter_count, 7_000_000_000);
    assert_eq!(info.context_length, 4096);
}

#[test]
fn later_finds_take_the_place_of_earlier_ones() {
    let r = registry(
        vec![file("/c/a.gguf", 1), file("/c/b.gguf", 1)],
        vec![file("/l/a.gguf", 2)],
        vec![ollama("b", "/o/x")],
    );
    assert_eq!(r.models.len(), 2);
    assert_eq!(r.resolve_model("a", false).unwrap().source, "Local");
    assert_eq!(r.resolve_model("b", false).unwrap().source, "Ollama");
    assert_eq!(r.ollama_dir, name("/o"));
    assert_eq!(r.custom_dir, None);
}

#[test]
fn latest_is_known_with_and_without_its_tag() {
    let r = registry(vec![], vec![], vec![ollama("m:latest", "/o/x"), ollama("n:7b", "/o/y")]);
    assert_eq!(r.models.len(), 3);
    assert_eq!(resolve(&r, "m", false), name("m"));
    assert_eq!(resolve(&r, "m:latest", false), name("m:latest"));
    assert_eq!(r.resolve_model("m", false).unwrap().path, "/o/x");
}

#[test]
fn refreshing_forgets_what_is_gone() {
    let mut r = registry(vec![], vec![file("/a.gguf", 1)], vec![]);
    r.refresh(Discovered { custom: vec![], local: vec![file("/b.gguf", 1)], ollama: vec![] });
    assert_eq!(resolve(&r, "a", false), None);
    assert_eq!(resolve(&r, "b", false), name("b"));
}

#[test]
fn requests_resolve_in_steps() {
    let r = registry(
        vec![],
        vec![file("/dir/sub/Llama-3-\u{c4}.gguf", 1), file("/dir/x.gguf", 1)],
        vec![ollama("qwen:7b", "/o/x")],
    );
    assert_eq!(resolve(&r, " x\n", false), name("x"));
    assert_eq!(resolve(&r, "x:latest", false), name("x"));
    assert_eq!(resolve(&r, "qwen-7b", false), name("qwen:7b"));
    assert_eq!(resolve(&r, "sub/Llama-3-\u{c4}.gguf", true), name("Llama-3-\u{c4}"));
    assert_eq!(resolve(&r, "sub/Llama-3-\u{c4}.gguf", false), None);
    assert_eq!(resolve(&r, "LLAMA-3-\u{e4}", false), name("Llama-3-\u{c4}"));
    assert_eq!(resolve(&r, "nothing", true), None);
}

#[test]
fn colons_mean_hyphens_where_nothing_is_closer() {
    let r = registry(vec![], vec![file("/a-7b.gguf", 1)], vec![]);
    assert_eq!(resolve(&r, "a:7b", false), name("a-7b"));
}

#[test]
fn hyphens_and_colons_are_treated_alike() {
    let r = registry(vec![], vec![], vec![ollama("mistral-small3.2:24b", "/o/x")]);
    assert_eq!(resolve(&r, "mistral-small3.2-24b", false), name("mistral-small3.2:24b"));
    assert_eq!(resolve(&r, "mistral:small3.2-24b", false), name("mistral-small3.2:24b"));
    let r = registry(vec![], vec![], vec![ollama("a-b:c", "/o/x"), ollama("a:b-c", "/o/y"), ollama("a:b:c", "/o/z")]);
    assert_eq!(resolve(&r, "a-b-c", false), name("a:b:c"));
    assert_eq!(resolve(&r, "a:b-c", false), name("a:b-c"));
}

#[test]
fn sources_tell_where_models_were_found() {
    let r = registry(vec![file("/c.gguf", 1)], vec![file("/l.gguf", 1)], vec![ollama("o:latest", "/o/x")]);
    let mut sources: Vec<(&str, &str)> = r.models.iter().map(|m| (m.name.as_str(), m.source.as_str())).collect();
    sources.sort();
    assert_eq!(sources, vec![("c", "Custom"), ("l", "Local"), ("o", "Ollama"), ("o:latest", "Ollama")]);
}

#[test]
fn latest_is_implied() {
    let r = registry(vec![], vec![file("/a:latest.gguf", 1)], vec![]);
    assert_eq!(resolve(&r, "a", false), name("a:latest"));
}

#[test]
fn an_empty_request_means_the_first_model() {
    assert_eq!(resolve(&registry(vec![], vec![], vec![]), "  ", false), None);
    let r = registry(vec![], vec![file("/b.gguf", 1), file("/a.gguf", 1)], vec![]);
    assert_eq!(resolve(&r, "", false), name("b"));
}

#[test]
fn models_are_listed_in_order() {
    let r = registry(
        vec![],
        vec![file("/b.gguf", 1), file("/a.gguf", 1), file("/B.gguf", 1), file("/ab.gguf", 1)],
        vec![],
    );
    let names: Vec<String> = r.list_models().into_iter().map(|t| t.name).collect();
    assert_eq!(names, vec!["B", "a", "ab", "b"]);
}

#[test]
fn files_that_are_taken_for_models() {
    assert!(is_model_file("/a/b.gguf", true, false));
    assert!(is_model_file("/a/b.gguf", false, true));
    assert!(!is_model_file("/a/b.gguf", false, false));
    assert!(!is_model_file("/a/b.GGUF", true, false));
    assert!(!is_model_file("/a/.gguf", true, false));
    assert!(!is_model_file("/a/b.bin", true, false));
}

#[test]
fn store_is_sought_in_the_environment_first() {
    let dir = |path: &str, exists: bool| Some(Candidate { path: path.into(), exists });
    assert_eq!(detect_ollama_dir(dir("/e", true), dir("/h", true)), name("/e"));
    assert_eq!(detect_ollama_dir(dir("/e", false), dir("/h", true)), name("/h"));
    assert_eq!(detect_ollama_dir(None, dir("/h", true)), name("/h"));
    assert_eq!(detect_ollama_dir(dir("/e", false), dir("/h", false)), None);
    assert_eq!(detect_ollama_dir(None, None), None);
}

#[test]
fn places_of_the_store() {
    assert_eq!(store_in_home("/home/me"), "/home/me/.ollama/models");
    assert_eq!(store_in_home("/"), "/.ollama/models");
    assert_eq!(manifests_of("/o"), "/o/manifests");
    assert_eq!(manifests_of(""), "manifests");
    assert_eq!(blobs_of("/o/"), "/o/blobs");
}

#[test]
fn paths_are_taken_apart() {
    assert_eq!(stem_of("/a/b.tar.gz"), name("b.tar"));
    assert_eq!(stem_of("/a/.hidden"), name(".hidden"));
    assert_eq!(stem_of("/a/b/"), name("b"));
    assert_eq!(stem_of("/"), None);
    assert_eq!(stem_of("a/.."), None);
    assert_eq!(extension_of("/a/b.tar.gz"), name("gz"));
    assert_eq!(extension_of("/a/.hidden"), None);
    assert!(ends_with_path("/a/b/c", "b/c"));
    assert!(!ends_with_path("/a/bb/c", "b/c"));
    assert!(ends_with_path("/a//b/./c/", "b/c"));
    assert_eq!(joined_path("/a", "b"), "/a/b");
    assert_eq!(joined_path("/a/", "b"), "/a/b");
    assert_eq!(joined_path("/a", "/b"), "/b");
}

const ROOT: &str = "/o/manifests";
const BLOBS: &str = "/o/blobs";

fn manifest(content: &str, file: &str) -> Option<(String, String)> {
    parse_ollama_manifest(content, ROOT, file, BLOBS)
}

#[test]
fn manifests_name_their_blob() {
    let content = "{\"layers\":[{\"mediaType\":\"application/vnd.ollama.image.license\",\"digest\":\"sha256:00\"},{\"mediaType\":\"application/vnd.ollama.image.model\",\"digest\":\"sha256:ab12\"}]}";
    assert_eq!(
        manifest(content, "/o/manifests/registry.ollama.ai/library/mistral-small3.2/24b"),
        Some(("mistral-small3.2:24b".to_string(), "/o/blobs/sha256-ab12".to_string()))
    );
    assert_eq!(
        manifest(content, "/o/manifests/registry.ollama.ai/me/m/latest").unwrap().0,
        "me/m:latest"
    );
    assert_eq!(manifest(content, "/o/manifests/library/m/7b").unwrap().0, "m:7b");
    assert_eq!(manifest(content, "/o/manifests/m.json").unwrap().0, "m");
    assert_eq!(manifest(content, "/elsewhere/library/m/7b"), None);
}

#[test]
fn manifests_without_a_model_are_passed_over() {
    let file = "/o/manifests/library/m/7b";
    assert_eq!(manifest("no json", file), None);
    assert_eq!(manifest("{}", file), None);
    assert_eq!(manifest("{\"layers\":{}}", file), None);
    assert_eq!(manifest("{\"layers\":[{\"digest\":\"sha256:1\"}]}", file), None);
    assert_eq!(
        manifest("{\"layers\":[{\"mediaType\":\"application/vnd.ollama.image.model\",\"digest\":7},{\"mediaType\":\"application/vnd.ollama.image.model\",\"digest\":\"d\"}]}", file),
        None
    );
}

#[test]
fn first_layer_with_a_model_counts() {
    let layer = |media: &str, digest: Option<&str>| Layer {
        media_type: Some(media.to_string()),
        digest: digest.map(|d| d.to_string()),
    };
    let model = "application/vnd.ollama.image.model";
    assert_eq!(find_model_digest(&vec![layer("x", Some("1")), layer(model, Some("2")), layer(model, Some("3"))]), name("2"));
    assert_eq!(find_model_digest(&vec![layer("x", Some("1"))]), None);
    assert_eq!(
        model_of_digest("sha256:a:b", ROOT, "/o/manifests/library/m/7b", BLOBS).unwrap().1,
        "/o/blobs/sha256-a-b"
    );
}

fn manager() -> ModelManager<u8> {
    let r = registry(vec![], vec![file("/a.gguf", 1), file("/b.gguf", 2)], vec![]);
    let (manager, step) = ModelManager::new(r, 4096, None);
    assert!(step.is_none());
    manager
}

fn load(m: &mut ModelManager<u8>, request: &str, ctx: Option<u32>, handle: u8) -> String {
    match m.get_or_load(request, ctx, false, false, 5) {
        LoadStep::Load { entry, context } => m.load_model_entry(&entry, context, handle, 6).0,
        _ => panic!("not to be loaded"),
    }
}

#[test]
fn an_initial_model_is_opened_with_the_default_context() {
    let r = registry(vec![], vec![], vec![]);
    let (mut m, step): (ModelManager<u8>, Option<LoadStep>) = ModelManager::new(r, 2048, Some("/m/x.gguf"));
    match step {
        Some(LoadStep::Inspect { path, context }) => {
            assert_eq!(path, "/m/x.gguf");
            assert_eq!(context, 2048);
        }
        _ => panic!("nothing to be opened"),
    }
    match m.load_model_by_path("/m/x.gguf", 9, metadata(), 2048) {
        LoadStep::Load { entry, context } => {
            assert_eq!(entry.name, "x");
            assert_eq!(entry.source, "Direct");
            assert_eq!(entry.size, 9);
            let (loaded, info) = m.load_model_entry(&entry, context, 1, 3);
            assert_eq!(loaded, "x");
            assert_eq!(info.file_size, 9);
        }
        _ => panic!("not to be loaded"),
    }
    let active = m.active_model.as_ref().unwrap();
    assert_eq!(active.last_used, 3);
    assert_eq!(active.loaded, 1);
}

#[test]
fn a_loaded_model_is_used_again() {
    let mut m = manager();
    assert_eq!(load(&mut m, "a", None, 1), "a");
    for request in ["a", "A", "", "a:latest"] {
        match m.get_or_load(request, Some(100_000), false, false, 77) {
            LoadStep::Reuse { name, info } => {
                assert_eq!(name, "a");
                assert_eq!(info.architecture, "llama");
            }
            _ => panic!("not used again"),
        }
    }
    let active = m.active_model.as_ref().unwrap();
    assert_eq!(active.last_used, 77);
    assert_eq!(active.loaded, 1);
}

#[test]
fn context_is_capped_by_the_default() {
    let mut m = manager();
    load(&mut m, "a", Some(1_000_000), 1);
    assert_eq!(m.active_model.as_ref().unwrap().context_size, 4096);
    let mut m = manager();
    load(&mut m, "a", Some(512), 1);
    assert_eq!(m.active_model.as_ref().unwrap().context_size, 512);
}

#[test]
fn a_larger_context_loads_the_model_again() {
    let mut m = manager();
    load(&mut m, "a", Some(512), 1);
    load(&mut m, "a", Some(1024), 2);
    let active = m.active_model.as_ref().unwrap();
    assert_eq!(active.context_size, 1024);
    assert_eq!(active.loaded, 2);
}

#[test]
fn another_model_takes_the_place_of_the_active_one() {
    let mut m = manager();
    load(&mut m, "a", None, 1);
    match m.get_or_load("b", None, false, false, 0) {
        LoadStep::Load { entry, context } => {
            assert_eq!(entry.path, "/b.gguf");
            assert_eq!(context, 4096);
        }
        _ => panic!("not to be loaded"),
    }
    assert!(m.active_model.is_none());
}

#[test]
fn a_longer_name_of_another_model_swaps_it_in() {
    let r = registry(vec![], vec![], vec![ollama("llama3", "/o/8b"), ollama("llama3:70b", "/o/70b"), ollama("qwen:latest", "/o/q")]);
    let (mut m, _): (ModelManager<u8>, Option<LoadStep>) = ModelManager::new(r, 4096, None);
    assert_eq!(load(&mut m, "llama3", None, 1), "llama3");
    assert_eq!(load(&mut m, "llama3:70b", None, 2), "llama3:70b");
    assert_eq!(m.active_model.as_ref().unwrap().path, "/o/70b");
    assert_eq!(load(&mut m, " llama3 ", None, 3), "llama3");
    for request in ["llama3:8b", "llama", "LLAMA3"] {
        assert!(matches!(m.get_or_load(request, None, false, false, 0), LoadStep::Reuse { .. }));
    }
    assert_eq!(load(&mut m, "qwen", None, 4), "qwen");
    assert!(matches!(m.get_or_load("qwen:latest", None, false, false, 0), LoadStep::Reuse { .. }));
}

#[test]
fn unknown_models_leave_the_active_one() {
    let mut m = manager();
    load(&mut m, "a", None, 1);
    match m.get_or_load("zzz", None, false, false, 0) {
        LoadStep::NotFound(message) => {
            assert_eq!(message, "Model 'zzz' not found. Run 'hypura list' to see available models.");
        }
        _ => panic!("found"),
    }
    match m.get_or_load("zzz", Some(10), true, true, 0) {
        LoadStep::Inspect { path, context } => {
            assert_eq!(path, "zzz");
            assert_eq!(context, 10);
        }
        _ => panic!("not to be opened"),
    }
    assert_eq!(m.active_model.as_ref().unwrap().name, "a");
}

#[test]
fn processes_report_the_active_model() {
    let mut m = manager();
    assert!(m.processes().is_empty());
    load(&mut m, "b", Some(512), 1);
    let list = m.processes();
    assert_eq!(list.len(), 1);
    assert_eq!(list[0].name, "b");
    assert_eq!(list[0].model, "b");
    assert_eq!(list[0].size, 2);
    assert_eq!(list[0].size_vram, 2);
    assert_eq!(list[0].digest, "");
    assert_eq!(list[0].expires_at, "");
    assert_eq!(list[0].context_size, 512);
    assert_eq!(list[0].details.parameter_size, "7.0B");
}

#[test]
fn first_text_that_holds_a_part() {
    let list = vec!["abc".to_string(), "bcd".to_string(), "cde".to_string()];
    assert_eq!(find_holding(&list, "cd"), Some(1));
    assert_eq!(find_holding(&list, ""), Some(0));
    assert_eq!(find_holding(&list, "x"), None);
}
