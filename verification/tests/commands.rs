use hypura::cli::connection_advice;
use hypura::cli::model_listing;
use hypura::cli::process_listing;
use hypura::cli::read_reply;
use hypura::cli::refusal_advice;
use hypura::cli::serve_banner;
use hypura::cli::write_address;
use hypura::cli::write_ps_request;
use hypura::ollama_types::ModelDetails;
use hypura::ollama_types::ModelMetadata;
use hypura::ollama_types::ProcessModel;
use hypura::registry::Discovered;
use hypura::registry::FoundFile;
use hypura::registry::ModelRegistry;

fn registry(paths: &[&str]) -> ModelRegistry {
    let local = paths
        .iter()
        .map(|p| FoundFile {
            path: p.to_string(),
            size: 3 << 30,
            metadata: ModelMetadata {
                architecture: "llama".into(),
                parameter_count: 7_000_000_000,
                quantization: None,
                context_length: 1,
            },
        })
        .collect();
    ModelRegistry::new(None, None, Discovered { custom: vec![], local, ollama: vec![] })
}

#[test]
fn an_empty_registry_says_so() {
    let lines = model_listing(&registry(&[]));
    assert_eq!(lines.len(), 8);
    assert_eq!(lines[1], "Hypura Discovered Models");
    assert_eq!(lines[2], "\u{2500}".repeat(77));
    assert_eq!(lines[3], "  No models found.");
    assert_eq!(lines[7], "");
}

#[test]
fn models_are_listed_in_a_table() {
    let long = "x".repeat(40);
    let lines = model_listing(&registry(&["/b.gguf", "/a.gguf", &format!("/{long}.gguf")]));
    assert_eq!(
        lines[3],
        format!("  {:<36} {:<10} {:<12} {:<8} {:<8} {:<10}", "NAME", "SIZE", "FAMILY", "PARAMS", "QUANT", "SOURCE")
    );
    assert_eq!(lines[4], format!("  {}", "\u{2500}".repeat(88)));
    for (i, name) in ["a", "b", &long].iter().enumerate() {
        assert_eq!(
            lines[5 + i],
            format!("  {:<36} {:<10} {:<12} {:<8} {:<8} {:<10}", name, "3.0 GB", "llama", "7.0B", "unknown", "Local")
        );
    }
    assert_eq!(lines[9], "To start serving:");
    assert_eq!(lines.len(), 13);
}

#[test]
fn requests_for_processes() {
    assert_eq!(write_address("::1", 65535), "::1:65535");
    assert_eq!(
        write_ps_request("localhost", 6000),
        "GET /api/ps HTTP/1.1\r\nHost: localhost:6000\r\nUser-Agent: hypura-cli\r\nAccept: application/json\r\nConnection: close\r\n\r\n"
    );
}

#[test]
fn replies_are_taken_apart() {
    assert_eq!(read_reply("HTTP/1.1 200 OK\r\nA: b\r\n\r\n{\r\n\r\n}"), Ok("{\r\n\r\n}".to_string()));
    assert_eq!(read_reply("HTTP/1.1 404 Not Found\r\nX: 200\r\n\r\nbody"), Err("HTTP/1.1 404 Not Found".to_string()));
    assert_eq!(read_reply("HTTP/1.1 200 OK"), Err(String::new()));
    assert_eq!(read_reply(""), Err(String::new()));
    assert_eq!(read_reply("500\nx\r\n\r\n"), Err("500".to_string()));
    assert_eq!(read_reply("500 \r\r\n\r\n"), Err("500 \r".to_string()));
}

#[test]
fn processes_are_listed_in_a_table() {
    let models = vec![ProcessModel {
        name: "m\u{fc}".into(),
        model: "m\u{fc}".into(),
        size: 5 << 20,
        digest: String::new(),
        details: ModelDetails {
            format: "gguf".into(),
            family: "f".into(),
            parameter_size: "7.0B".into(),
            quantization_level: "Q4".into(),
        },
        expires_at: String::new(),
        size_vram: 0,
        context_size: 4096,
    }];
    let lines = process_listing("h", 80, &models);
    assert_eq!(lines.len(), 7);
    assert_eq!(lines[1], "Hypura Active Processes (http://h:80)");
    assert_eq!(
        lines[3],
        format!("  {:<32} {:<16} {:<10} {:<10} {:<8} {:<8}", "NAME", "PROCESSOR", "SIZE", "CONTEXT", "PARAMS", "QUANT")
    );
    assert_eq!(
        lines[5],
        format!("  {:<32} {:<16} {:<10} {:<10} {:<8} {:<8}", "m\u{fc}", "100% Metal/GPU", "5 MB", "4096 tokens", "7.0B", "Q4")
    );
    let lines = process_listing("h", 80, &vec![]);
    assert_eq!(lines[3], "  No models currently loaded in memory (daemon idle).");
    assert_eq!(lines.len(), 8);
}

#[test]
fn advice_where_the_server_does_not_answer() {
    assert_eq!(
        connection_advice("h", 80),
        vec!["", "Error: Could not connect to Hypura server at http://h:80", "", "To start the server, run:", "  hypura serve --port 80", ""]
    );
    assert_eq!(
        refusal_advice("HTTP/1.1 404"),
        vec!["", "Server responded with: HTTP/1.1 404", "If you recently updated Hypura, restart the server to enable /api/ps.", ""]
    );
}

#[test]
fn servers_say_what_they_serve() {
    assert_eq!(
        serve_banner("0.0.0.0", 6000, 12, Some("m")),
        vec![
            "",
            "Hypura Server running in dynamic multi-model mode",
            "  Endpoint: http://0.0.0.0:6000",
            "  Ollama-compatible API: /api/tags, /api/show, /api/chat, /api/generate",
            "  Discovered 12 models (Local + Ollama).",
            "  Pre-warmed model: m",
            "",
        ]
    );
    assert_eq!(serve_banner("h", 1, 0, None).len(), 6);
}
