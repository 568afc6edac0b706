//! What the commands print.

use vstd::prelude::*;
use vstd::slice::slice_subrange;

use crate::number::byte_size;
use crate::number::decimal;
use crate::number::decimal_of;
use crate::number::format_bytes;
use crate::number::format_parameter_size;
use crate::number::parameter_size;
use crate::ollama_types::ProcessModel;
use crate::ollama_types::ProcessView;
use crate::registry::indices;
use crate::registry::info_of;
use crate::registry::sorts;
use crate::registry::ModelRegistry;
use crate::registry::ModelView;
use crate::registry::RegisteredModel;
use crate::text::chars_of;
use crate::text::copy_str;
use crate::text::find;
use crate::text::has_text;
use crate::text::mentions;
use crate::text::push_all;
use crate::text::search;
use crate::text::string_of;

verus! {

// ---------------------------------------------------------------------------
// Tables

/// `s` with spaces put behind it until it is `width` characters long.
pub open spec fn pad_right(s: Seq<char>, width: nat) -> Seq<char> {
    if s.len() >= width {
        s
    } else {
        s + Seq::new((width - s.len()) as nat, |i: int| ' ')
    }
}

/// The cells of a row, each padded to the width of its column, with spaces between
/// them.
pub open spec fn row_cells(cells: Seq<Seq<char>>, widths: Seq<nat>) -> Seq<char>
    decreases cells.len(),
{
    if cells.len() == 0 {
        Seq::empty()
    } else {
        let last = pad_right(cells.last(), widths[cells.len() - 1]);
        if cells.len() == 1 {
            last
        } else {
            row_cells(cells.drop_last(), widths) + seq![' '] + last
        }
    }
}

/// A row of a table, set in by two spaces.
pub open spec fn table_row(cells: Seq<Seq<char>>, widths: Seq<nat>) -> Seq<char> {
    seq![' ', ' '] + row_cells(cells, widths)
}

/// The rule below the heading of a table.
pub open spec fn table_rule() -> Seq<char> {
    seq![' ', ' '] + Seq::new(88, |i: int| '\u{2500}')
}

/// The widths of columns as numbers.
pub open spec fn nats(widths: Seq<usize>) -> Seq<nat> {
    Seq::new(widths.len(), |i: int| widths[i] as nat)
}

/// The texts of cells.
pub open spec fn cells_view(cells: Seq<Vec<char>>) -> Seq<Seq<char>> {
    Seq::new(cells.len(), |i: int| cells[i]@)
}

/// Appends a character `n` times.
fn push_repeated(out: &mut Vec<char>, c: char, n: usize)
    ensures
        final(out)@ == old(out)@ + Seq::new(n as nat, |i: int| c),
{
    let ghost start = out@;
    let mut i: usize = 0;
    proof {
        assert(start + Seq::new(0, |k: int| c) =~= start);
    }
    while i < n
        invariant
            i <= n,
            out@ == start + Seq::new(i as nat, |k: int| c),
        decreases n - i,
    {
        out.push(c);
        i = i + 1;
        proof {
            assert(out@ =~= start + Seq::new(i as nat, |k: int| c));
        }
    }
}

/// Writes a row of a table.
fn write_row(cells: &Vec<Vec<char>>, widths: &Vec<usize>) -> (r: String)
    requires
        cells@.len() == widths@.len(),
    ensures
        r@ == table_row(cells_view(cells@), nats(widths@)),
{
    let ghost all = cells_view(cells@);
    let ghost columns = nats(widths@);
    let mut out: Vec<char> = vec![' ', ' '];
    let mut i: usize = 0;
    proof {
        assert(all.take(0) =~= Seq::<Seq<char>>::empty());
        assert(out@ =~= seq![' ', ' '] + row_cells(all.take(0), columns));
    }
    while i < cells.len()
        invariant
            all == cells_view(cells@),
            columns == nats(widths@),
            cells@.len() == widths@.len(),
            i <= cells@.len(),
            out@ == seq![' ', ' '] + row_cells(all.take(i as int), columns),
        decreases cells@.len() - i,
    {
        if i > 0 {
            out.push(' ');
        }
        push_all(&mut out, cells[i].as_slice());
        if cells[i].len() < widths[i] {
            push_repeated(&mut out, ' ', widths[i] - cells[i].len());
        }
        proof {
            assert(all.take(i + 1).drop_last() =~= all.take(i as int));
            assert(all.take(i + 1).last() == cells@[i as int]@);
            assert(out@ =~= seq![' ', ' '] + row_cells(all.take(i + 1), columns));
        }
        i = i + 1;
    }
    proof {
        assert(all.take(all.len() as int) =~= all);
    }
    string_of(out.as_slice())
}

/// Writes the rule below the heading of a table.
fn write_rule() -> (r: String)
    ensures
        r@ == table_rule(),
{
    let mut out: Vec<char> = vec![' ', ' '];
    push_repeated(&mut out, '\u{2500}', 88);
    proof {
        assert(out@ =~= table_rule());
    }
    string_of(out.as_slice())
}

// ---------------------------------------------------------------------------
// The list of models

/// The widths of the columns of the list of models.
pub open spec fn list_widths() -> Seq<nat> {
    seq![36, 10, 12, 8, 8, 10]
}

/// The row of a model in the list of models.
pub open spec fn list_row(m: ModelView) -> Seq<char> {
    table_row(
        seq![
            m.name,
            byte_size(m.size as nat),
            m.architecture,
            parameter_size(m.parameter_count as nat),
            info_of(m).quantization,
            m.source,
        ],
        list_widths(),
    )
}

/// The heading of the list of models.
pub open spec fn list_heading() -> Seq<char> {
    table_row(
        seq!["NAME"@, "SIZE"@, "FAMILY"@, "PARAMS"@, "QUANT"@, "SOURCE"@],
        list_widths(),
    )
}

/// What stands above the list of models.
pub open spec fn list_title() -> Seq<Seq<char>> {
    seq![
        ""@,
        "Hypura Discovered Models"@,
        "─────────────────────────────────────────────────────────────────────────────"@,
    ]
}

/// What is printed where there are no models.
pub open spec fn no_models() -> Seq<Seq<char>> {
    seq![
        "  No models found."@,
        ""@,
        "  Place .gguf files in the current directory or specify --models-dir."@,
        "  Ollama models are automatically discovered from ~/.ollama/models."@,
        ""@,
    ]
}

/// What stands below the list of models.
pub open spec fn list_advice() -> Seq<Seq<char>> {
    seq![
        ""@,
        "To start serving:"@,
        "  hypura serve                    (dynamic daemon mode)"@,
        "  hypura serve <MODEL_NAME>       (pre-warmed mode)"@,
        ""@,
    ]
}

/// The rows of the models in the given order.
pub open spec fn list_rows(models: Seq<RegisteredModel>, order: Seq<int>) -> Seq<Seq<char>> {
    Seq::new(order.len(), |i: int| list_row(models[order[i]]@))
}

/// The lines that list the models, in the order of their names.
pub open spec fn is_model_listing(lines: Seq<Seq<char>>, models: Seq<RegisteredModel>) -> bool {
    if models.len() == 0 {
        lines == list_title() + no_models()
    } else {
        exists|order: Seq<int>| #[trigger]
            sorts(order, models) && lines == list_title() + seq![list_heading(), table_rule()]
                + list_rows(models, order) + list_advice()
    }
}

/// The texts of lines.
pub open spec fn lines_view(lines: Seq<String>) -> Seq<Seq<char>> {
    Seq::new(lines.len(), |i: int| lines[i]@)
}

/// Writes a row of the list of models.
fn write_list_row(model: &RegisteredModel) -> (r: String)
    ensures
        r@ == list_row(model@),
{
    let info = model.to_gguf_info();
    let cells: Vec<Vec<char>> = vec![
        chars_of(model.name.as_str()),
        chars_of(format_bytes(model.size).as_str()),
        chars_of(model.metadata.architecture.as_str()),
        chars_of(format_parameter_size(model.metadata.parameter_count).as_str()),
        chars_of(info.quantization.as_str()),
        chars_of(model.source.as_str()),
    ];
    let widths: Vec<usize> = vec![36, 10, 12, 8, 8, 10];
    proof {
        assert(nats(widths@) =~= list_widths());
        assert(cells_view(cells@) =~= seq![
            model@.name,
            byte_size(model@.size as nat),
            model@.architecture,
            parameter_size(model@.parameter_count as nat),
            info_of(model@).quantization,
            model@.source,
        ]);
    }
    write_row(&cells, &widths)
}

/// Writes the heading of the list of models.
fn write_list_heading() -> (r: String)
    ensures
        r@ == list_heading(),
{
    let cells: Vec<Vec<char>> = vec![
        chars_of("NAME"),
        chars_of("SIZE"),
        chars_of("FAMILY"),
        chars_of("PARAMS"),
        chars_of("QUANT"),
        chars_of("SOURCE"),
    ];
    let widths: Vec<usize> = vec![36, 10, 12, 8, 8, 10];
    proof {
        assert(nats(widths@) =~= list_widths());
        assert(cells_view(cells@) =~= seq![
            "NAME"@,
            "SIZE"@,
            "FAMILY"@,
            "PARAMS"@,
            "QUANT"@,
            "SOURCE"@,
        ]);
    }
    write_row(&cells, &widths)
}

/// The lines that list the models of a registry, in the order of their names.
pub fn model_listing(registry: &ModelRegistry) -> (r: Vec<String>)
    requires
        registry.wf(),
    ensures
        is_model_listing(lines_view(r@), registry.models@),
{
    let mut lines: Vec<String> = vec![
        copy_str(""),
        copy_str("Hypura Discovered Models"),
        copy_str("─────────────────────────────────────────────────────────────────────────────"),
    ];
    if registry.models.len() == 0 {
        lines.push(copy_str("  No models found."));
        lines.push(copy_str(""));
        lines.push(
            copy_str("  Place .gguf files in the current directory or specify --models-dir."),
        );
        lines.push(
            copy_str("  Ollama models are automatically discovered from ~/.ollama/models."),
        );
        lines.push(copy_str(""));
        proof {
            assert(lines_view(lines@) =~= list_title() + no_models());
        }
        return lines;
    }
    lines.push(write_list_heading());
    lines.push(write_rule());
    let order = registry.sorted();
    let ghost models = registry.models@;
    let ghost all = indices(order@);
    let ghost head = list_title() + seq![list_heading(), table_rule()];
    let mut i: usize = 0;
    proof {
        assert(lines_view(lines@) =~= head + list_rows(models, all.take(0)));
    }
    while i < order.len()
        invariant
            models == registry.models@,
            all == indices(order@),
            sorts(all, models),
            i <= order@.len(),
            lines_view(lines@) == head + list_rows(models, all.take(i as int)),
        decreases order@.len() - i,
    {
        proof {
            assert(all[i as int] == order@[i as int]);
        }
        let ghost before = lines_view(lines@);
        let row = write_list_row(&registry.models[order[i]]);
        lines.push(row);
        proof {
            assert(lines_view(lines@) =~= before.push(row@));
            assert(list_rows(models, all.take(i + 1)) =~= list_rows(
                models,
                all.take(i as int),
            ).push(row@));
            assert(lines_view(lines@) =~= head + list_rows(models, all.take(i + 1)));
        }
        i = i + 1;
    }
    proof {
        assert(all.take(all.len() as int) =~= all);
    }
    let ghost body = lines_view(lines@);
    lines.push(copy_str(""));
    lines.push(copy_str("To start serving:"));
    lines.push(copy_str("  hypura serve                    (dynamic daemon mode)"));
    lines.push(copy_str("  hypura serve <MODEL_NAME>       (pre-warmed mode)"));
    lines.push(copy_str(""));
    proof {
        assert(lines_view(lines@) =~= body + list_advice());
    }
    lines
}

// ---------------------------------------------------------------------------
// The list of processes

/// The address of a server.
pub open spec fn address(host: Seq<char>, port: nat) -> Seq<char> {
    host + ":"@ + decimal(port)
}

/// Writes the address of a server.
pub fn write_address(host: &str, port: u16) -> (r: String)
    ensures
        r@ == address(host@, port as nat),
{
    let mut out = copy_str(host);
    out.append(":");
    out.append(string_of(decimal_of(port as u128).as_slice()).as_str());
    out
}

/// The request for the list of processes.
pub open spec fn ps_request(host: Seq<char>, port: nat) -> Seq<char> {
    "GET /api/ps HTTP/1.1\r\nHost: "@ + address(host, port)
        + "\r\nUser-Agent: hypura-cli\r\nAccept: application/json\r\nConnection: close\r\n\r\n"@
}

/// Writes the request for the list of processes.
pub fn write_ps_request(host: &str, port: u16) -> (r: String)
    ensures
        r@ == ps_request(host@, port as nat),
{
    let mut out = copy_str("GET /api/ps HTTP/1.1\r\nHost: ");
    out.append(write_address(host, port).as_str());
    out.append(
        "\r\nUser-Agent: hypura-cli\r\nAccept: application/json\r\nConnection: close\r\n\r\n",
    );
    out
}

/// The first line of a text, without the end of the line.
pub open spec fn first_line(s: Seq<char>) -> Seq<char> {
    match find(s, "\n"@) {
        Some(i) => if i > 0 && s[i - 1] == '\r' {
            s.subrange(0, i - 1)
        } else {
            s.subrange(0, i)
        },
        None => s,
    }
}

/// The headers and the body of a reply; without a blank line, all of it is body.
pub open spec fn reply_parts(reply: Seq<char>) -> (Seq<char>, Seq<char>) {
    match find(reply, "\r\n\r\n"@) {
        Some(i) => (
            reply.subrange(0, i),
            reply.subrange(i + "\r\n\r\n"@.len(), reply.len() as int),
        ),
        None => (Seq::empty(), reply),
    }
}

/// Reads a reply: its body where its first line reports success, or else that
/// line.
pub fn read_reply(reply: &str) -> (r: Result<String, String>)
    ensures
        ({
            let (headers, body) = reply_parts(reply@);
            if mentions(first_line(headers), "200"@) {
                r matches Ok(text) && text@ == body
            } else {
                r matches Err(line) && line@ == first_line(headers)
            }
        }),
{
    proof {
        reveal_strlit("\r\n\r\n");
        reveal_strlit("\n");
    }
    let chars = chars_of(reply);
    let all = chars.as_slice();
    let n: usize = all.len();
    let (headers, body) = match search(all, "\r\n\r\n", 0) {
        Some(i) => (slice_subrange(all, 0, i), slice_subrange(all, i + 4, n)),
        None => (slice_subrange(all, 0, 0), all),
    };
    proof {
        assert(headers@ =~= reply_parts(reply@).0);
        assert(body@ =~= reply_parts(reply@).1);
    }
    let line = match search(headers, "\n", 0) {
        Some(i) => if i > 0 && headers[i - 1] == '\r' {
            slice_subrange(headers, 0, i - 1)
        } else {
            slice_subrange(headers, 0, i)
        },
        None => headers,
    };
    if has_text(line, "200") {
        Ok(string_of(body))
    } else {
        Err(string_of(line))
    }
}

/// The widths of the columns of the list of processes.
pub open spec fn ps_widths() -> Seq<nat> {
    seq![32, 16, 10, 10, 8, 8]
}

/// The heading of the list of processes.
pub open spec fn ps_heading() -> Seq<char> {
    table_row(
        seq!["NAME"@, "PROCESSOR"@, "SIZE"@, "CONTEXT"@, "PARAMS"@, "QUANT"@],
        ps_widths(),
    )
}

/// The row of a model in the list of processes.
pub open spec fn ps_row(m: ProcessView) -> Seq<char> {
    table_row(
        seq![
            m.name,
            "100% Metal/GPU"@,
            byte_size(m.size as nat),
            decimal(m.context_size as nat) + " tokens"@,
            m.details.parameter_size,
            m.details.quantization_level,
        ],
        ps_widths(),
    )
}

/// What stands above the list of processes.
pub open spec fn ps_title(host: Seq<char>, port: nat) -> Seq<Seq<char>> {
    seq![
        ""@,
        "Hypura Active Processes (http://"@ + address(host, port) + ")"@,
        "─────────────────────────────────────────────────────────────────────────────"@,
    ]
}

/// What is printed where no model is loaded.
pub open spec fn no_processes() -> Seq<Seq<char>> {
    seq![
        "  No models currently loaded in memory (daemon idle)."@,
        ""@,
        "  Models are loaded on-demand when client requests arrive."@,
        "  Run 'hypura list' to view available models."@,
        ""@,
    ]
}

/// The lines that list the processes of a server.
pub open spec fn ps_lines(host: Seq<char>, port: nat, models: Seq<ProcessModel>) -> Seq<Seq<char>> {
    if models.len() == 0 {
        ps_title(host, port) + no_processes()
    } else {
        ps_title(host, port) + seq![ps_heading(), table_rule()] + Seq::new(
            models.len(),
            |i: int| ps_row(models[i]@),
        ) + seq![""@]
    }
}

/// Writes the heading of the list of processes.
fn write_ps_heading() -> (r: String)
    ensures
        r@ == ps_heading(),
{
    let cells: Vec<Vec<char>> = vec![
        chars_of("NAME"),
        chars_of("PROCESSOR"),
        chars_of("SIZE"),
        chars_of("CONTEXT"),
        chars_of("PARAMS"),
        chars_of("QUANT"),
    ];
    let widths: Vec<usize> = vec![32, 16, 10, 10, 8, 8];
    proof {
        assert(nats(widths@) =~= ps_widths());
        assert(cells_view(cells@) =~= seq![
            "NAME"@,
            "PROCESSOR"@,
            "SIZE"@,
            "CONTEXT"@,
            "PARAMS"@,
            "QUANT"@,
        ]);
    }
    write_row(&cells, &widths)
}

/// Writes a row of the list of processes.
fn write_ps_row(model: &ProcessModel) -> (r: String)
    ensures
        r@ == ps_row(model@),
{
    let mut context = decimal_of(model.context_size as u128);
    let unit = chars_of(" tokens");
    push_all(&mut context, unit.as_slice());
    let cells: Vec<Vec<char>> = vec![
        chars_of(model.name.as_str()),
        chars_of("100% Metal/GPU"),
        chars_of(format_bytes(model.size).as_str()),
        context,
        chars_of(model.details.parameter_size.as_str()),
        chars_of(model.details.quantization_level.as_str()),
    ];
    let widths: Vec<usize> = vec![32, 16, 10, 10, 8, 8];
    proof {
        assert(nats(widths@) =~= ps_widths());
        assert(cells_view(cells@) =~= seq![
            model@.name,
            "100% Metal/GPU"@,
            byte_size(model@.size as nat),
            decimal(model@.context_size as nat) + " tokens"@,
            model@.details.parameter_size,
            model@.details.quantization_level,
        ]);
    }
    write_row(&cells, &widths)
}

/// The lines that list the processes of a server.
pub fn process_listing(host: &str, port: u16, models: &Vec<ProcessModel>) -> (r: Vec<String>)
    ensures
        lines_view(r@) == ps_lines(host@, port as nat, models@),
{
    let mut title = copy_str("Hypura Active Processes (http://");
    title.append(write_address(host, port).as_str());
    title.append(")");
    let mut lines: Vec<String> = vec![
        copy_str(""),
        title,
        copy_str("─────────────────────────────────────────────────────────────────────────────"),
    ];
    if models.len() == 0 {
        lines.push(copy_str("  No models currently loaded in memory (daemon idle)."));
        lines.push(copy_str(""));
        lines.push(copy_str("  Models are loaded on-demand when client requests arrive."));
        lines.push(copy_str("  Run 'hypura list' to view available models."));
        lines.push(copy_str(""));
        proof {
            assert(lines_view(lines@) =~= ps_title(host@, port as nat) + no_processes());
        }
        return lines;
    }
    lines.push(write_ps_heading());
    lines.push(write_rule());
    let ghost head = ps_title(host@, port as nat) + seq![ps_heading(), table_rule()];
    let mut i: usize = 0;
    proof {
        assert(lines_view(lines@) =~= head + Seq::new(0, |k: int| ps_row(models@[k]@)));
    }
    while i < models.len()
        invariant
            i <= models@.len(),
            lines_view(lines@) == head + Seq::new(i as nat, |k: int| ps_row(models@[k]@)),
        decreases models@.len() - i,
    {
        let ghost before = lines_view(lines@);
        let row = write_ps_row(&models[i]);
        lines.push(row);
        i = i + 1;
        proof {
            assert(lines_view(lines@) =~= before.push(row@));
            assert(lines_view(lines@) =~= head + Seq::new(
                i as nat,
                |k: int| ps_row(models@[k]@),
            ));
        }
    }
    lines.push(copy_str(""));
    proof {
        assert(lines_view(lines@) =~= ps_lines(host@, port as nat, models@));
    }
    lines
}

/// What is printed where no server can be reached.
pub open spec fn unreachable_lines(host: Seq<char>, port: nat) -> Seq<Seq<char>> {
    seq![
        ""@,
        "Error: Could not connect to Hypura server at http://"@ + address(host, port),
        ""@,
        "To start the server, run:"@,
        "  hypura serve --port "@ + decimal(port),
        ""@,
    ]
}

/// The lines that say that no server can be reached.
pub fn connection_advice(host: &str, port: u16) -> (r: Vec<String>)
    ensures
        lines_view(r@) == unreachable_lines(host@, port as nat),
{
    let mut what = copy_str("Error: Could not connect to Hypura server at http://");
    what.append(write_address(host, port).as_str());
    let mut command = copy_str("  hypura serve --port ");
    command.append(string_of(decimal_of(port as u128).as_slice()).as_str());
    let lines: Vec<String> = vec![
        copy_str(""),
        what,
        copy_str(""),
        copy_str("To start the server, run:"),
        command,
        copy_str(""),
    ];
    proof {
        assert(lines_view(lines@) =~= unreachable_lines(host@, port as nat));
    }
    lines
}

/// What is printed where the server does not report success.
pub open spec fn refusal_lines(line: Seq<char>) -> Seq<Seq<char>> {
    seq![
        ""@,
        "Server responded with: "@ + line,
        "If you recently updated Hypura, restart the server to enable /api/ps."@,
        ""@,
    ]
}

/// The lines that say how a server replied.
pub fn refusal_advice(line: &str) -> (r: Vec<String>)
    ensures
        lines_view(r@) == refusal_lines(line@),
{
    let mut what = copy_str("Server responded with: ");
    what.append(line);
    let lines: Vec<String> = vec![
        copy_str(""),
        what,
        copy_str("If you recently updated Hypura, restart the server to enable /api/ps."),
        copy_str(""),
    ];
    proof {
        assert(lines_view(lines@) =~= refusal_lines(line@));
    }
    lines
}

// ---------------------------------------------------------------------------
// The server

/// What a server prints when it starts.
pub open spec fn banner_lines(host: Seq<char>, port: nat, count: nat, model: Option<Seq<char>>) -> Seq<
    Seq<char>,
> {
    let head = seq![
        ""@,
        "Hypura Server running in dynamic multi-model mode"@,
        "  Endpoint: http://"@ + address(host, port),
        "  Ollama-compatible API: /api/tags, /api/show, /api/chat, /api/generate"@,
        "  Discovered "@ + decimal(count) + " models (Local + Ollama)."@,
    ];
    match model {
        Some(m) => head + seq!["  Pre-warmed model: "@ + m, ""@],
        None => head + seq![""@],
    }
}

/// The lines that a server prints when it starts.
pub fn serve_banner(host: &str, port: u16, count: usize, model: Option<&str>) -> (r: Vec<String>)
    ensures
        lines_view(r@) == banner_lines(
            host@,
            port as nat,
            count as nat,
            (match model {
                Some(m) => Some(m@),
                None => None,
            }),
        ),
{
    let mut endpoint = copy_str("  Endpoint: http://");
    endpoint.append(write_address(host, port).as_str());
    let mut discovered = copy_str("  Discovered ");
    discovered.append(string_of(decimal_of(count as u128).as_slice()).as_str());
    discovered.append(" models (Local + Ollama).");
    let mut lines: Vec<String> = vec![
        copy_str(""),
        copy_str("Hypura Server running in dynamic multi-model mode"),
        endpoint,
        copy_str("  Ollama-compatible API: /api/tags, /api/show, /api/chat, /api/generate"),
        discovered,
    ];
    if let Some(m) = model {
        let mut warmed = copy_str("  Pre-warmed model: ");
        warmed.append(m);
        lines.push(warmed);
    }
    lines.push(copy_str(""));
    proof {
        let wanted = banner_lines(
            host@,
            port as nat,
            count as nat,
            match model {
                Some(m) => Some(m@),
                None => None,
            },
        );
        assert(lines_view(lines@) =~= wanted);
    }
    lines
}

} // verus!
