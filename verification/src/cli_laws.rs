//! Laws of what the command line prints and asks for.

use vstd::prelude::*;

use crate::cli::address;
use crate::cli::first_line;
use crate::cli::is_model_listing;
use crate::cli::list_advice;
use crate::cli::list_heading;
use crate::cli::list_row;
use crate::cli::list_rows;
use crate::cli::list_title;
use crate::cli::pad_right;
use crate::cli::ps_lines;
use crate::cli::ps_request;
use crate::cli::ps_row;
use crate::cli::reply_parts;
use crate::cli::row_cells;
use crate::cli::table_row;
use crate::cli::table_rule;
use crate::number::byte_size;
use crate::number::decimal;
use crate::number::parameter_size;
use crate::ollama_types::ProcessModel;
use crate::ollama_types::ProcessView;
use crate::registry::info_of;
use crate::registry::sorts;
use crate::registry::ModelView;
use crate::registry::RegisteredModel;
use crate::registry_laws::lemma_find_after;
use crate::syntax_laws::lemma_lacks_char;
use crate::text::lemma_find_from;
use crate::text::lemma_precedes_transitive;
use crate::text::occurs_at;
use crate::text::precedes;

verus! {

/// A column of a row: the text, with spaces behind it up to the width of the column.
pub open spec fn is_column(s: Seq<char>, cell: Seq<char>, width: nat) -> bool {
    &&& s.len() == if cell.len() < width { width } else { cell.len() }
    &&& s.take(cell.len() as int) == cell
    &&& forall|i: int| cell.len() <= i < s.len() ==> (#[trigger] s[i]) == ' '
}

/// A text is padded with spaces on its right.
pub proof fn law_cells_are_padded(s: Seq<char>, width: nat)
    ensures
        is_column(pad_right(s, width), s, width),
{
    let r = pad_right(s, width);
    assert(r.take(s.len() as int) =~= s);
}

/// A row is set in by two spaces, and its columns stand one behind the other with a
/// space between them.
pub proof fn law_row_of_table(
    cells: Seq<Seq<char>>,
    widths: Seq<nat>,
    last: Seq<char>,
    width: nat,
)
    requires
        cells.len() > 0,
        cells.len() == widths.len(),
    ensures
        table_row(seq![last], seq![width]) == seq![' ', ' '] + pad_right(last, width),
        table_row(cells.push(last), widths.push(width)) == table_row(cells, widths) + seq![' ']
            + pad_right(last, width),
{
    let one = seq![last];
    assert(one.last() == last);
    let all = cells.push(last);
    let wide = widths.push(width);
    assert(all.drop_last() =~= cells);
    lemma_row_front(cells, widths, wide);
    assert(wide[all.len() - 1] == width);
    assert(table_row(all, wide) =~= table_row(cells, widths) + seq![' '] + pad_right(last, width));
}

proof fn lemma_row_front(cells: Seq<Seq<char>>, a: Seq<nat>, b: Seq<nat>)
    requires
        cells.len() <= a.len(),
        cells.len() <= b.len(),
        forall|i: int| 0 <= i < cells.len() ==> a[i] == b[i],
    ensures
        row_cells(cells, a) == row_cells(cells, b),
    decreases cells.len(),
{
    if cells.len() > 0 {
        lemma_row_front(cells.drop_last(), a, b);
    }
}

/// The row of a model shows its name, its size, its family, the number of its
/// parameters, its quantization and where it was found, in columns of fixed widths.
pub proof fn law_row_of_model(m: ModelView)
    ensures
        list_row(m) == seq![' ', ' '] + pad_right(m.name, 36) + seq![' '] + pad_right(
            byte_size(m.size as nat),
            10,
        ) + seq![' '] + pad_right(m.architecture, 12) + seq![' '] + pad_right(
            parameter_size(m.parameter_count as nat),
            8,
        ) + seq![' '] + pad_right(
            match m.quantization {
                Some(q) => q,
                None => "unknown"@,
            },
            8,
        ) + seq![' '] + pad_right(m.source, 10),
{
    lemma_six(
        m.name,
        byte_size(m.size as nat),
        m.architecture,
        parameter_size(m.parameter_count as nat),
        info_of(m).quantization,
        m.source,
        36,
        10,
        12,
        8,
        8,
        10,
    );
}

proof fn lemma_six(
    a: Seq<char>,
    b: Seq<char>,
    c: Seq<char>,
    d: Seq<char>,
    e: Seq<char>,
    f: Seq<char>,
    p: nat,
    q: nat,
    r: nat,
    s: nat,
    t: nat,
    u: nat,
)
    ensures
        table_row(seq![a, b, c, d, e, f], seq![p, q, r, s, t, u]) == seq![' ', ' '] + pad_right(a, p)
            + seq![' '] + pad_right(b, q) + seq![' '] + pad_right(c, r) + seq![' '] + pad_right(d, s)
            + seq![' '] + pad_right(e, t) + seq![' '] + pad_right(f, u),
{
    law_row_of_table(seq![a], seq![p], b, q);
    law_row_of_table(seq![a], seq![p], a, p);
    law_row_of_table(seq![a, b], seq![p, q], c, r);
    law_row_of_table(seq![a, b, c], seq![p, q, r], d, s);
    law_row_of_table(seq![a, b, c, d], seq![p, q, r, s], e, t);
    law_row_of_table(seq![a, b, c, d, e], seq![p, q, r, s, t], f, u);
    assert(seq![a].push(b) =~= seq![a, b]);
    assert(seq![a, b].push(c) =~= seq![a, b, c]);
    assert(seq![a, b, c].push(d) =~= seq![a, b, c, d]);
    assert(seq![a, b, c, d].push(e) =~= seq![a, b, c, d, e]);
    assert(seq![a, b, c, d, e].push(f) =~= seq![a, b, c, d, e, f]);
    assert(seq![p].push(q) =~= seq![p, q]);
    assert(seq![p, q].push(r) =~= seq![p, q, r]);
    assert(seq![p, q, r].push(s) =~= seq![p, q, r, s]);
    assert(seq![p, q, r, s].push(t) =~= seq![p, q, r, s, t]);
    assert(seq![p, q, r, s, t].push(u) =~= seq![p, q, r, s, t, u]);
}

/// The row of a loaded model shows its name, where it runs, its size, its context, the
/// number of its parameters and its quantization, in columns of fixed widths.
pub proof fn law_row_of_process(m: ProcessView)
    ensures
        ps_row(m) == seq![' ', ' '] + pad_right(m.name, 32) + seq![' '] + pad_right(
            "100% Metal/GPU"@,
            16,
        ) + seq![' '] + pad_right(byte_size(m.size as nat), 10) + seq![' '] + pad_right(
            decimal(m.context_size as nat) + " tokens"@,
            10,
        ) + seq![' '] + pad_right(m.details.parameter_size, 8) + seq![' '] + pad_right(
            m.details.quantization_level,
            8,
        ),
{
    lemma_six(
        m.name,
        "100% Metal/GPU"@,
        byte_size(m.size as nat),
        decimal(m.context_size as nat) + " tokens"@,
        m.details.parameter_size,
        m.details.quantization_level,
        32,
        16,
        10,
        10,
        8,
        8,
    );
}

/// Each model has a row in the list, and the rows stand in the order of the names.
pub proof fn law_each_model_is_listed(lines: Seq<Seq<char>>, models: Seq<RegisteredModel>, k: int)
    requires
        is_model_listing(lines, models),
        0 <= k < models.len(),
    ensures
        exists|i: int| 5 <= i < lines.len() - 5 && #[trigger] lines[i] == list_row(models[k]@),
        lines.len() == models.len() + 10,
{
    let order = choose|order: Seq<int>| #[trigger]
        sorts(order, models) && lines == list_title() + seq![list_heading(), table_rule()]
            + list_rows(models, order) + list_advice();
    assert(order.contains(k));
    let i = choose|i: int| 0 <= i < order.len() && order[i] == k;
    assert(lines[5 + i] == list_rows(models, order)[i]);
}

/// Of two models the one whose name comes first in order has the earlier row.
pub proof fn law_list_is_in_order(models: Seq<RegisteredModel>, order: Seq<int>, i: int, j: int)
    requires
        sorts(order, models),
        0 <= i < order.len(),
        0 <= j < order.len(),
        precedes(models[order[i]].name@, models[order[j]].name@),
    ensures
        i < j,
{
    let a = models[order[i]].name@;
    let b = models[order[j]].name@;
    lemma_not_before_itself(a);
    if j < i {
        assert(precedes(b, a));
        lemma_precedes_transitive(a, b, a);
    }
}

proof fn lemma_not_before_itself(a: Seq<char>)
    ensures
        !precedes(a, a),
    decreases a.len(),
{
    if a.len() > 0 {
        lemma_not_before_itself(a.skip(1));
    }
}

/// Each loaded model has a row in the list of processes, in the order in which the
/// server reports them.
pub proof fn law_each_process_is_listed(
    host: Seq<char>,
    port: nat,
    models: Seq<ProcessModel>,
    k: int,
)
    requires
        0 <= k < models.len(),
    ensures
        ps_lines(host, port, models).len() == models.len() + 6,
        ps_lines(host, port, models)[5 + k] == ps_row(models[k]@),
{
}

/// Without models this is told in place of a list.
pub proof fn law_nothing_is_listed(host: Seq<char>, port: nat, lines: Seq<Seq<char>>)
    requires
        is_model_listing(lines, Seq::empty()),
    ensures
        lines[3] == "  No models found."@,
        ps_lines(host, port, Seq::empty())[3]
            == "  No models currently loaded in memory (daemon idle)."@,
{
}

/// A reply is what stands before its first blank line, its headers, and what stands
/// behind it, its body.
pub proof fn law_reply_is_taken_apart(headers: Seq<char>, body: Seq<char>)
    requires
        forall|i: int|
            0 <= i < headers.len() ==> !#[trigger] occurs_at(
                headers + "\r\n\r\n"@ + body,
                "\r\n\r\n"@,
                i,
            ),
    ensures
        reply_parts(headers + "\r\n\r\n"@ + body) == (headers, body),
{
    let p = "\r\n\r\n"@;
    let s = headers + p + body;
    let n = headers.len() as int;
    lemma_find_from(s, p, 0);
    assert(s.subrange(n, n + p.len()) =~= p);
    assert(occurs_at(s, p, n));
    assert(s.subrange(0, n) =~= headers);
    assert(s.subrange(n + p.len(), s.len() as int) =~= body);
}

/// The first line of a text ends at the end of the line, with or without a carriage
/// return; without such an end it is the text.
pub proof fn law_first_line(line: Seq<char>, rest: Seq<char>)
    requires
        !line.contains('\n'),
        line.len() > 0 ==> line.last() != '\r',
    ensures
        first_line(line + seq!['\r', '\n'] + rest) == line,
        first_line(line + seq!['\n'] + rest) == line,
        first_line(line) == line,
{
    reveal_strlit("\n");
    let end = seq!['\n'];
    assert("\n"@ =~= end);
    let n = line.len() as int;
    let more = line + seq!['\r'];
    assert forall|i: int| 0 <= i < more.len() implies more[i] != '\n' by {
        if i < n {
            assert(more[i] == line[i]);
            assert(line.contains(line[i]));
        }
    }
    lemma_find_after(more, '\n', rest);
    lemma_find_after(line, '\n', rest);
    lemma_lacks_char(line, '\n');
    let a = line + seq!['\r', '\n'] + rest;
    assert(a =~= more + end + rest);
    assert(a[n] == '\r');
    assert(a.subrange(0, n) =~= line);
    let b = line + end + rest;
    assert(b.subrange(0, n) =~= line);
    if n > 0 {
        assert(b[n - 1] == line.last());
    }
}

/// A server is asked at its host and port.
pub proof fn law_address(host: Seq<char>, port: nat)
    ensures
        address(host, port) == host + seq![':'] + decimal(port),
        ps_request(host, port) == "GET /api/ps HTTP/1.1\r\nHost: "@ + host + seq![':'] + decimal(
            port,
        ) + "\r\nUser-Agent: hypura-cli\r\nAccept: application/json\r\nConnection: close\r\n\r\n"@,
{
    reveal_strlit(":");
    assert(":"@ =~= seq![':']);
    let a = "GET /api/ps HTTP/1.1\r\nHost: "@;
    let z =
        "\r\nUser-Agent: hypura-cli\r\nAccept: application/json\r\nConnection: close\r\n\r\n"@;
    assert(a + (host + seq![':'] + decimal(port)) + z =~= a + host + seq![':'] + decimal(port) + z);
}

} // verus!
