//! What the front end reports back, as values and as lines of text.

use vstd::prelude::*;
use vstd::string::*;

use crate::diagnostics::{CheckStatus, DoctorReport};
use crate::transport::{DiscoveredPrinter, ResolvedPrinter, SendStats, TransportKind};
use crate::text::{decimal, push_decimal, push_str, string_of};

verus! {

/// The printer a command used.
#[derive(Clone, Debug)]
pub struct PrinterRef {
    pub id: String,
    pub transport: String,
}

/// The input a print used.
#[derive(Clone, Debug)]
pub struct InputRef {
    pub path: String,
    pub input_type: String,
}

/// What a print sent.
#[derive(Copy, Clone, Debug)]
pub struct PrintOutput {
    pub bytes_sent: usize,
    pub duration_ms: u128,
    pub chunks: usize,
    pub max_rows_per_chunk: u16,
    pub copies: u16,
}

/// The report of `print`.
#[derive(Clone, Debug)]
pub struct PrintResponse {
    pub ok: bool,
    pub command: String,
    pub printer: PrinterRef,
    pub input: InputRef,
    pub output: PrintOutput,
    pub paper: String,
}

/// The report of `printers list`.
#[derive(Clone, Debug)]
pub struct PrintersListResponse {
    pub ok: bool,
    pub command: String,
    pub printers: Vec<DiscoveredPrinter>,
}

/// The report of `printers test`.
#[derive(Clone, Debug)]
pub struct TestResponse {
    pub ok: bool,
    pub command: String,
    pub printer: PrinterRef,
    pub output: TestOutput,
}

/// What a printer test sent.
#[derive(Copy, Clone, Debug)]
pub struct TestOutput {
    pub bytes_sent: usize,
    pub duration_ms: u128,
}

/// The report of `doctor`.
#[derive(Clone, Debug)]
pub struct DoctorResponse {
    pub ok: bool,
    pub command: String,
    pub report: DoctorReport,
}

/// The name of a transport.
pub open spec fn transport_name(kind: TransportKind) -> Seq<char> {
    match kind {
        TransportKind::Usb => "usb"@,
        TransportKind::Tcp => "tcp"@,
    }
}

/// How a resolved printer is reported.
pub fn printer_ref(printer: ResolvedPrinter) -> (r: PrinterRef)
    ensures
        r.id@ == printer.id@,
        r.transport@ == transport_name(printer.transport),
{
    PrinterRef { id: printer.id, transport: string_of(printer.transport.as_str()) }
}

/// The report of `printers list` for the printers found.
pub fn printers_list_response(printers: Vec<DiscoveredPrinter>) -> (r: PrintersListResponse)
    ensures
        r.ok,
        r.command@ == "printers list"@,
        r.printers@ == printers@,
{
    PrintersListResponse { ok: true, command: string_of("printers list"), printers }
}

/// The report of `printers test` after `stats` were sent to `printer`.
pub fn test_response(printer: ResolvedPrinter, stats: SendStats) -> (r: TestResponse)
    ensures
        r.ok,
        r.command@ == "printers test"@,
        r.printer.id@ == printer.id@,
        r.printer.transport@ == transport_name(printer.transport),
        r.output.bytes_sent == stats.bytes_sent,
        r.output.duration_ms == stats.duration_ms,
{
    TestResponse {
        ok: true,
        command: string_of("printers test"),
        printer: printer_ref(printer),
        output: TestOutput { bytes_sent: stats.bytes_sent, duration_ms: stats.duration_ms },
    }
}

// ---------------------------------------------------------------------------
// Text for people
// ---------------------------------------------------------------------------
/// The line listing one discovered printer: id, name, transport and address, tab separated.
pub open spec fn printer_line(p: DiscoveredPrinter) -> Seq<char> {
    p.id@ + "\t"@ + p.display_name@ + "\t"@ + p.transport@ + "\t"@ + p.address@
}

/// The lines listing discovered printers, or a note that there are none.
pub fn human_printers_lines(printers: &[DiscoveredPrinter]) -> (r: Vec<String>)
    ensures
        printers@.len() == 0 ==> r@.len() == 1 && r@[0]@ == "No printers discovered."@,
        printers@.len() > 0 ==> r@.len() == printers@.len() && forall|k: int|
            0 <= k < r@.len() ==> (#[trigger] r@[k])@ == printer_line(printers@[k]),
{
    let mut lines: Vec<String> = Vec::new();
    if printers.len() == 0 {
        lines.push(string_of("No printers discovered."));
        return lines;
    }
    let mut i: usize = 0;
    while i < printers.len()
        invariant
            i <= printers@.len(),
            lines@.len() == i,
            forall|k: int| 0 <= k < i ==> (#[trigger] lines@[k])@ == printer_line(printers@[k]),
        decreases printers@.len() - i,
    {
        let p = &printers[i];
        let mut line = string_of(p.id.as_str());
        push_str(&mut line, "\t");
        push_str(&mut line, p.display_name.as_str());
        push_str(&mut line, "\t");
        push_str(&mut line, p.transport.as_str());
        push_str(&mut line, "\t");
        push_str(&mut line, p.address.as_str());
        lines.push(line);
        i = i + 1;
    }
    lines
}

/// The two lines reporting a print.
pub fn human_print_lines(result: &PrintResponse) -> (r: Vec<String>)
    ensures
        r@.len() == 2,
        r@[0]@ == "Printed "@ + decimal(result.output.copies as nat) + " copy/copies to "@
            + result.printer.id@ + "."@,
        r@[1]@ == "Bytes sent: "@ + decimal(result.output.bytes_sent as nat) + " ("@ + decimal(
            result.output.duration_ms as nat,
        ) + " ms, "@ + decimal(result.output.chunks as nat) + " raster chunks, max "@ + decimal(
            result.output.max_rows_per_chunk as nat,
        ) + " rows/chunk)"@,
{
    let mut first = string_of("Printed ");
    push_decimal(&mut first, result.output.copies as u128);
    push_str(&mut first, " copy/copies to ");
    push_str(&mut first, result.printer.id.as_str());
    push_str(&mut first, ".");
    let mut second = string_of("Bytes sent: ");
    push_decimal(&mut second, result.output.bytes_sent as u128);
    push_str(&mut second, " (");
    push_decimal(&mut second, result.output.duration_ms);
    push_str(&mut second, " ms, ");
    push_decimal(&mut second, result.output.chunks as u128);
    push_str(&mut second, " raster chunks, max ");
    push_decimal(&mut second, result.output.max_rows_per_chunk as u128);
    push_str(&mut second, " rows/chunk)");
    let mut lines: Vec<String> = Vec::new();
    lines.push(first);
    lines.push(second);
    lines
}

/// The line reporting a printer test.
pub fn human_test_line(result: &TestResponse) -> (r: String)
    ensures
        r@ == "Printer test sent to "@ + result.printer.id@ + " ("@ + decimal(
            result.output.bytes_sent as nat,
        ) + " bytes, "@ + decimal(result.output.duration_ms as nat) + " ms)."@,
{
    let mut line = string_of("Printer test sent to ");
    push_str(&mut line, result.printer.id.as_str());
    push_str(&mut line, " (");
    push_decimal(&mut line, result.output.bytes_sent as u128);
    push_str(&mut line, " bytes, ");
    push_decimal(&mut line, result.output.duration_ms);
    push_str(&mut line, " ms).");
    line
}

/// The tag a check outcome is shown with.
pub open spec fn status_tag(status: CheckStatus) -> Seq<char> {
    match status {
        CheckStatus::Pass => "PASS"@,
        CheckStatus::Warn => "WARN"@,
        CheckStatus::Fail => "FAIL"@,
    }
}

fn status_tag_exec(status: CheckStatus) -> (r: &'static str)
    ensures
        r@ == status_tag(status),
{
    match status {
        CheckStatus::Pass => "PASS",
        CheckStatus::Warn => "WARN",
        CheckStatus::Fail => "FAIL",
    }
}

/// The lines reporting a doctor run: one per check, then a summary.
pub fn human_doctor_lines(result: &DoctorResponse) -> (r: Vec<String>)
    ensures
        r@.len() == result.report.checks@.len() + 1,
        forall|k: int|
            0 <= k < result.report.checks@.len() ==> (#[trigger] r@[k])@ == "["@ + status_tag(
                result.report.checks@[k].status,
            ) + "] "@ + result.report.checks@[k].name@ + ": "@ + result.report.checks@[k].detail@,
        r@[r@.len() - 1]@ == if result.ok {
            "Doctor completed without failing checks."@
        } else {
            "Doctor found one or more failing checks."@
        },
{
    let checks = &result.report.checks;
    let mut lines: Vec<String> = Vec::new();
    let mut i: usize = 0;
    while i < checks.len()
        invariant
            i <= checks@.len(),
            checks@ == result.report.checks@,
            lines@.len() == i,
            forall|k: int|
                0 <= k < i ==> (#[trigger] lines@[k])@ == "["@ + status_tag(checks@[k].status)
                    + "] "@ + checks@[k].name@ + ": "@ + checks@[k].detail@,
        decreases checks@.len() - i,
    {
        let check = &checks[i];
        let mut line = string_of("[");
        push_str(&mut line, status_tag_exec(check.status));
        push_str(&mut line, "] ");
        push_str(&mut line, check.name.as_str());
        push_str(&mut line, ": ");
        push_str(&mut line, check.detail.as_str());
        lines.push(line);
        i = i + 1;
    }
    if result.ok {
        lines.push(string_of("Doctor completed without failing checks."));
    } else {
        lines.push(string_of("Doctor found one or more failing checks."));
    }
    lines
}

} // verus!
