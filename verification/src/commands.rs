//! The decisions of the command-line front end between its input and output steps.

use vstd::prelude::*;
use vstd::string::*;

use crate::diagnostics::{report_ok, DoctorReport};
use crate::error::{is_invalid_argument, is_transport, is_unsupported, SlipbridgeError};
use crate::escpos::{EscPosJob, RasterOptions};
use crate::input::{kind_name, InputKind};
use crate::output::{printer_ref, transport_name, DoctorResponse, InputRef, PrintOutput, PrintResponse};
use crate::profiles::{PaperProfile, PrinterProfile};
use crate::text::{push_str, string_of};
use crate::transport::ResolvedPrinter;

verus! {

/// The bytes of the printer test: initialize, three lines of text and a blank line,
/// feed three lines, full cut.
pub open spec fn test_payload() -> Seq<u8> {
    seq![0x1Bu8, 0x40u8] + "Slipbridge printer test\n".spec_bytes() + "----------------------\n".spec_bytes()
        + "If you can read this, transport works.\n\n".spec_bytes() + seq![0x1Bu8, 0x64u8, 0x03u8]
        + seq![0x1Du8, 0x56u8, 0x41u8, 0x00u8]
}

fn extend_bytes(v: &mut Vec<u8>, extra: &[u8])
    ensures
        final(v)@ == old(v)@ + extra@,
{
    let mut i: usize = 0;
    while i < extra.len()
        invariant
            i <= extra@.len(),
            v@ == old(v)@ + extra@.subrange(0, i as int),
        decreases extra@.len() - i,
    {
        v.push(extra[i]);
        i = i + 1;
        assert(v@ =~= old(v)@ + extra@.subrange(0, i as int));
    }
    assert(extra@.subrange(0, i as int) =~= extra@);
}

/// The small payload `printers test` sends.
pub fn build_test_payload() -> (payload: Vec<u8>)
    ensures
        payload@ == test_payload(),
{
    let mut payload: Vec<u8> = Vec::new();
    extend_bytes(&mut payload, &[0x1B, 0x40]);
    extend_bytes(&mut payload, "Slipbridge printer test\n".as_bytes());
    extend_bytes(&mut payload, "----------------------\n".as_bytes());
    extend_bytes(&mut payload, "If you can read this, transport works.\n\n".as_bytes());
    extend_bytes(&mut payload, &[0x1B, 0x64, 0x03]);
    extend_bytes(&mut payload, &[0x1D, 0x56, 0x41, 0x00]);
    assert(payload@ =~= test_payload());
    payload
}

/// A print needs at least one copy.
pub fn check_copies(copies: u16) -> (r: Result<(), SlipbridgeError>)
    ensures
        copies > 0 ==> r is Ok,
        copies == 0 ==> (r matches Err(e) && is_invalid_argument(e, "copies must be greater than 0"@)),
{
    if copies == 0 {
        return Err(SlipbridgeError::invalid_argument(string_of("copies must be greater than 0")));
    }
    Ok(())
}

/// Only images can be printed so far.
pub fn require_image_input(kind: InputKind) -> (r: Result<(), SlipbridgeError>)
    ensures
        kind == InputKind::Image ==> r is Ok,
        kind != InputKind::Image ==> (r matches Err(e) && is_unsupported(
            e,
            kind_name(kind) + " printing is not implemented yet; image printing is available now"@,
        )),
{
    if kind != InputKind::Image {
        let mut m = string_of(kind.as_str());
        push_str(&mut m, " printing is not implemented yet; image printing is available now");
        return Err(SlipbridgeError::unsupported(m));
    }
    Ok(())
}

/// The raster limits of a paper profile, cutting at the end or not.
pub fn print_job_options(profile: PrinterProfile, cut: bool) -> (r: RasterOptions)
    ensures
        r.max_payload_bytes == profile.max_raster_payload_bytes,
        r.max_rows_per_command == profile.max_rows_per_command,
        r.cut == cut,
{
    RasterOptions {
        max_payload_bytes: profile.max_raster_payload_bytes,
        max_rows_per_command: profile.max_rows_per_command,
        cut,
    }
}

/// The largest row count among the chunks, zero when there are none.
pub open spec fn max_rows(rows: Seq<u16>) -> u16
    decreases rows.len(),
{
    if rows.len() == 0 {
        0
    } else {
        let rest = max_rows(rows.drop_last());
        if rows.last() > rest {
            rows.last()
        } else {
            rest
        }
    }
}

/// The largest row count among the chunks of a job, zero when there are none.
pub fn max_rows_per_chunk(rows: &Vec<u16>) -> (r: u16)
    ensures
        r == max_rows(rows@),
{
    let mut best: u16 = 0;
    let mut i: usize = 0;
    while i < rows.len()
        invariant
            i <= rows@.len(),
            best == max_rows(rows@.subrange(0, i as int)),
        decreases rows@.len() - i,
    {
        assert(rows@.subrange(0, i + 1).drop_last() =~= rows@.subrange(0, i as int));
        if rows[i] > best {
            best = rows[i];
        }
        i = i + 1;
    }
    assert(rows@.subrange(0, i as int) =~= rows@);
    best
}

/// The paper name of a profile.
pub open spec fn paper_name(paper: PaperProfile) -> Seq<char> {
    match paper {
        PaperProfile::Mm58 => "58mm"@,
        PaperProfile::Mm80 => "80mm"@,
    }
}

/// The report of a print of `copies` copies of `job`, which sent `bytes_sent` bytes in
/// `duration_ms` milliseconds.
pub fn print_response(
    printer: ResolvedPrinter,
    input_path: String,
    kind: InputKind,
    profile: PrinterProfile,
    job: &EscPosJob,
    copies: u16,
    bytes_sent: usize,
    duration_ms: u128,
) -> (r: PrintResponse)
    requires
        job.chunk_count * copies <= usize::MAX,
    ensures
        r.ok,
        r.command@ == "print"@,
        r.printer.id@ == printer.id@,
        r.printer.transport@ == transport_name(printer.transport),
        r.input.path@ == input_path@,
        r.input.input_type@ == kind_name(kind),
        r.output.bytes_sent == bytes_sent,
        r.output.duration_ms == duration_ms,
        r.output.chunks == job.chunk_count * copies,
        r.output.max_rows_per_chunk == max_rows(job.rows_per_chunk@),
        r.output.copies == copies,
        r.paper@ == paper_name(profile.paper),
{
    let max_rows = max_rows_per_chunk(&job.rows_per_chunk);
    PrintResponse {
        ok: true,
        command: string_of("print"),
        printer: printer_ref(printer),
        input: InputRef { path: input_path, input_type: string_of(kind.as_str()) },
        output: PrintOutput {
            bytes_sent,
            duration_ms,
            chunks: job.chunk_count * copies as usize,
            max_rows_per_chunk: max_rows,
            copies,
        },
        paper: string_of(profile.paper.as_str()),
    }
}

/// The outcome of `doctor` for a report: the response to show, and an error when some
/// check failed.
pub fn execute_doctor(report: DoctorReport) -> (r: (DoctorResponse, Result<(), SlipbridgeError>))
    ensures
        r.0.ok == report_ok(report.checks@),
        r.0.command@ == "doctor"@,
        r.0.report.checks@ == report.checks@,
        r.0.ok ==> r.1 is Ok,
        !r.0.ok ==> (r.1 matches Err(e) && is_transport(e, "one or more doctor checks failed"@)),
{
    let ok = report.is_ok();
    let response = DoctorResponse { ok, command: string_of("doctor"), report };
    if ok {
        (response, Ok(()))
    } else {
        (
            response,
            Err(SlipbridgeError::transport(string_of("one or more doctor checks failed"))),
        )
    }
}

} // verus!
