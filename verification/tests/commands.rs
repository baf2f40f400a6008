use slipbridge::commands::{
    build_test_payload, check_copies, execute_doctor, max_rows_per_chunk, print_job_options, print_response,
    require_image_input,
};
use slipbridge::diagnostics::{image_pipeline_check, run_doctor, CheckStatus, DoctorCheck, DoctorReport, UsbProbe};
use slipbridge::error::SlipbridgeError;
use slipbridge::escpos::EscPosJob;
use slipbridge::input::InputKind;
use slipbridge::output::{human_doctor_lines, human_print_lines, human_printers_lines, human_test_line, test_response};
use slipbridge::profiles::{PaperProfile, PrinterProfile};
use slipbridge::transport::{resolve_printer, DiscoveredPrinter, SendStats};

#[test]
fn test_payload_bytes() {
    let mut expected = vec![0x1B, 0x40];
    expected.extend_from_slice(b"Slipbridge printer test\n----------------------\nIf you can read this, transport works.\n\n");
    expected.extend_from_slice(&[0x1B, 0x64, 0x03, 0x1D, 0x56, 0x41, 0x00]);
    assert_eq!(build_test_payload(), expected);
}

#[test]
fn zero_copies_are_rejected() {
    assert!(check_copies(1).is_ok());
    assert_eq!(check_copies(0).unwrap_err().to_string(), "Invalid argument: copies must be greater than 0");
}

#[test]
fn only_images_print() {
    assert!(require_image_input(InputKind::Image).is_ok());
    assert_eq!(
        require_image_input(InputKind::Markdown).unwrap_err().to_string(),
        "Unsupported: markdown printing is not implemented yet; image printing is available now"
    );
}

#[test]
fn profiles_and_options() {
    let p = PrinterProfile::for_paper(PaperProfile::Mm58);
    assert_eq!(p.printable_width_px, 384);
    assert_eq!(p.max_raster_payload_bytes, 3072);
    let q = PrinterProfile::for_paper(PaperProfile::from(slipbridge::cli::PaperArg::Mm80));
    assert_eq!(q.printable_width_px, 576);
    assert_eq!(q.paper.as_str(), "80mm");
    let o = print_job_options(q, false);
    assert_eq!(o.max_payload_bytes, 4096);
    assert_eq!(o.max_rows_per_command, 255);
    assert!(!o.cut);
}

#[test]
fn print_report_and_lines() {
    let printer = resolve_printer("tcp://p.local:9100", &[]).unwrap();
    let job = EscPosJob { bytes: vec![], chunk_count: 3, rows_per_chunk: vec![10, 12, 4] };
    assert_eq!(max_rows_per_chunk(&job.rows_per_chunk), 12);
    assert_eq!(max_rows_per_chunk(&vec![]), 0);
    let response = print_response(
        printer,
        "receipt.png".to_owned(),
        InputKind::Image,
        PrinterProfile::for_paper(PaperProfile::Mm80),
        &job,
        2,
        500,
        42,
    );
    assert_eq!(response.output.chunks, 6);
    assert_eq!(response.paper, "80mm");
    assert_eq!(response.input.input_type, "image");
    assert_eq!(response.printer.transport, "tcp");
    let lines = human_print_lines(&response);
    assert_eq!(lines[0], "Printed 2 copy/copies to tcp://p.local:9100.");
    assert_eq!(lines[1], "Bytes sent: 500 (42 ms, 6 raster chunks, max 12 rows/chunk)");
}

#[test]
fn test_report_line() {
    let printer = resolve_printer("usb://04b8:0e15", &[]).unwrap();
    let response = test_response(printer, SendStats { bytes_sent: 99, duration_ms: 7 });
    assert_eq!(response.command, "printers test");
    assert_eq!(human_test_line(&response), "Printer test sent to usb://04b8:0e15 (99 bytes, 7 ms).");
}

#[test]
fn printer_lines() {
    assert_eq!(human_printers_lines(&[]), vec!["No printers discovered.".to_owned()]);
    let p = DiscoveredPrinter {
        id: "tcp://k:9100".to_owned(),
        display_name: "Kitchen".to_owned(),
        transport: "tcp".to_owned(),
        address: "k:9100".to_owned(),
        source: None,
    };
    assert_eq!(human_printers_lines(&[p]), vec!["tcp://k:9100\tKitchen\ttcp\tk:9100".to_owned()]);
}

#[test]
fn doctor_runs_all_checks() {
    let report = run_doctor(UsbProbe::Enumerated(0)).unwrap();
    let names: Vec<_> = report.checks.iter().map(|c| c.name.as_str()).collect();
    assert_eq!(names, vec!["usb_access", "image_pipeline", "transport_tcp"]);
    assert_eq!(report.checks[0].status, CheckStatus::Warn);
    assert_eq!(report.checks[0].detail, "enumerated 0 USB devices");
    assert!(report.is_ok());
    let (response, outcome) = execute_doctor(report);
    assert!(response.ok);
    assert!(outcome.is_ok());
    let lines = human_doctor_lines(&response);
    assert_eq!(lines[0], "[WARN] usb_access: enumerated 0 USB devices");
    assert_eq!(lines[3], "Doctor completed without failing checks.");
}

#[test]
fn image_pipeline_renders_sample() {
    let check = image_pipeline_check();
    assert_eq!(check.status, CheckStatus::Pass);
    assert_eq!(check.detail, "rendered 16x16 image into 32 bytes");
}

#[test]
fn failing_doctor_check_fails_the_run() {
    let report = run_doctor(UsbProbe::ContextFailed("no libusb".to_owned())).unwrap();
    assert_eq!(report.checks[0].detail, "failed to initialize USB context: no libusb");
    assert!(!report.is_ok());
    let (response, outcome) = execute_doctor(report);
    assert!(!response.ok);
    match outcome.unwrap_err() {
        SlipbridgeError::Transport(m) => assert_eq!(m, "one or more doctor checks failed"),
        other => panic!("unexpected error {other:?}"),
    }
    let lines = human_doctor_lines(&response);
    assert_eq!(lines.last().unwrap(), "Doctor found one or more failing checks.");
    let only_fail = DoctorReport {
        checks: vec![DoctorCheck { name: "x".to_owned(), status: CheckStatus::Fail, detail: String::new() }],
    };
    assert!(!only_fail.is_ok());
}
