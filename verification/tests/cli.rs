use slipbridge::cli::{PaperArg, PrintArgs};

fn base_print_args() -> PrintArgs {
    PrintArgs {
        input: "sample.txt".to_owned(),
        printer: "tcp://printer.local:9100".to_owned(),
        paper: PaperArg::Mm80,
        input_type: None,
        cut: false,
        no_cut: false,
        copies: 1,
        json: false,
    }
}

#[test]
fn cut_is_enabled_by_default() {
    let args = base_print_args();
    assert!(args.cut_enabled());
}

#[test]
fn no_cut_overrides_default_cut_behavior() {
    let mut args = base_print_args();
    args.no_cut = true;
    assert!(!args.cut_enabled());
}

#[test]
fn explicit_cut_is_enabled() {
    let mut args = base_print_args();
    args.cut = true;
    assert!(args.cut_enabled());
}
