use slipbridge::cli::InputTypeArg;
use slipbridge::input::{input_kind_for_extension, resolve_input_kind, InputKind};

#[test]
fn extensions_pick_the_kind() {
    assert_eq!(resolve_input_kind("photo.PNG", None).unwrap(), InputKind::Image);
    assert_eq!(resolve_input_kind("/tmp/a.b/notes.md", None).unwrap(), InputKind::Markdown);
    assert_eq!(resolve_input_kind("readme.txt", None).unwrap(), InputKind::Text);
    assert_eq!(resolve_input_kind("scan.JpEg", None).unwrap(), InputKind::Image);
    assert_eq!(input_kind_for_extension(Some("WEBP")), Some(InputKind::Image));
    assert_eq!(input_kind_for_extension(None), None);
}

#[test]
fn forced_type_wins() {
    assert_eq!(resolve_input_kind("photo.png", Some(InputTypeArg::Text)).unwrap(), InputKind::Text);
    assert_eq!(InputKind::Markdown.as_str(), "markdown");
}

#[test]
fn unknown_extension_is_an_error() {
    let err = resolve_input_kind(".png", None).unwrap_err();
    assert_eq!(err.to_string(), "Invalid argument: unable to detect input type for '.png'; use --type");
    assert!(resolve_input_kind("archive.tar.gz", None).is_err());
    assert!(resolve_input_kind("Makefile", None).is_err());
}
