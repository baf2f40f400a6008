use vstd::prelude::*;
use vstd::string::*;

verus! {

/// Errors reported by the library and its front end.
#[derive(Debug)]
pub enum SlipbridgeError {
    Io(std::io::Error),
    Image(image::ImageError),
    Usb(rusb::Error),
    Json(serde_json::Error),
    InvalidArgument(String),
    NotFound(String),
    Unsupported(String),
    Transport(String),
}

/// `std::io::Error`, carried through unchanged.
#[verifier::external_type_specification]
#[verifier::external_body]
pub struct ExIoError(std::io::Error);

/// `image::ImageError`, carried through unchanged.
#[verifier::external_type_specification]
#[verifier::external_body]
pub struct ExImageError(image::ImageError);

/// `rusb::Error`, carried through unchanged.
#[verifier::external_type_specification]
#[verifier::external_body]
pub struct ExUsbError(rusb::Error);

/// `serde_json::Error`, carried through unchanged.
#[verifier::external_type_specification]
#[verifier::external_body]
pub struct ExJsonError(serde_json::Error);

/// `e` is an invalid-argument error whose message is `m`.
pub open spec fn is_invalid_argument(e: SlipbridgeError, m: Seq<char>) -> bool {
    e matches SlipbridgeError::InvalidArgument(s) && s@ == m
}

/// `e` is a not-found error whose message is `m`.
pub open spec fn is_not_found(e: SlipbridgeError, m: Seq<char>) -> bool {
    e matches SlipbridgeError::NotFound(s) && s@ == m
}

/// `e` is an unsupported-feature error whose message is `m`.
pub open spec fn is_unsupported(e: SlipbridgeError, m: Seq<char>) -> bool {
    e matches SlipbridgeError::Unsupported(s) && s@ == m
}

/// `e` is a transport error whose message is `m`.
pub open spec fn is_transport(e: SlipbridgeError, m: Seq<char>) -> bool {
    e matches SlipbridgeError::Transport(s) && s@ == m
}

impl SlipbridgeError {
    pub fn invalid_argument(message: String) -> (e: Self)
        ensures
            is_invalid_argument(e, message@),
    {
        SlipbridgeError::InvalidArgument(message)
    }

    pub fn not_found(message: String) -> (e: Self)
        ensures
            is_not_found(e, message@),
    {
        SlipbridgeError::NotFound(message)
    }

    pub fn unsupported(message: String) -> (e: Self)
        ensures
            is_unsupported(e, message@),
    {
        SlipbridgeError::Unsupported(message)
    }

    pub fn transport(message: String) -> (e: Self)
        ensures
            is_transport(e, message@),
    {
        SlipbridgeError::Transport(message)
    }
}

/// `r` is the text `e` is shown with: a prefix naming the kind of error, then its
/// message, which for an error of another crate is that error's own `Display` text.
pub open spec fn shows_as(e: SlipbridgeError, r: Seq<char>) -> bool {
    match e {
        SlipbridgeError::Io(x) => exists|s: String|
            #[trigger] to_string_from_display_ensures::<std::io::Error>(&x, s) && r == "I/O error: "@
                + s@,
        SlipbridgeError::Image(x) => exists|s: String|
            #[trigger] to_string_from_display_ensures::<image::ImageError>(&x, s) && r
                == "Image error: "@ + s@,
        SlipbridgeError::Usb(x) => exists|s: String|
            #[trigger] to_string_from_display_ensures::<rusb::Error>(&x, s) && r == "USB error: "@
                + s@,
        SlipbridgeError::Json(x) => exists|s: String|
            #[trigger] to_string_from_display_ensures::<serde_json::Error>(&x, s) && r
                == "JSON error: "@ + s@,
        SlipbridgeError::InvalidArgument(m) => r == "Invalid argument: "@ + m@,
        SlipbridgeError::NotFound(m) => r == "Not found: "@ + m@,
        SlipbridgeError::Unsupported(m) => r == "Unsupported: "@ + m@,
        SlipbridgeError::Transport(m) => r == "Transport error: "@ + m@,
    }
}

fn prefixed(prefix: &str, detail: &str) -> (r: String)
    ensures
        r@ == prefix@ + detail@,
{
    let mut r = String::from_str(prefix);
    r.append(detail);
    r
}

impl SlipbridgeError {
    /// The text the error is shown with: a prefix naming the kind of error, then its message.
    pub fn to_string(&self) -> (r: String)
        ensures
            shows_as(*self, r@),
    {
        match self {
            SlipbridgeError::Io(e) => {
                let detail = e.to_string();
                prefixed("I/O error: ", detail.as_str())
            },
            SlipbridgeError::Image(e) => {
                let detail = e.to_string();
                prefixed("Image error: ", detail.as_str())
            },
            SlipbridgeError::Usb(e) => {
                let detail = e.to_string();
                prefixed("USB error: ", detail.as_str())
            },
            SlipbridgeError::Json(e) => {
                let detail = e.to_string();
                prefixed("JSON error: ", detail.as_str())
            },
            SlipbridgeError::InvalidArgument(m) => prefixed("Invalid argument: ", m.as_str()),
            SlipbridgeError::NotFound(m) => prefixed("Not found: ", m.as_str()),
            SlipbridgeError::Unsupported(m) => prefixed("Unsupported: ", m.as_str()),
            SlipbridgeError::Transport(m) => prefixed("Transport error: ", m.as_str()),
        }
    }
}

} // verus!
