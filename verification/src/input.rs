//! What kind of input a file holds.

use vstd::prelude::*;
use vstd::string::*;

use crate::cli::InputTypeArg;
use crate::error::{is_invalid_argument, SlipbridgeError};
use crate::text::{ascii_lower, chars_of, eq_chars, lower_char_exec, push_str, string_of};

verus! {

/// The kinds of input the printer front end knows.
#[derive(Copy, Clone, Debug, PartialEq, Eq, Structural)]
pub enum InputKind {
    Image,
    Markdown,
    Text,
}

/// The name of an input kind.
pub open spec fn kind_name(kind: InputKind) -> Seq<char> {
    match kind {
        InputKind::Image => "image"@,
        InputKind::Markdown => "markdown"@,
        InputKind::Text => "text"@,
    }
}

impl InputKind {
    /// The lower-case name of the kind.
    pub fn as_str(self) -> (r: &'static str)
        ensures
            r@ == kind_name(self),
    {
        match self {
            InputKind::Image => "image",
            InputKind::Markdown => "markdown",
            InputKind::Text => "text",
        }
    }
}

/// The kind a forced `--type` stands for.
pub open spec fn forced_kind(forced: InputTypeArg) -> InputKind {
    match forced {
        InputTypeArg::Image => InputKind::Image,
        InputTypeArg::Markdown => InputKind::Markdown,
        InputTypeArg::Text => InputKind::Text,
    }
}

/// The kind a file extension announces, ASCII case ignored: `png`, `jpg`, `jpeg`, `webp`
/// and `gif` are images, `md` is Markdown, `txt` is text.
pub open spec fn extension_kind(ext: Seq<char>) -> Option<InputKind> {
    let e = ascii_lower(ext);
    if e == "png"@ || e == "jpg"@ || e == "jpeg"@ || e == "webp"@ || e == "gif"@ {
        Some(InputKind::Image)
    } else if e == "md"@ {
        Some(InputKind::Markdown)
    } else if e == "txt"@ {
        Some(InputKind::Text)
    } else {
        None
    }
}

/// `ext` is, ASCII case ignored, one of the image extensions `png`, `jpg`, `jpeg`, `webp`, `gif`.
pub open spec fn is_image_extension(ext: Seq<char>) -> bool {
    let e = ascii_lower(ext);
    ||| e =~= seq!['p', 'n', 'g']
    ||| e =~= seq!['j', 'p', 'g']
    ||| e =~= seq!['j', 'p', 'e', 'g']
    ||| e =~= seq!['w', 'e', 'b', 'p']
    ||| e =~= seq!['g', 'i', 'f']
}

/// Every image extension, in any ASCII case, announces an image.
pub proof fn law_image_extensions_are_images(ext: Seq<char>)
    ensures
        is_image_extension(ext) ==> extension_kind(ext) == Some(InputKind::Image),
{
    reveal_strlit("png");
    reveal_strlit("jpg");
    reveal_strlit("jpeg");
    reveal_strlit("webp");
    reveal_strlit("gif");
    assert("png"@ =~= seq!['p', 'n', 'g']);
    assert("jpg"@ =~= seq!['j', 'p', 'g']);
    assert("jpeg"@ =~= seq!['j', 'p', 'e', 'g']);
    assert("webp"@ =~= seq!['w', 'e', 'b', 'p']);
    assert("gif"@ =~= seq!['g', 'i', 'f']);
}

/// The extension `std::path::Path::extension` finds in `path`.
pub uninterp spec fn path_extension_of(path: Seq<char>) -> Option<Seq<char>>;

/// Calls `std::path::Path::extension`: the part of the file name after its last `.`, if
/// the name has a dot that is not its first character. Claimed: the result depends on
/// the path alone.
#[verifier::external_body]
fn path_extension(path: &str) -> (r: Option<String>)
    ensures
        match path_extension_of(path@) {
            Some(e) => r matches Some(s) && s@ == e,
            None => r is None,
        },
{
    std::path::Path::new(path).extension().and_then(|e| e.to_str()).map(|e| e.to_owned())
}

fn lower_string(s: &str) -> (r: Vec<char>)
    ensures
        r@ == ascii_lower(s@),
{
    let v = chars_of(s);
    let mut r: Vec<char> = Vec::new();
    let mut i: usize = 0;
    while i < v.len()
        invariant
            v@ == s@,
            i <= v@.len(),
            r@ == ascii_lower(v@.subrange(0, i as int)),
        decreases v@.len() - i,
    {
        let l = lower_char_exec(v[i]);
        r.push(l);
        i = i + 1;
        assert forall|k: int| 0 <= k < i implies r@[k] == ascii_lower(v@.subrange(0, i as int))[k] by {
            if k < i - 1 {
                assert(r@[k] == ascii_lower(v@.subrange(0, i - 1))[k]);
            }
        }
        assert(r@ =~= ascii_lower(v@.subrange(0, i as int)));
    }
    assert(v@.subrange(0, i as int) =~= v@);
    r
}

/// The input kind a file extension announces, if it announces one.
pub fn input_kind_for_extension(ext: Option<&str>) -> (r: Option<InputKind>)
    ensures
        r == (match ext {
            Some(e) => extension_kind(e@),
            None => None,
        }),
        ext is Some ==> (is_image_extension(ext.unwrap()@) ==> r == Some(InputKind::Image)),
{
    proof {
        if ext is Some {
            law_image_extensions_are_images(ext.unwrap()@);
        }
    }
    let e = match ext {
        Some(e) => lower_string(e),
        None => {
            return None;
        },
    };
    let png = chars_of("png");
    let jpg = chars_of("jpg");
    let jpeg = chars_of("jpeg");
    let webp = chars_of("webp");
    let gif = chars_of("gif");
    let md = chars_of("md");
    let txt = chars_of("txt");
    if eq_chars(&e, &png) || eq_chars(&e, &jpg) || eq_chars(&e, &jpeg) || eq_chars(&e, &webp)
        || eq_chars(&e, &gif) {
        Some(InputKind::Image)
    } else if eq_chars(&e, &md) {
        Some(InputKind::Markdown)
    } else if eq_chars(&e, &txt) {
        Some(InputKind::Text)
    } else {
        None
    }
}

/// The kind of the input at `path`: the forced kind if there is one, else the kind its
/// extension announces; a path whose extension announces none is an error.
pub fn resolve_input_kind(path: &str, forced: Option<InputTypeArg>) -> (r: Result<
    InputKind,
    SlipbridgeError,
>)
    ensures
        match forced {
            Some(f) => r == Ok::<InputKind, SlipbridgeError>(forced_kind(f)),
            None => match (match path_extension_of(path@) {
                Some(e) => extension_kind(e),
                None => None,
            }) {
                Some(k) => r == Ok::<InputKind, SlipbridgeError>(k),
                None => r matches Err(e) && is_invalid_argument(
                    e,
                    "unable to detect input type for '"@ + path@ + "'; use --type"@,
                ),
            },
        },
        forced is None ==> (path_extension_of(path@) matches Some(e) && is_image_extension(e)
            ==> r == Ok::<InputKind, SlipbridgeError>(InputKind::Image)),
{
    proof {
        if let Some(e) = path_extension_of(path@) {
            law_image_extensions_are_images(e);
        }
    }
    if let Some(forced) = forced {
        return Ok(
            match forced {
                InputTypeArg::Image => InputKind::Image,
                InputTypeArg::Markdown => InputKind::Markdown,
                InputTypeArg::Text => InputKind::Text,
            },
        );
    }
    let ext = path_extension(path);
    let kind = match &ext {
        Some(e) => input_kind_for_extension(Some(e.as_str())),
        None => None,
    };
    match kind {
        Some(k) => Ok(k),
        None => {
            let mut m = string_of("unable to detect input type for '");
            push_str(&mut m, path);
            push_str(&mut m, "'; use --type");
            Err(SlipbridgeError::invalid_argument(m))
        },
    }
}

} // verus!
