//! Message content as the OpenAI protocols share it.

use vstd::prelude::*;

use crate::message::{image_parts, images_of, parts_view, ContentPart, ImagePart, PartView};
use crate::text::{cat3, cat4, opt_text, or_else, or_text};

verus! {

/// Whether a content is text alone.
pub open spec fn text_only(content: Seq<PartView>) -> bool {
    forall|i: int| 0 <= i < content.len() ==> (#[trigger] content[i]) is Text
}

/// Where a picture is found: its address, or a `data:` address made of its
/// encoded bytes, which are taken for a PNG unless they say otherwise.
pub open spec fn image_address(
    url: Option<Seq<char>>,
    base64: Option<Seq<char>>,
    media_type: Option<Seq<char>>,
) -> Seq<char> {
    match url {
        Some(url) => url,
        None => "data:"@ + or_else(media_type, "image/png"@) + ";base64,"@ + or_else(base64, ""@),
    }
}

/// The content of the message that carries the pictures of a tool result: a
/// note that says which call returned them, and the pictures.
pub open spec fn relayed_images(content: Seq<PartView>, call_id: Option<Seq<char>>) -> Seq<
    PartView,
> {
    seq![
        PartView::Text(
            "Images returned by tool call "@ + or_else(call_id, "(unknown)"@) + ":"@,
        ),
    ] + images_of(content)
}

/// A picture that has an address is found there; one that has none carries its
/// bytes and their type with it.
pub proof fn pictures_can_be_found(
    url: Option<Seq<char>>,
    base64: Option<Seq<char>>,
    media_type: Option<Seq<char>>,
)
    ensures
        url matches Some(address) ==> image_address(url, base64, media_type) == address,
        url is None && base64 is Some && media_type is Some ==> image_address(
            url,
            base64,
            media_type,
        ) == "data:"@ + media_type->0 + ";base64,"@ + base64->0,
        url is None && base64 is Some && media_type is None ==> image_address(
            url,
            base64,
            media_type,
        ) == "data:"@ + "image/png"@ + ";base64,"@ + base64->0,
{
}

/// The pictures of a tool result go on as they are, in order, behind a note
/// that names the call they came from.
pub proof fn pictures_are_passed_on(content: Seq<PartView>, call_id: Option<Seq<char>>)
    ensures
        relayed_images(content, call_id).len() == images_of(content).len() + 1,
        forall|i: int|
            0 <= i < images_of(content).len() ==> relayed_images(content, call_id)[i + 1]
                == #[trigger] images_of(content)[i],
        call_id matches Some(id) ==> relayed_images(content, call_id)[0] == PartView::Text(
            "Images returned by tool call "@ + id + ":"@,
        ),
{
}

/// Whether a content is text alone.
pub fn is_text_only(content: &Vec<ContentPart>) -> (r: bool)
    ensures
        r == text_only(parts_view(content@)),
{
    let ghost all = parts_view(content@);
    let mut i: usize = 0;
    while i < content.len()
        invariant
            i <= content@.len(),
            all == parts_view(content@),
            forall|k: int| 0 <= k < i ==> (#[trigger] all[k]) is Text,
        decreases content.len() - i,
    {
        if !content[i].is_text() {
            assert(!(all[i as int] is Text));
            return false;
        }
        i += 1;
    }
    true
}

/// Where a picture is found.
pub fn address_of(image: &ImagePart) -> (r: String)
    ensures
        r@ == image_address(
            opt_text(image.url),
            opt_text(image.base64),
            opt_text(image.media_type),
        ),
{
    match &image.url {
        Some(url) => url.clone(),
        None => cat4(
            "data:",
            or_text(&image.media_type, "image/png"),
            ";base64,",
            or_text(&image.base64, ""),
        ),
    }
}

/// The content of the message that carries the pictures of a tool result;
/// nothing when there are none.
pub fn relay_images(content: &Vec<ContentPart>, call_id: &Option<String>) -> (r: Option<
    Vec<ContentPart>,
>)
    ensures
        match r {
            Some(parts) => images_of(parts_view(content@)).len() > 0 && parts_view(parts@)
                == relayed_images(parts_view(content@), opt_text(*call_id)),
            None => images_of(parts_view(content@)).len() == 0,
        },
{
    let mut images = image_parts(content);
    if images.len() == 0 {
        return None;
    }
    let ghost pictures = images@;
    let note = cat3("Images returned by tool call ", or_text(call_id, "(unknown)"), ":");
    let mut parts = vec![ContentPart::text(note.as_str())];
    parts.append(&mut images);
    assert(parts_view(parts@) =~= seq![PartView::Text(note@)] + parts_view(pictures));
    Some(parts)
}

} // verus!
