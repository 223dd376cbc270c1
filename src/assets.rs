//! The two assets the application loads, how an asset event becomes an
//! update, and how a failed load leaves the previous asset in effect.
use vstd::prelude::*;
use vstd::utf8::{decode_utf8, valid_utf8};

use crate::watch::{WatchAction, WatchCommand};
use crate::Event;

verus! {

#[verifier::external_type_specification]
#[verifier::external_body]
pub struct ExDynamicImage(image::DynamicImage);

/// Whether `bytes` hold a PNG image that the image crate can decode.
pub uninterp spec fn decodes_as_png(bytes: Seq<u8>) -> bool;

/// Relies on `image::load_from_memory_with_format` with the PNG format: the
/// format is fixed by the caller, so no registered detection or decoding
/// hook is consulted and whether it succeeds depends on the bytes alone.
#[verifier::external_body]
fn decode_image(bytes: &[u8]) -> (r: Option<image::DynamicImage>)
    ensures
        r.is_some() == decodes_as_png(bytes@),
{
    image::load_from_memory_with_format(bytes, image::ImageFormat::Png).ok()
}

/// Relies on `std::str::from_utf8`: it accepts exactly the valid UTF-8 byte
/// sequences and reads them as the text they encode.
#[verifier::external_body]
fn utf8_text(bytes: &[u8]) -> (r: Option<&str>)
    ensures
        match r {
            Some(text) => valid_utf8(bytes@) && text@ == decode_utf8(bytes@),
            None => !valid_utf8(bytes@),
        },
{
    std::str::from_utf8(bytes).ok()
}

/// The file name of the image asset.
pub open spec fn image_asset() -> Seq<char> {
    "nuero.png"@
}

/// The file name of the shader-source asset.
pub open spec fn shader_asset() -> Seq<char> {
    "shader.wgsl"@
}

/// The file name of the image asset.
pub fn image_asset_name() -> (r: String)
    ensures
        r@ == image_asset(),
{
    "nuero.png".to_owned()
}

/// The file name of the shader-source asset.
pub fn shader_asset_name() -> (r: String)
    ensures
        r@ == shader_asset(),
{
    "shader.wgsl".to_owned()
}

/// The watch commands that a new application issues: the image, then the
/// shader source.
pub fn initial_watches() -> (r: Vec<WatchCommand>)
    ensures
        r@.len() == 2,
        r@[0].name@ == image_asset(),
        r@[0].action is Start,
        r@[1].name@ == shader_asset(),
        r@[1].action is Start,
{
    let mut r: Vec<WatchCommand> = Vec::new();
    r.push(WatchCommand { name: image_asset_name(), action: WatchAction::Start });
    r.push(WatchCommand { name: shader_asset_name(), action: WatchAction::Start });
    r
}

/// What an asset event asks the application to load.
pub enum AssetUpdate {
    /// A decoded image for the image asset.
    Image(image::DynamicImage),
    /// New source text for the shader asset.
    Shader(String),
    /// Nothing: the name is not an asset, or its content is malformed.
    Unchanged,
}

/// Reads an asset event: the image asset's bytes are decoded as a PNG image,
/// the shader asset's bytes as UTF-8 text; anything else, or content that
/// does not decode, changes nothing.
pub fn asset_update(event: Event) -> (r: AssetUpdate)
    ensures
        r is Image <==> event@.0 == image_asset() && decodes_as_png(event@.1),
        r is Shader <==> event@.0 == shader_asset() && valid_utf8(event@.1),
        r is Shader ==> r->Shader_0@ == decode_utf8(event@.1),
{
    proof {
        reveal_strlit("nuero.png");
        reveal_strlit("shader.wgsl");
        assert(image_asset() != shader_asset()) by {
            assert(image_asset()[0] != shader_asset()[0]);
        }
    }
    let Event::FileContents(name, bytes) = event;
    if name == image_asset_name() {
        match decode_image(bytes.as_slice()) {
            Some(img) => AssetUpdate::Image(img),
            None => AssetUpdate::Unchanged,
        }
    } else if name == shader_asset_name() {
        match utf8_text(bytes.as_slice()) {
            Some(text) => AssetUpdate::Shader(text.to_owned()),
            None => AssetUpdate::Unchanged,
        }
    } else {
        AssetUpdate::Unchanged
    }
}

/// The asset in effect after a load: the new one where loading succeeded,
/// else the one in effect before.
pub open spec fn installed<T>(current: Option<T>, loaded: Option<T>) -> Option<T> {
    if loaded is Some {
        loaded
    } else {
        current
    }
}

/// What a redraw draws with: the pipeline and the bind group, once both
/// are loaded.
pub open spec fn drawn_with<P, B>(pipeline: Option<P>, group: Option<B>) -> Option<(P, B)> {
    match (pipeline, group) {
        (Some(p), Some(g)) => Some((p, g)),
        _ => None,
    }
}

/// Puts a freshly loaded asset in effect. Where loading failed the asset in
/// effect stays as it was. Returns whether it changed, that is whether the
/// surface needs a redraw.
pub fn install<T>(current: &mut Option<T>, loaded: Option<T>) -> (changed: bool)
    ensures
        changed == loaded is Some,
        *final(current) == installed(*old(current), loaded),
{
    match loaded {
        Some(v) => {
            *current = Some(v);
            true
        },
        None => false,
    }
}

/// The pipeline and bind group that a redraw uses, or `None` while either
/// is still missing and nothing can be drawn.
pub fn frame_parts<'a, P, B>(pipeline: &'a Option<P>, group: &'a Option<B>) -> (r: Option<(&'a P, &'a B)>)
    ensures
        r is Some <==> drawn_with(*pipeline, *group) is Some,
        r is Some ==> (*r.unwrap().0, *r.unwrap().1) == drawn_with(*pipeline, *group).unwrap(),
{
    match (pipeline, group) {
        (Some(p), Some(g)) => Some((p, g)),
        _ => None,
    }
}

/// A reload that fails leaves the previous pipeline in effect, and every
/// later redraw still draws with it.
pub proof fn lemma_failed_reload_keeps_pipeline<P, B>(previous: P, group: B, failed: Option<P>)
    requires
        failed is None,
    ensures
        installed(Some(previous), failed) == Some(previous),
        drawn_with(installed(Some(previous), failed), Some(group)) == Some((previous, group)),
{
}

} // verus!
