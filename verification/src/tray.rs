//! The tray icon's pixels: the packaged PNG when it decodes, else the one in
//! the source tree, else a small solid-blue square so the app keeps running.
use vstd::prelude::*;

verus! {

/// Width and height of the fallback icon.
pub const FALLBACK_SIZE: u32 = 16;

/// An icon as RGBA bytes, row by row, four bytes per pixel.
pub struct IconRgba {
    pub rgba: Vec<u8>,
    pub width: u32,
    pub height: u32,
}

/// What the image crate's built-in decoders make of the bytes: the format
/// read from their magic numbers (`image::guess_format`), decoded with
/// `load_from_memory_with_format` and turned into RGBA pixels (`to_rgba8`),
/// with width and height; `None` when no built-in decoder takes them.
/// Neither call consults the crate's process-wide hook registries, so the
/// result depends on the bytes alone.
pub uninterp spec fn decoded_rgba(bytes: Seq<u8>) -> Option<(Seq<u8>, u32, u32)>;

/// An icon as plain values.
pub open spec fn icon_view(i: IconRgba) -> (Seq<u8>, u32, u32) {
    (i.rgba@, i.width, i.height)
}

/// A decoded icon as plain values.
pub open spec fn opt_icon_view(o: Option<IconRgba>) -> Option<(Seq<u8>, u32, u32)> {
    match o {
        Some(i) => Some(icon_view(i)),
        None => None,
    }
}

/// `image::guess_format` (the built-in format named by the bytes' magic
/// numbers), then `image::load_from_memory_with_format` with that format,
/// then `to_rgba8`, `width`, `height` and `into_raw`: the result is
/// `decoded_rgba` of the bytes.
#[verifier::external_body]
fn decode_rgba(bytes: &[u8]) -> (r: Option<IconRgba>)
    ensures
        opt_icon_view(r) == decoded_rgba(bytes@),
{
    let format = match image::guess_format(bytes) {
        Ok(f) => f,
        Err(_) => return None,
    };
    match image::load_from_memory_with_format(bytes, format) {
        Ok(img) => {
            let rgba = img.to_rgba8();
            let (width, height) = (rgba.width(), rgba.height());
            Some(IconRgba { rgba: rgba.into_raw(), width, height })
        },
        Err(_) => None,
    }
}

/// The fallback pixels: `FALLBACK_SIZE` x `FALLBACK_SIZE` of opaque blue
/// (0x1A, 0x63, 0xEB, 0xFF).
pub open spec fn fallback_pixels() -> Seq<u8> {
    Seq::new(
        (FALLBACK_SIZE * FALLBACK_SIZE * 4) as nat,
        |i: int|
            if i % 4 == 0 {
                0x1Au8
            } else if i % 4 == 1 {
                0x63u8
            } else if i % 4 == 2 {
                0xEBu8
            } else {
                0xFFu8
            },
    )
}

/// The small solid-blue square used when no icon file decodes.
pub fn fallback_icon() -> (i: IconRgba)
    ensures
        icon_view(i) == (fallback_pixels(), FALLBACK_SIZE, FALLBACK_SIZE),
{
    let mut buf: Vec<u8> = Vec::new();
    let mut k: u32 = 0;
    while k < FALLBACK_SIZE * FALLBACK_SIZE
        invariant
            k <= FALLBACK_SIZE * FALLBACK_SIZE,
            buf@ =~= fallback_pixels().take(4 * k as int),
        decreases FALLBACK_SIZE * FALLBACK_SIZE - k,
    {
        buf.push(0x1A);
        buf.push(0x63);
        buf.push(0xEB);
        buf.push(0xFF);
        k = k + 1;
    }
    IconRgba { rgba: buf, width: FALLBACK_SIZE, height: FALLBACK_SIZE }
}

/// The icon chosen from what each candidate file decoded to, in order of
/// preference, with the fallback last.
pub open spec fn chosen_icon(
    packaged: Option<(Seq<u8>, u32, u32)>,
    source_tree: Option<(Seq<u8>, u32, u32)>,
) -> (Seq<u8>, u32, u32) {
    match packaged {
        Some(i) => i,
        None => match source_tree {
            Some(i) => i,
            None => (fallback_pixels(), FALLBACK_SIZE, FALLBACK_SIZE),
        },
    }
}

/// Chooses between the decoded candidates as `chosen_icon` says.
pub fn pick_icon(packaged: Option<IconRgba>, source_tree: Option<IconRgba>) -> (i: IconRgba)
    ensures
        icon_view(i) == chosen_icon(opt_icon_view(packaged), opt_icon_view(source_tree)),
{
    match packaged {
        Some(i) => i,
        None => match source_tree {
            Some(i) => i,
            None => fallback_icon(),
        },
    }
}

/// The tray icon from the packaged icon file's bytes and the source tree's
/// (each `None` when it could not be read): the first that decodes, else the
/// fallback. The second is decoded only when the first does not.
pub fn tray_icon_rgba(packaged: Option<Vec<u8>>, source_tree: Option<Vec<u8>>) -> (i: IconRgba)
    ensures
        icon_view(i) == chosen_icon(
            match packaged {
                Some(b) => decoded_rgba(b@),
                None => None,
            },
            match source_tree {
                Some(b) => decoded_rgba(b@),
                None => None,
            },
        ),
{
    let first = match &packaged {
        Some(b) => decode_rgba(b.as_slice()),
        None => None,
    };
    if first.is_some() {
        return pick_icon(first, None);
    }
    let second = match &source_tree {
        Some(b) => decode_rgba(b.as_slice()),
        None => None,
    };
    pick_icon(first, second)
}

} // verus!
