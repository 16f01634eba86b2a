//! An image block's room: whether it is drawn at all, and the shape its placeholder holds.

use vstd::prelude::*;
use crate::text::{cat3, dec, decimal};

verus! {

/// Whether a declared size is a one-pixel image: a tracking pixel or a layout spacer, which is
/// drawn as nothing at all.
pub open spec fn is_spacer(width: Option<u32>, height: Option<u32>) -> bool {
    match (width, height) {
        (Some(w), Some(h)) => w <= 1 || h <= 1,
        (Some(w), None) => w <= 1,
        (None, Some(h)) => h <= 1,
        (None, None) => false,
    }
}

/// Whether a declared size is a one-pixel image, drawn as nothing at all: naming its host in
/// the page would be for a picture nobody can see.
pub fn spacer(width: Option<u32>, height: Option<u32>) -> (r: bool)
    ensures
        r == is_spacer(width, height),
{
    match (width, height) {
        (Some(w), Some(h)) => w <= 1 || h <= 1,
        (Some(w), None) => w <= 1,
        (None, Some(h)) => h <= 1,
        (None, None) => false,
    }
}

/// Whether `width` by `height` is drawn to shape: both sides known and not zero, and neither
/// past eight times the other, so a hostile `height` cannot make a placeholder a page tall.
pub open spec fn shaped(width: Option<u32>, height: Option<u32>) -> bool {
    match (width, height) {
        (Some(w), Some(h)) => w > 0 && h > 0 && w <= 8 * h && h <= 8 * w,
        _ => false,
    }
}

/// The style a blocked image's placeholder holds its room with.
pub open spec fn placeholder_ratio_spec(width: Option<u32>, height: Option<u32>) -> Seq<char> {
    if shaped(width, height) {
        "aspect-ratio: "@ + dec(width.unwrap() as nat) + " / "@ + dec(height.unwrap() as nat)
    } else {
        seq![]
    }
}

/// The declared shape of a blocked image, so the placeholder holds the room the picture will
/// take: numbers only, the sender's own style never reaches it; a ratio past 8:1 either way is
/// not drawn to shape.
pub fn placeholder_ratio(width: Option<u32>, height: Option<u32>) -> (r: String)
    ensures
        r@ == placeholder_ratio_spec(width, height),
{
    match (width, height) {
        (Some(w), Some(h)) => {
            let wide = w as u64;
            let high = h as u64;
            if w > 0 && h > 0 && wide <= high * 8 && high <= wide * 8 {
                let a = decimal(wide);
                let b = decimal(high);
                let mut out = cat3("aspect-ratio: ", a.as_str(), " / ");
                out.append(b.as_str());
                out
            } else {
                String::new()
            }
        },
        _ => String::new(),
    }
}

} // verus!
