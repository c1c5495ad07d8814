//! What a run of text looks like: the style that the inline tags of a page
//! give to the text between them.

pub mod text;

use vstd::prelude::*;

verus! {

/// Upright or slanted.
#[derive(Clone, Copy, Debug, PartialEq, Eq, Structural)]
pub enum FontStyle {
    Normal,
    Italic,
}

/// How heavy the strokes are.
#[derive(Clone, Copy, Debug, PartialEq, Eq, Structural)]
pub enum FontWeight {
    Normal,
    Bold,
}

/// The size of the text against the size that the font was set up with:
/// the same, a fifth larger, or smaller by the same ratio.
#[derive(Clone, Copy, Debug, PartialEq, Eq, Structural)]
pub enum FontSize {
    Regular,
    Big,
    Small,
}

/// The style of a run of text.
#[derive(Clone, Copy, Debug, PartialEq, Eq, Structural)]
pub struct LayoutFont {
    pub style: FontStyle,
    pub weight: FontWeight,
    pub size: FontSize,
}

/// The style of text that no tag has touched.
pub open spec fn plain_font() -> LayoutFont {
    LayoutFont { style: FontStyle::Normal, weight: FontWeight::Normal, size: FontSize::Regular }
}

impl Default for LayoutFont {
    fn default() -> (r: Self)
        ensures
            r == plain_font(),
    {
        LayoutFont {
            style: FontStyle::Normal,
            weight: FontWeight::Normal,
            size: FontSize::Regular,
        }
    }
}

} // verus!
