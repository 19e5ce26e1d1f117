//! How the border of a rectangle is drawn.
use vstd::prelude::*;

verus! {

/// The style of a rectangle's border: thin or thick lines, which sides it
/// has, and which corners are rounded.
#[derive(Clone, Copy, Debug, PartialEq, Eq, Structural)]
pub struct Border {
    pub use_thick_border: bool,
    pub has_top: bool,
    pub has_bottom: bool,
    pub has_left: bool,
    pub has_right: bool,
    pub is_top_left_rounded: bool,
    pub is_top_right_rounded: bool,
    pub is_bottom_left_rounded: bool,
    pub is_bottom_right_rounded: bool,
}

impl Border {
    /// The border with all four sides, thick or thin, all corners rounded
    /// or none.
    pub open spec fn all_sides(use_thick_border: bool, rounded: bool) -> Border {
        Border {
            use_thick_border,
            has_top: true,
            has_bottom: true,
            has_left: true,
            has_right: true,
            is_top_left_rounded: rounded,
            is_top_right_rounded: rounded,
            is_bottom_left_rounded: rounded,
            is_bottom_right_rounded: rounded,
        }
    }

    /// Thin lines on all four sides, with square corners.
    pub fn thin() -> (border: Border)
        ensures
            border == Self::all_sides(false, false),
    {
        Border {
            use_thick_border: false,
            has_top: true,
            has_bottom: true,
            has_left: true,
            has_right: true,
            is_top_left_rounded: false,
            is_top_right_rounded: false,
            is_bottom_left_rounded: false,
            is_bottom_right_rounded: false,
        }
    }

    /// Thick lines on all four sides, with square corners.
    pub fn thick() -> (border: Border)
        ensures
            border == Self::all_sides(true, false),
    {
        Border {
            use_thick_border: true,
            has_top: true,
            has_bottom: true,
            has_left: true,
            has_right: true,
            is_top_left_rounded: false,
            is_top_right_rounded: false,
            is_bottom_left_rounded: false,
            is_bottom_right_rounded: false,
        }
    }

    /// Thin lines on all four sides, with rounded corners.
    pub fn rounded() -> (border: Border)
        ensures
            border == Self::all_sides(false, true),
    {
        Border {
            use_thick_border: false,
            has_top: true,
            has_bottom: true,
            has_left: true,
            has_right: true,
            is_top_left_rounded: true,
            is_top_right_rounded: true,
            is_bottom_left_rounded: true,
            is_bottom_right_rounded: true,
        }
    }
}

} // verus!
