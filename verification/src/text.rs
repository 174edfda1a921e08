use vstd::prelude::*;

verus! {

/// How large a driver should draw a piece of text.
#[derive(Clone, Copy, Debug, PartialEq, Eq, Structural)]
pub enum Size {
    Small,
    Medium,
    Large,
}

/// Font size in pixels for each text size.
pub fn text_size(size: Size) -> (s: u16)
    ensures
        s == (match size {
            Size::Small => 20u16,
            Size::Medium => 32u16,
            Size::Large => 48u16,
        }),
{
    match size {
        Size::Small => 20,
        Size::Medium => 32,
        Size::Large => 48,
    }
}

} // verus!
