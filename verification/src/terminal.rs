//! Layout of the title screen: which banner fits the terminal, and how far
//! a line is indented to stand centred.

use vstd::prelude::*;

verus! {

/// The banners of the title screen, from widest to narrowest.
#[derive(Debug, PartialEq, Eq, Structural)]
pub enum Banner {
    /// The large block-letter banner, 62 columns wide.
    Large,
    /// The small ASCII banner, 42 columns wide.
    Small,
    /// The spaced-out name on one line.
    Compact,
}

/// The widest banner that fits a terminal of `term_width` columns: the large
/// one from 62 columns, the small one from 40, the one-line name below that.
pub fn banner_for_width(term_width: usize) -> (res: Banner)
    ensures
        term_width >= 62 ==> res == Banner::Large,
        40 <= term_width < 62 ==> res == Banner::Small,
        term_width < 40 ==> res == Banner::Compact,
{
    if term_width >= 62 {
        Banner::Large
    } else if term_width >= 40 {
        Banner::Small
    } else {
        Banner::Compact
    }
}

/// The number of spaces that centre a line of `text_len` columns in a
/// terminal of `term_width` columns: half the free width, rounded down, and
/// none when the line does not fit.
pub fn center_padding(text_len: usize, term_width: usize) -> (res: usize)
    ensures
        res == (if term_width > text_len {
            (term_width - text_len) / 2
        } else {
            0
        }),
{
    term_width.saturating_sub(text_len) / 2
}

} // verus!
