//! The pastel palette and theme carried by the text components. Turning
//! a palette entry into a terminal color, and styling text with escape
//! codes, is presentation work left to the caller.

use vstd::prelude::*;

verus! {

/// The pastel palette.
#[derive(Clone, Copy, Debug)]
pub enum PastelColor {
    Pink,
    Lavender,
    Mint,
    SkyBlue,
    Peach,
    LightYellow,
    White,
    Gray,
}

/// The main colors a themed component uses.
#[derive(Clone, Copy, Debug)]
pub struct Theme {
    pub primary: PastelColor,
    pub secondary: PastelColor,
    pub accent: PastelColor,
    pub text: PastelColor,
    pub background: PastelColor,
    pub error: PastelColor,
    pub success: PastelColor,
}

impl Default for Theme {
    /// The stock theme.
    fn default() -> (r: Theme)
        ensures
            r.primary is Lavender,
            r.secondary is SkyBlue,
            r.accent is Pink,
            r.text is White,
            r.background is White,
            r.error is Peach,
            r.success is Mint,
    {
        Theme {
            primary: PastelColor::Lavender,
            secondary: PastelColor::SkyBlue,
            accent: PastelColor::Pink,
            text: PastelColor::White,
            background: PastelColor::White,
            error: PastelColor::Peach,
            success: PastelColor::Mint,
        }
    }
}

} // verus!
