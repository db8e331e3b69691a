//! Room for the operating system's window buttons.
//!
//! On macOS the traffic lights are drawn over the client area while the
//! window is windowed, so the title bar keeps room for them; everywhere else,
//! and in fullscreen, only ordinary edge padding is kept.

use vstd::prelude::*;

use crate::input::key::Platform;

verus! {

/// How much space to leave clear at the leading edge of the title bar.
#[derive(Clone, Copy, PartialEq, Eq, Debug, Structural)]
pub struct WindowChromeInset {
    /// Logical pixels to keep clear on the left.
    pub leading: u16,
}

/// Width of the macOS traffic-light cluster plus its margin, in logical
/// pixels: it clears buttons whose size the platform chose, so it does not
/// follow the spacing scale.
pub const MACOS_TRAFFIC_LIGHTS: u16 = 72;

/// Ordinary edge padding, where no window buttons overlap the client area.
pub const BARE: u16 = 6;

/// The inset a window needs: room for the traffic lights on a windowed macOS
/// window, bare padding otherwise.
pub fn window_inset(platform: Platform, windowed: bool) -> (r: WindowChromeInset)
    ensures
        r.leading == if platform == Platform::MacOs && windowed {
            MACOS_TRAFFIC_LIGHTS
        } else {
            BARE
        },
{
    match platform {
        Platform::MacOs => if windowed {
            WindowChromeInset { leading: MACOS_TRAFFIC_LIGHTS }
        } else {
            WindowChromeInset { leading: BARE }
        },
        Platform::Other => WindowChromeInset { leading: BARE },
    }
}

/// The inset a window starts with, before its mode is known: windowed.
pub fn default_inset(platform: Platform) -> (r: WindowChromeInset)
    ensures
        r.leading == if platform == Platform::MacOs {
            MACOS_TRAFFIC_LIGHTS
        } else {
            BARE
        },
{
    window_inset(platform, true)
}

} // verus!
