//! The Catppuccin Mocha palette used for terminal output, as RGB triples.
use vstd::prelude::*;

verus! {

/// #1e1e2e
pub const BASE: (u8, u8, u8) = (30, 30, 46);

/// #181825
pub const MANTLE: (u8, u8, u8) = (24, 24, 37);

/// #11111b
pub const CRUST: (u8, u8, u8) = (17, 17, 27);

/// #313244
pub const SURFACE0: (u8, u8, u8) = (49, 50, 68);

/// #45475a
pub const SURFACE1: (u8, u8, u8) = (69, 71, 90);

/// #585b70
pub const SURFACE2: (u8, u8, u8) = (88, 91, 112);

/// #6c7086
pub const OVERLAY0: (u8, u8, u8) = (108, 112, 134);

/// #7f849c
pub const OVERLAY1: (u8, u8, u8) = (127, 132, 156);

/// #939ab7
pub const OVERLAY2: (u8, u8, u8) = (147, 153, 178);

/// #a6adc8
pub const SUBTEXT0: (u8, u8, u8) = (166, 173, 200);

/// #bac2de
pub const SUBTEXT1: (u8, u8, u8) = (186, 194, 222);

/// #cdd6f4
pub const TEXT: (u8, u8, u8) = (205, 214, 244);

/// #f5e0dc
pub const ROSEWATER: (u8, u8, u8) = (245, 224, 220);

/// #f2cdcd
pub const FLAMINGO: (u8, u8, u8) = (242, 205, 205);

/// #f5c2e7
pub const PINK: (u8, u8, u8) = (245, 194, 231);

/// #cba6f7
pub const MAUVE: (u8, u8, u8) = (203, 166, 247);

/// #f38ba8
pub const RED: (u8, u8, u8) = (243, 139, 168);

/// #eba0ac
pub const MAROON: (u8, u8, u8) = (235, 160, 172);

/// #fab387
pub const PEACH: (u8, u8, u8) = (250, 179, 135);

/// #f9e2af
pub const YELLOW: (u8, u8, u8) = (249, 226, 175);

/// #a6e3a1
pub const GREEN: (u8, u8, u8) = (166, 227, 161);

/// #94e2d5
pub const TEAL: (u8, u8, u8) = (148, 226, 213);

/// #89dceb
pub const SKY: (u8, u8, u8) = (137, 220, 235);

/// #74c7ec
pub const SAPPHIRE: (u8, u8, u8) = (116, 199, 236);

/// #89b4fa
pub const BLUE: (u8, u8, u8) = (137, 180, 250);

/// #b4befe
pub const LAVENDER: (u8, u8, u8) = (180, 190, 254);

/// The palette color for an HTTP status code: green for 2xx, yellow for 3xx,
/// peach for 4xx, red for 5xx, the text color otherwise.
pub open spec fn status_color_of(code: u16) -> (u8, u8, u8) {
    if 200 <= code <= 299 {
        GREEN
    } else if 300 <= code <= 399 {
        YELLOW
    } else if 400 <= code <= 499 {
        PEACH
    } else if 500 <= code <= 599 {
        RED
    } else {
        TEXT
    }
}

/// The palette color for an HTTP status code.
pub fn status_color(code: u16) -> (c: (u8, u8, u8))
    ensures
        c == status_color_of(code),
{
    if 200 <= code && code <= 299 {
        GREEN
    } else if 300 <= code && code <= 399 {
        YELLOW
    } else if 400 <= code && code <= 499 {
        PEACH
    } else if 500 <= code && code <= 599 {
        RED
    } else {
        TEXT
    }
}

} // verus!
