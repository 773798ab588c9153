//! The colours of each theme.
use vstd::prelude::*;

use crate::text;
use crate::ui::style::Color;

verus! {

#[derive(Debug, Clone, Copy, PartialEq, Eq)]
pub struct Palette {
    pub bg: Color,
    pub fg: Color,
    pub accent: Color,
    pub muted: Color,
    pub selection: Color,
    pub diff_add: Color,
    pub diff_del: Color,
}

#[verifier::allow_in_spec]
pub fn tokyo_night() -> (p: Palette)
    returns
        (Palette {
            bg: Color::rgb(26, 27, 38),
            fg: Color::rgb(192, 202, 245),
            accent: Color::rgb(122, 162, 247),
            muted: Color::rgb(86, 95, 137),
            selection: Color::rgb(40, 52, 87),
            diff_add: Color::rgb(158, 206, 106),
            diff_del: Color::rgb(247, 118, 142),
        }),
{
    Palette {
        bg: Color::rgb(26, 27, 38),
        fg: Color::rgb(192, 202, 245),
        accent: Color::rgb(122, 162, 247),
        muted: Color::rgb(86, 95, 137),
        selection: Color::rgb(40, 52, 87),
        diff_add: Color::rgb(158, 206, 106),
        diff_del: Color::rgb(247, 118, 142),
    }
}

#[verifier::allow_in_spec]
pub fn gruvbox() -> (p: Palette)
    returns
        (Palette {
            bg: Color::rgb(29, 32, 33),
            fg: Color::rgb(235, 219, 178),
            accent: Color::rgb(250, 189, 47),
            muted: Color::rgb(146, 131, 116),
            selection: Color::rgb(60, 56, 54),
            diff_add: Color::rgb(184, 187, 38),
            diff_del: Color::rgb(251, 73, 52),
        }),
{
    Palette {
        bg: Color::rgb(29, 32, 33),
        fg: Color::rgb(235, 219, 178),
        accent: Color::rgb(250, 189, 47),
        muted: Color::rgb(146, 131, 116),
        selection: Color::rgb(60, 56, 54),
        diff_add: Color::rgb(184, 187, 38),
        diff_del: Color::rgb(251, 73, 52),
    }
}

#[verifier::allow_in_spec]
pub fn nord() -> (p: Palette)
    returns
        (Palette {
            bg: Color::rgb(46, 52, 64),
            fg: Color::rgb(216, 222, 233),
            accent: Color::rgb(136, 192, 208),
            muted: Color::rgb(110, 122, 142),
            selection: Color::rgb(67, 76, 94),
            diff_add: Color::rgb(163, 190, 140),
            diff_del: Color::rgb(191, 97, 106),
        }),
{
    Palette {
        bg: Color::rgb(46, 52, 64),
        fg: Color::rgb(216, 222, 233),
        accent: Color::rgb(136, 192, 208),
        muted: Color::rgb(110, 122, 142),
        selection: Color::rgb(67, 76, 94),
        diff_add: Color::rgb(163, 190, 140),
        diff_del: Color::rgb(191, 97, 106),
    }
}

#[verifier::allow_in_spec]
pub fn dracula() -> (p: Palette)
    returns
        (Palette {
            bg: Color::rgb(40, 42, 54),
            fg: Color::rgb(248, 248, 242),
            accent: Color::rgb(189, 147, 249),
            muted: Color::rgb(98, 114, 164),
            selection: Color::rgb(68, 71, 90),
            diff_add: Color::rgb(80, 250, 123),
            diff_del: Color::rgb(255, 85, 85),
        }),
{
    Palette {
        bg: Color::rgb(40, 42, 54),
        fg: Color::rgb(248, 248, 242),
        accent: Color::rgb(189, 147, 249),
        muted: Color::rgb(98, 114, 164),
        selection: Color::rgb(68, 71, 90),
        diff_add: Color::rgb(80, 250, 123),
        diff_del: Color::rgb(255, 85, 85),
    }
}

#[verifier::allow_in_spec]
pub fn mocha() -> (p: Palette)
    returns
        (Palette {
            bg: Color::rgb(30, 30, 46),
            fg: Color::rgb(205, 214, 244),
            accent: Color::rgb(203, 166, 247),
            muted: Color::rgb(108, 112, 134),
            selection: Color::rgb(69, 71, 90),
            diff_add: Color::rgb(166, 227, 161),
            diff_del: Color::rgb(243, 139, 168),
        }),
{
    Palette {
        bg: Color::rgb(30, 30, 46),
        fg: Color::rgb(205, 214, 244),
        accent: Color::rgb(203, 166, 247),
        muted: Color::rgb(108, 112, 134),
        selection: Color::rgb(69, 71, 90),
        diff_add: Color::rgb(166, 227, 161),
        diff_del: Color::rgb(243, 139, 168),
    }
}

/// The colours of the theme called `name`; those of mocha where there is none.
pub open spec fn colors(name: Seq<char>) -> Palette {
    if name == "tokyo_night"@ || name == "tokyonight"@ {
        tokyo_night()
    } else if name == "gruvbox"@ {
        gruvbox()
    } else if name == "nord"@ {
        nord()
    } else if name == "dracula"@ {
        dracula()
    } else {
        mocha()
    }
}

pub fn palette(name: &str) -> (r: Palette)
    ensures
        r == colors(name@),
{
    if text::same(name, "tokyo_night") || text::same(name, "tokyonight") {
        tokyo_night()
    } else if text::same(name, "gruvbox") {
        gruvbox()
    } else if text::same(name, "nord") {
        nord()
    } else if text::same(name, "dracula") {
        dracula()
    } else {
        mocha()
    }
}

} // verus!
