use vstd::prelude::*;
use crate::text::str_eq;

verus! {

/// A color of the terminal: one of the named palette colors, or a 24-bit one.
#[derive(Debug, Clone, Copy, PartialEq, Eq, Structural)]
pub enum Color {
    Black,
    Red,
    Green,
    Yellow,
    Blue,
    Cyan,
    Gray,
    DarkGray,
    LightGreen,
    White,
    Rgb(u8, u8, u8),
}

/// The colors the view is drawn with.
#[derive(Debug, Clone, Copy, PartialEq, Eq, Structural)]
pub struct Theme {
    pub header: Color,
    pub dir: Color,
    pub file: Color,
    pub selected_bg: Color,
    pub selected_fg: Color,
    pub large: Color,
    pub medium: Color,
    pub small: Color,
    pub search: Color,
    pub help: Color,
    pub alert: Color,
    pub border: Color,
}

/// The colors of the "dark" theme.
pub open spec fn spec_dark() -> Theme {
    Theme {
        header: Color::Cyan,
        dir: Color::Blue,
        file: Color::White,
        selected_bg: Color::LightGreen,
        selected_fg: Color::Black,
        large: Color::Red,
        medium: Color::Yellow,
        small: Color::Green,
        search: Color::Yellow,
        help: Color::DarkGray,
        alert: Color::Red,
        border: Color::Cyan,
    }
}

/// The colors of the "light" theme.
pub open spec fn spec_light() -> Theme {
    Theme {
        header: Color::Blue,
        dir: Color::Blue,
        file: Color::Black,
        selected_bg: Color::Blue,
        selected_fg: Color::White,
        large: Color::Red,
        medium: Color::Yellow,
        small: Color::Green,
        search: Color::Blue,
        help: Color::Gray,
        alert: Color::Red,
        border: Color::Blue,
    }
}

/// The colors of the "gruvbox" theme.
pub open spec fn spec_gruvbox() -> Theme {
    Theme {
        header: Color::Rgb(0xfe, 0x80, 0x19),
        dir: Color::Rgb(0x83, 0xa5, 0x98),
        file: Color::Rgb(0xeb, 0xdb, 0xb2),
        selected_bg: Color::Rgb(0x83, 0xa5, 0x98),
        selected_fg: Color::Rgb(0x1d, 0x20, 0x21),
        large: Color::Rgb(0xfb, 0x49, 0x34),
        medium: Color::Rgb(0xd7, 0x99, 0x21),
        small: Color::Rgb(0x8e, 0xc0, 0x7c),
        search: Color::Rgb(0xd7, 0x99, 0x21),
        help: Color::Rgb(0x92, 0x84, 0x74),
        alert: Color::Rgb(0xfb, 0x49, 0x34),
        border: Color::Rgb(0xfe, 0x80, 0x19),
    }
}

/// The colors of the "monokai" theme.
pub open spec fn spec_monokai() -> Theme {
    Theme {
        header: Color::Rgb(0xa6, 0xe2, 0x2e),
        dir: Color::Rgb(0x66, 0xd9, 0xef),
        file: Color::Rgb(0xf8, 0xf8, 0xf2),
        selected_bg: Color::Rgb(0xa6, 0xe2, 0x2e),
        selected_fg: Color::Rgb(0x27, 0x28, 0x22),
        large: Color::Rgb(0xf9, 0x26, 0x72),
        medium: Color::Rgb(0xe6, 0xdb, 0x74),
        small: Color::Rgb(0x66, 0xd9, 0xef),
        search: Color::Rgb(0xe6, 0xdb, 0x74),
        help: Color::Rgb(0x75, 0x71, 0x5e),
        alert: Color::Rgb(0xf9, 0x26, 0x72),
        border: Color::Rgb(0xa6, 0xe2, 0x2e),
    }
}

/// The colors of the "solarized" theme.
pub open spec fn spec_solarized() -> Theme {
    Theme {
        header: Color::Rgb(0x26, 0x8b, 0xd2),
        dir: Color::Rgb(0x2a, 0xa1, 0x98),
        file: Color::Rgb(0x93, 0xa1, 0xa1),
        selected_bg: Color::Rgb(0x2a, 0xa1, 0x98),
        selected_fg: Color::Rgb(0x00, 0x2b, 0x36),
        large: Color::Rgb(0xdc, 0x32, 0x2f),
        medium: Color::Rgb(0xb5, 0x89, 0x00),
        small: Color::Rgb(0x85, 0x99, 0x00),
        search: Color::Rgb(0xb5, 0x89, 0x00),
        help: Color::Rgb(0x65, 0x7b, 0x83),
        alert: Color::Rgb(0xdc, 0x32, 0x2f),
        border: Color::Rgb(0x26, 0x8b, 0xd2),
    }
}

/// The colors of the "nord" theme.
pub open spec fn spec_nord() -> Theme {
    Theme {
        header: Color::Rgb(0x88, 0xc0, 0xd0),
        dir: Color::Rgb(0x5e, 0x81, 0xac),
        file: Color::Rgb(0xd8, 0xde, 0xe9),
        selected_bg: Color::Rgb(0x5e, 0x81, 0xac),
        selected_fg: Color::Rgb(0xec, 0xef, 0xf4),
        large: Color::Rgb(0xbf, 0x61, 0x6a),
        medium: Color::Rgb(0xeb, 0xcb, 0x8b),
        small: Color::Rgb(0xa3, 0xbe, 0x8c),
        search: Color::Rgb(0xd0, 0x87, 0x70),
        help: Color::Rgb(0x4c, 0x56, 0x6a),
        alert: Color::Rgb(0xbf, 0x61, 0x6a),
        border: Color::Rgb(0x81, 0xa1, 0xc1),
    }
}

/// The colors of the "catppuccin" theme.
pub open spec fn spec_catppuccin() -> Theme {
    Theme {
        header: Color::Rgb(0x89, 0xb4, 0xfa),
        dir: Color::Rgb(0x89, 0xb4, 0xfa),
        file: Color::Rgb(0xcd, 0xd6, 0xf4),
        selected_bg: Color::Rgb(0xcb, 0xa6, 0xf7),
        selected_fg: Color::Rgb(0x1e, 0x1e, 0x2e),
        large: Color::Rgb(0xf3, 0x8b, 0xa8),
        medium: Color::Rgb(0xfa, 0xb3, 0x87),
        small: Color::Rgb(0xa6, 0xe3, 0xa1),
        search: Color::Rgb(0xfa, 0xb3, 0x87),
        help: Color::Rgb(0x6c, 0x70, 0x86),
        alert: Color::Rgb(0xf3, 0x8b, 0xa8),
        border: Color::Rgb(0xb4, 0xbe, 0xfe),
    }
}

/// The colors of the "dracula" theme.
pub open spec fn spec_dracula() -> Theme {
    Theme {
        header: Color::Rgb(0xbd, 0x93, 0xf9),
        dir: Color::Rgb(0x8b, 0xe9, 0xfd),
        file: Color::Rgb(0xf8, 0xf8, 0xf2),
        selected_bg: Color::Rgb(0xff, 0x79, 0xc6),
        selected_fg: Color::Rgb(0x28, 0x2a, 0x36),
        large: Color::Rgb(0xff, 0x55, 0x55),
        medium: Color::Rgb(0xf1, 0xfa, 0x8c),
        small: Color::Rgb(0x50, 0xfa, 0x7b),
        search: Color::Rgb(0xff, 0xb8, 0x6c),
        help: Color::Rgb(0x62, 0x72, 0xa4),
        alert: Color::Rgb(0xff, 0x55, 0x55),
        border: Color::Rgb(0x8b, 0xe9, 0xfd),
    }
}

/// The colors of the "tokyo_night" theme.
pub open spec fn spec_tokyo_night() -> Theme {
    Theme {
        header: Color::Rgb(0x7a, 0xa2, 0xf7),
        dir: Color::Rgb(0x7d, 0xcf, 0xff),
        file: Color::Rgb(0xa9, 0xb1, 0xd6),
        selected_bg: Color::Rgb(0xbb, 0x9a, 0xf7),
        selected_fg: Color::Rgb(0x1a, 0x1b, 0x26),
        large: Color::Rgb(0xf7, 0x76, 0x8e),
        medium: Color::Rgb(0xe0, 0xaf, 0x68),
        small: Color::Rgb(0x9e, 0xce, 0x6a),
        search: Color::Rgb(0xff, 0x9e, 0x64),
        help: Color::Rgb(0x56, 0x5f, 0x89),
        alert: Color::Rgb(0xf7, 0x76, 0x8e),
        border: Color::Rgb(0x7d, 0xcf, 0xff),
    }
}

/// The colors of the "ayu_mirage" theme.
pub open spec fn spec_ayu_mirage() -> Theme {
    Theme {
        header: Color::Rgb(0x73, 0xd0, 0xff),
        dir: Color::Rgb(0x95, 0xe6, 0xcb),
        file: Color::Rgb(0xcb, 0xcb, 0xc2),
        selected_bg: Color::Rgb(0xd4, 0xbf, 0xff),
        selected_fg: Color::Rgb(0x1f, 0x24, 0x30),
        large: Color::Rgb(0xf2, 0x79, 0x83),
        medium: Color::Rgb(0xff, 0xa7, 0x59),
        small: Color::Rgb(0xa6, 0xcc, 0x70),
        search: Color::Rgb(0xff, 0xa7, 0x59),
        help: Color::Rgb(0x5c, 0x67, 0x73),
        alert: Color::Rgb(0xf2, 0x79, 0x83),
        border: Color::Rgb(0x95, 0xe6, 0xcb),
    }
}

/// How many themes there are.
pub const THEME_COUNT: usize = 10;

/// The names of the themes, in the order in which they are cycled through.
pub open spec fn theme_names() -> Seq<Seq<char>> {
    seq!["dark"@, "light"@, "gruvbox"@, "monokai"@, "solarized"@, "nord"@, "catppuccin"@, "dracula"@, "tokyo-night"@, "ayu-mirage"@]
}

/// The theme at position `i` of the cycle.
pub open spec fn theme_at(i: int) -> Theme {
    if i == 0 {
        spec_dark()
    } else if i == 1 {
        spec_light()
    } else if i == 2 {
        spec_gruvbox()
    } else if i == 3 {
        spec_monokai()
    } else if i == 4 {
        spec_solarized()
    } else if i == 5 {
        spec_nord()
    } else if i == 6 {
        spec_catppuccin()
    } else if i == 7 {
        spec_dracula()
    } else if i == 8 {
        spec_tokyo_night()
    } else {
        spec_ayu_mirage()
    }
}

/// The position of the first of `names` equal to `name`.
pub open spec fn position_in(names: Seq<Seq<char>>, name: Seq<char>) -> Option<int>
    decreases names.len(),
{
    if names.len() == 0 {
        None
    } else if names[0] == name {
        Some(0)
    } else {
        match position_in(names.drop_first(), name) {
            Some(i) => Some(i + 1),
            None => None,
        }
    }
}

/// Where none of the first `i` names is `name`, its position is found in the
/// names after them.
pub proof fn lemma_position_in(names: Seq<Seq<char>>, name: Seq<char>, i: int)
    requires
        0 <= i <= names.len(),
        forall|j: int| 0 <= j < i ==> #[trigger] names[j] != name,
    ensures
        position_in(names, name) == match position_in(names.skip(i), name) {
            Some(k) => Some(k + i),
            None => None,
        },
    decreases i,
{
    if i > 0 {
        lemma_position_in(names.drop_first(), name, i - 1);
        assert(names.drop_first().skip(i - 1) =~= names.skip(i));
    } else {
        assert(names.skip(0) =~= names);
    }
}

/// The position of a name among the theme names.
pub proof fn lemma_position_bounds(names: Seq<Seq<char>>, name: Seq<char>)
    ensures
        position_in(names, name) matches Some(i) ==> 0 <= i < names.len() && names[i] == name,
    decreases names.len(),
{
    if names.len() > 0 {
        lemma_position_bounds(names.drop_first(), name);
    }
}

/// The theme called `name`; the dark theme where no theme has that name.
pub open spec fn theme_for(name: Seq<char>) -> Theme {
    match position_in(theme_names(), name) {
        Some(i) => theme_at(i),
        None => spec_dark(),
    }
}

/// The name of the theme at position `i` of the cycle.
pub fn theme_name_at(i: usize) -> (s: &'static str)
    requires
        i < THEME_COUNT,
    ensures
        s@ == theme_names()[i as int],
{
    match i {
        0 => "dark",
        1 => "light",
        2 => "gruvbox",
        3 => "monokai",
        4 => "solarized",
        5 => "nord",
        6 => "catppuccin",
        7 => "dracula",
        8 => "tokyo-night",
        _ => "ayu-mirage",
    }
}

/// The theme at position `i` of the cycle.
pub fn theme_by_index(i: usize) -> (t: Theme)
    requires
        i < THEME_COUNT,
    ensures
        t == theme_at(i as int),
{
    match i {
        0 => Theme::dark(),
        1 => Theme::light(),
        2 => Theme::gruvbox(),
        3 => Theme::monokai(),
        4 => Theme::solarized(),
        5 => Theme::nord(),
        6 => Theme::catppuccin(),
        7 => Theme::dracula(),
        8 => Theme::tokyo_night(),
        _ => Theme::ayu_mirage(),
    }
}

/// The position of the theme called `name`, if there is one.
pub fn theme_position(name: &str) -> (r: Option<usize>)
    ensures
        r matches Some(i) ==> position_in(theme_names(), name@) == Some(i as int) && i < THEME_COUNT,
        r is None ==> position_in(theme_names(), name@) is None,
{
    let ghost names = theme_names();
    for i in 0..THEME_COUNT
        invariant
            names == theme_names(),
            forall|j: int| 0 <= j < i ==> #[trigger] names[j] != name@,
    {
        if str_eq(theme_name_at(i), name) {
            proof {
                lemma_position_in(names, name@, i as int);
                assert(names.skip(i as int)[0] == names[i as int]);
            }
            return Some(i);
        }
    }
    proof {
        lemma_position_in(names, name@, THEME_COUNT as int);
    }
    None
}

/// The theme called `name`; the dark theme where no theme has that name.
pub fn theme_from_name(name: &str) -> (t: Theme)
    ensures
        t == theme_for(name@),
{
    match theme_position(name) {
        Some(i) => theme_by_index(i),
        None => Theme::dark(),
    }
}

impl Theme {
    /// The "dark" theme.
    pub fn dark() -> (t: Theme)
        ensures
            t == spec_dark(),
    {
        Theme {
            header: Color::Cyan,
            dir: Color::Blue,
            file: Color::White,
            selected_bg: Color::LightGreen,
            selected_fg: Color::Black,
            large: Color::Red,
            medium: Color::Yellow,
            small: Color::Green,
            search: Color::Yellow,
            help: Color::DarkGray,
            alert: Color::Red,
            border: Color::Cyan,
        }
    }

    /// The "light" theme.
    pub fn light() -> (t: Theme)
        ensures
            t == spec_light(),
    {
        Theme {
            header: Color::Blue,
            dir: Color::Blue,
            file: Color::Black,
            selected_bg: Color::Blue,
            selected_fg: Color::White,
            large: Color::Red,
            medium: Color::Yellow,
            small: Color::Green,
            search: Color::Blue,
            help: Color::Gray,
            alert: Color::Red,
            border: Color::Blue,
        }
    }

    /// The "gruvbox" theme.
    pub fn gruvbox() -> (t: Theme)
        ensures
            t == spec_gruvbox(),
    {
        Theme {
            header: Color::Rgb(0xfe, 0x80, 0x19),
            dir: Color::Rgb(0x83, 0xa5, 0x98),
            file: Color::Rgb(0xeb, 0xdb, 0xb2),
            selected_bg: Color::Rgb(0x83, 0xa5, 0x98),
            selected_fg: Color::Rgb(0x1d, 0x20, 0x21),
            large: Color::Rgb(0xfb, 0x49, 0x34),
            medium: Color::Rgb(0xd7, 0x99, 0x21),
            small: Color::Rgb(0x8e, 0xc0, 0x7c),
            search: Color::Rgb(0xd7, 0x99, 0x21),
            help: Color::Rgb(0x92, 0x84, 0x74),
            alert: Color::Rgb(0xfb, 0x49, 0x34),
            border: Color::Rgb(0xfe, 0x80, 0x19),
        }
    }

    /// The "monokai" theme.
    pub fn monokai() -> (t: Theme)
        ensures
            t == spec_monokai(),
    {
        Theme {
            header: Color::Rgb(0xa6, 0xe2, 0x2e),
            dir: Color::Rgb(0x66, 0xd9, 0xef),
            file: Color::Rgb(0xf8, 0xf8, 0xf2),
            selected_bg: Color::Rgb(0xa6, 0xe2, 0x2e),
            selected_fg: Color::Rgb(0x27, 0x28, 0x22),
            large: Color::Rgb(0xf9, 0x26, 0x72),
            medium: Color::Rgb(0xe6, 0xdb, 0x74),
            small: Color::Rgb(0x66, 0xd9, 0xef),
            search: Color::Rgb(0xe6, 0xdb, 0x74),
            help: Color::Rgb(0x75, 0x71, 0x5e),
            alert: Color::Rgb(0xf9, 0x26, 0x72),
            border: Color::Rgb(0xa6, 0xe2, 0x2e),
        }
    }

    /// The "solarized" theme.
    pub fn solarized() -> (t: Theme)
        ensures
            t == spec_solarized(),
    {
        Theme {
            header: Color::Rgb(0x26, 0x8b, 0xd2),
            dir: Color::Rgb(0x2a, 0xa1, 0x98),
            file: Color::Rgb(0x93, 0xa1, 0xa1),
            selected_bg: Color::Rgb(0x2a, 0xa1, 0x98),
            selected_fg: Color::Rgb(0x00, 0x2b, 0x36),
            large: Color::Rgb(0xdc, 0x32, 0x2f),
            medium: Color::Rgb(0xb5, 0x89, 0x00),
            small: Color::Rgb(0x85, 0x99, 0x00),
            search: Color::Rgb(0xb5, 0x89, 0x00),
            help: Color::Rgb(0x65, 0x7b, 0x83),
            alert: Color::Rgb(0xdc, 0x32, 0x2f),
            border: Color::Rgb(0x26, 0x8b, 0xd2),
        }
    }

    /// The "nord" theme.
    pub fn nord() -> (t: Theme)
        ensures
            t == spec_nord(),
    {
        Theme {
            header: Color::Rgb(0x88, 0xc0, 0xd0),
            dir: Color::Rgb(0x5e, 0x81, 0xac),
            file: Color::Rgb(0xd8, 0xde, 0xe9),
            selected_bg: Color::Rgb(0x5e, 0x81, 0xac),
            selected_fg: Color::Rgb(0xec, 0xef, 0xf4),
            large: Color::Rgb(0xbf, 0x61, 0x6a),
            medium: Color::Rgb(0xeb, 0xcb, 0x8b),
            small: Color::Rgb(0xa3, 0xbe, 0x8c),
            search: Color::Rgb(0xd0, 0x87, 0x70),
            help: Color::Rgb(0x4c, 0x56, 0x6a),
            alert: Color::Rgb(0xbf, 0x61, 0x6a),
            border: Color::Rgb(0x81, 0xa1, 0xc1),
        }
    }

    /// The "catppuccin" theme.
    pub fn catppuccin() -> (t: Theme)
        ensures
            t == spec_catppuccin(),
    {
        Theme {
            header: Color::Rgb(0x89, 0xb4, 0xfa),
            dir: Color::Rgb(0x89, 0xb4, 0xfa),
            file: Color::Rgb(0xcd, 0xd6, 0xf4),
            selected_bg: Color::Rgb(0xcb, 0xa6, 0xf7),
            selected_fg: Color::Rgb(0x1e, 0x1e, 0x2e),
            large: Color::Rgb(0xf3, 0x8b, 0xa8),
            medium: Color::Rgb(0xfa, 0xb3, 0x87),
            small: Color::Rgb(0xa6, 0xe3, 0xa1),
            search: Color::Rgb(0xfa, 0xb3, 0x87),
            help: Color::Rgb(0x6c, 0x70, 0x86),
            alert: Color::Rgb(0xf3, 0x8b, 0xa8),
            border: Color::Rgb(0xb4, 0xbe, 0xfe),
        }
    }

    /// The "dracula" theme.
    pub fn dracula() -> (t: Theme)
        ensures
            t == spec_dracula(),
    {
        Theme {
            header: Color::Rgb(0xbd, 0x93, 0xf9),
            dir: Color::Rgb(0x8b, 0xe9, 0xfd),
            file: Color::Rgb(0xf8, 0xf8, 0xf2),
            selected_bg: Color::Rgb(0xff, 0x79, 0xc6),
            selected_fg: Color::Rgb(0x28, 0x2a, 0x36),
            large: Color::Rgb(0xff, 0x55, 0x55),
            medium: Color::Rgb(0xf1, 0xfa, 0x8c),
            small: Color::Rgb(0x50, 0xfa, 0x7b),
            search: Color::Rgb(0xff, 0xb8, 0x6c),
            help: Color::Rgb(0x62, 0x72, 0xa4),
            alert: Color::Rgb(0xff, 0x55, 0x55),
            border: Color::Rgb(0x8b, 0xe9, 0xfd),
        }
    }

    /// The "tokyo_night" theme.
    pub fn tokyo_night() -> (t: Theme)
        ensures
            t == spec_tokyo_night(),
    {
        Theme {
            header: Color::Rgb(0x7a, 0xa2, 0xf7),
            dir: Color::Rgb(0x7d, 0xcf, 0xff),
            file: Color::Rgb(0xa9, 0xb1, 0xd6),
            selected_bg: Color::Rgb(0xbb, 0x9a, 0xf7),
            selected_fg: Color::Rgb(0x1a, 0x1b, 0x26),
            large: Color::Rgb(0xf7, 0x76, 0x8e),
            medium: Color::Rgb(0xe0, 0xaf, 0x68),
            small: Color::Rgb(0x9e, 0xce, 0x6a),
            search: Color::Rgb(0xff, 0x9e, 0x64),
            help: Color::Rgb(0x56, 0x5f, 0x89),
            alert: Color::Rgb(0xf7, 0x76, 0x8e),
            border: Color::Rgb(0x7d, 0xcf, 0xff),
        }
    }

    /// The "ayu_mirage" theme.
    pub fn ayu_mirage() -> (t: Theme)
        ensures
            t == spec_ayu_mirage(),
    {
        Theme {
            header: Color::Rgb(0x73, 0xd0, 0xff),
            dir: Color::Rgb(0x95, 0xe6, 0xcb),
            file: Color::Rgb(0xcb, 0xcb, 0xc2),
            selected_bg: Color::Rgb(0xd4, 0xbf, 0xff),
            selected_fg: Color::Rgb(0x1f, 0x24, 0x30),
            large: Color::Rgb(0xf2, 0x79, 0x83),
            medium: Color::Rgb(0xff, 0xa7, 0x59),
            small: Color::Rgb(0xa6, 0xcc, 0x70),
            search: Color::Rgb(0xff, 0xa7, 0x59),
            help: Color::Rgb(0x5c, 0x67, 0x73),
            alert: Color::Rgb(0xf2, 0x79, 0x83),
            border: Color::Rgb(0x95, 0xe6, 0xcb),
        }
    }
}

} // verus!
