//! The color scheme of the interface: terminal colors, text modifiers and
//! styles, the built-in themes, and the parser of `--color` specifications.
use vstd::prelude::*;

use crate::binds::{parse_u8, spec_parse_u8, split_chars, split_on, str_is};
use crate::engine::split::{find_char_from, split_query};
use crate::text::{byte_len, char_byte_offsets, chars_range_to_string, has_boundary, str_byte_len, str_to_chars};
use crate::{chars_before_byte, count_chars_before, is_boundary, lemma_chars_before_mono};
use crate::display::strings_view;

verus! {

/// A terminal color.
#[derive(Debug, Clone, Copy, PartialEq, Eq, Hash, Structural)]
pub enum Color {
    /// The terminal's default color.
    Reset,
    Black,
    Red,
    Green,
    Yellow,
    Blue,
    Magenta,
    Cyan,
    Gray,
    DarkGray,
    LightRed,
    LightGreen,
    LightYellow,
    LightBlue,
    LightMagenta,
    LightCyan,
    White,
    /// A 24-bit color.
    Rgb(u8, u8, u8),
    /// A color of the 256-color palette.
    Indexed(u8),
}

/// A set of text modifiers, one bit each.
#[derive(Debug, Clone, Copy, PartialEq, Eq, Hash, Structural)]
pub struct Modifier {
    pub bits: u16,
}

impl Modifier {
    pub const BOLD: u16 = 1;
    pub const DIM: u16 = 2;
    pub const ITALIC: u16 = 4;
    pub const UNDERLINED: u16 = 8;
    pub const SLOW_BLINK: u16 = 16;
    pub const RAPID_BLINK: u16 = 32;
    pub const REVERSED: u16 = 64;
    pub const HIDDEN: u16 = 128;
    pub const CROSSED_OUT: u16 = 256;

    /// No modifier.
    pub fn empty() -> (r: Modifier)
        ensures
            r.bits == 0,
    {
        Modifier { bits: 0 }
    }

    /// Whether every modifier whose bit is set in `bits` is in `self`.
    pub fn contains(&self, bits: u16) -> (r: bool)
        ensures
            r == (self.bits & bits == bits),
    {
        self.bits & bits == bits
    }

    /// The modifiers of both.
    pub fn union(self, other: Modifier) -> (r: Modifier)
        ensures
            r.bits == self.bits | other.bits,
    {
        Modifier { bits: self.bits | other.bits }
    }
}

/// How a piece of text is drawn: its colors, and the modifiers it adds and
/// removes.
#[derive(Debug, Clone, Copy, PartialEq, Eq, Hash, Structural)]
pub struct Style {
    pub fg: Option<Color>,
    pub bg: Option<Color>,
    pub underline_color: Option<Color>,
    pub add_modifier: Modifier,
    pub sub_modifier: Modifier,
}

/// The style that sets nothing.
pub open spec fn plain_style() -> Style {
    Style {
        fg: None,
        bg: None,
        underline_color: None,
        add_modifier: Modifier { bits: 0 },
        sub_modifier: Modifier { bits: 0 },
    }
}

/// `s` with the modifiers `bits` added (and no longer removed).
pub open spec fn with_modifier(s: Style, bits: u16) -> Style {
    Style {
        add_modifier: Modifier { bits: s.add_modifier.bits | bits },
        sub_modifier: Modifier { bits: s.sub_modifier.bits & !bits },
        ..s
    }
}

impl Style {
    /// The style that sets nothing.
    pub fn new() -> (r: Style)
        ensures
            r == plain_style(),
    {
        Style {
            fg: None,
            bg: None,
            underline_color: None,
            add_modifier: Modifier::empty(),
            sub_modifier: Modifier::empty(),
        }
    }

    /// The style with the foreground color `c`.
    pub fn fg(self, c: Color) -> (r: Style)
        ensures
            r == (Style { fg: Some(c), ..self }),
    {
        Style { fg: Some(c), ..self }
    }

    /// The style with the background color `c`.
    pub fn bg(self, c: Color) -> (r: Style)
        ensures
            r == (Style { bg: Some(c), ..self }),
    {
        Style { bg: Some(c), ..self }
    }

    /// The style with the underline color `c`.
    pub fn underline_color(self, c: Color) -> (r: Style)
        ensures
            r == (Style { underline_color: Some(c), ..self }),
    {
        Style { underline_color: Some(c), ..self }
    }

    /// The style that adds the modifiers of `m`.
    pub fn add_modifier(self, m: Modifier) -> (r: Style)
        ensures
            r == with_modifier(self, m.bits),
    {
        Style {
            add_modifier: Modifier { bits: self.add_modifier.bits | m.bits },
            sub_modifier: Modifier { bits: self.sub_modifier.bits & !m.bits },
            ..self
        }
    }

    /// The style in bold.
    pub fn bold(self) -> (r: Style)
        ensures
            r == with_modifier(self, Modifier::BOLD),
    {
        self.add_modifier(Modifier { bits: Modifier::BOLD })
    }

    /// The style, underlined.
    pub fn underlined(self) -> (r: Style)
        ensures
            r == with_modifier(self, Modifier::UNDERLINED),
    {
        self.add_modifier(Modifier { bits: Modifier::UNDERLINED })
    }

    /// The style in reverse video.
    pub fn reversed(self) -> (r: Style)
        ensures
            r == with_modifier(self, Modifier::REVERSED),
    {
        self.add_modifier(Modifier { bits: Modifier::REVERSED })
    }
}

impl Default for Style {
    fn default() -> (r: Style)
        ensures
            r == plain_style(),
    {
        Style::new()
    }
}


/// The color scheme of the interface, one style per part of the screen.
#[derive(Debug, Clone, Copy, PartialEq, Eq, Structural)]
pub struct ColorTheme {
    /// Non-selected lines and general text
    pub normal: Style,
    /// Matched text on non-current lines
    pub matched: Style,
    /// Current line, non-matched text
    pub current: Style,
    /// Current line, matched text
    pub current_match: Style,
    /// Query text/input
    pub query: Style,
    /// Spinner
    pub spinner: Style,
    /// Info (outside of spinner)
    pub info: Style,
    /// Prompt prefix
    pub prompt: Style,
    /// Cursor/Selector/pointer (prefix of current item)
    pub cursor: Style,
    /// Multi-selector/marker (prefix of selected items)
    pub selected: Style,
    /// Header lines
    pub header: Style,
    /// Border
    pub border: Style,
    /// Scrollbar thumb on the item list
    pub scrollbar: Style,
}

/// The plain style with foreground `c`.
pub open spec fn fg_only(c: Color) -> Style {
    Style { fg: Some(c), ..plain_style() }
}

/// The plain style with background `c`.
pub open spec fn bg_only(c: Color) -> Style {
    Style { bg: Some(c), ..plain_style() }
}

/// The plain style with foreground `f` and background `b`.
pub open spec fn fg_bg(f: Color, b: Color) -> Style {
    Style { fg: Some(f), bg: Some(b), ..plain_style() }
}

/// The bold spinner style with foreground `c`.
pub open spec fn spinner_in(c: Color) -> Style {
    Style { fg: Some(c), ..with_modifier(plain_style(), Modifier::BOLD) }
}

/// The theme without colors: only the spinner is bold.
pub open spec fn none_theme() -> ColorTheme {
    let d = plain_style();
    ColorTheme {
        normal: d,
        matched: d,
        current: d,
        current_match: d,
        query: d,
        spinner: with_modifier(d, Modifier::BOLD),
        info: d,
        prompt: d,
        cursor: d,
        selected: d,
        header: d,
        border: d,
        scrollbar: d,
    }
}

/// The black-and-white theme: matches underlined, the current line reversed.
pub open spec fn bw_theme() -> ColorTheme {
    let d = plain_style();
    ColorTheme {
        matched: with_modifier(d, Modifier::UNDERLINED),
        current: with_modifier(d, Modifier::REVERSED),
        current_match: with_modifier(with_modifier(d, Modifier::REVERSED), Modifier::UNDERLINED),
        ..none_theme()
    }
}

/// The theme in the 16 basic colors.
pub open spec fn default16_theme() -> ColorTheme {
    ColorTheme {
        matched: fg_only(Color::Green),
        current: fg_only(Color::Yellow),
        current_match: fg_only(Color::Green),
        spinner: spinner_in(Color::Green),
        info: fg_only(Color::White),
        prompt: fg_only(Color::Blue),
        cursor: fg_only(Color::Red),
        selected: fg_only(Color::Magenta),
        header: fg_only(Color::Cyan),
        border: fg_only(Color::Black),
        scrollbar: fg_only(Color::Black),
        ..none_theme()
    }
}

/// The dark 256-color theme, the default one.
pub open spec fn dark256_theme() -> ColorTheme {
    ColorTheme {
        matched: fg_bg(Color::Indexed(108), Color::Indexed(0)),
        current: bg_only(Color::Indexed(236)),
        current_match: fg_bg(Color::Indexed(151), Color::Indexed(236)),
        spinner: spinner_in(Color::Indexed(148)),
        info: fg_only(Color::Indexed(144)),
        prompt: fg_only(Color::Indexed(110)),
        cursor: fg_only(Color::Indexed(161)),
        selected: fg_only(Color::Indexed(168)),
        header: fg_only(Color::Indexed(109)),
        border: fg_only(Color::Indexed(59)),
        scrollbar: fg_only(Color::Indexed(59)),
        ..none_theme()
    }
}

/// The molokai 256-color theme.
pub open spec fn molokai256_theme() -> ColorTheme {
    ColorTheme {
        matched: fg_bg(Color::Indexed(234), Color::Indexed(186)),
        current: bg_only(Color::Indexed(236)),
        current_match: fg_bg(Color::Indexed(234), Color::Indexed(186)),
        spinner: spinner_in(Color::Indexed(148)),
        info: fg_only(Color::Indexed(144)),
        prompt: fg_only(Color::Indexed(110)),
        cursor: fg_only(Color::Indexed(161)),
        selected: fg_only(Color::Indexed(168)),
        header: fg_only(Color::Indexed(109)),
        border: fg_only(Color::Indexed(59)),
        scrollbar: fg_only(Color::Indexed(59)),
        ..none_theme()
    }
}

/// The light 256-color theme.
pub open spec fn light256_theme() -> ColorTheme {
    ColorTheme {
        matched: fg_bg(Color::Indexed(0), Color::Indexed(220)),
        current: bg_only(Color::Indexed(251)),
        current_match: fg_bg(Color::Indexed(66), Color::Indexed(251)),
        spinner: spinner_in(Color::Indexed(65)),
        info: fg_only(Color::Indexed(101)),
        prompt: fg_only(Color::Indexed(25)),
        cursor: fg_only(Color::Indexed(161)),
        selected: fg_only(Color::Indexed(168)),
        header: fg_only(Color::Indexed(31)),
        border: fg_only(Color::Indexed(145)),
        scrollbar: fg_only(Color::Indexed(145)),
        ..none_theme()
    }
}

/// The colors of a catppuccin flavor that its theme uses.
pub struct Palette {
    pub text: Color,
    pub subtext1: Color,
    pub overlay0: Color,
    pub surface0: Color,
    pub blue: Color,
    pub red: Color,
    pub lavender: Color,
}

/// The catppuccin theme of a flavor.
pub open spec fn catppuccin_theme(p: Palette) -> ColorTheme {
    ColorTheme {
        normal: fg_only(p.text),
        matched: with_modifier(fg_only(p.blue), Modifier::UNDERLINED),
        current: bg_only(p.surface0),
        current_match: with_modifier(fg_only(p.red), Modifier::UNDERLINED),
        query: fg_only(p.text),
        spinner: with_modifier(spinner_in(p.subtext1), Modifier::BOLD),
        info: fg_only(p.subtext1),
        prompt: fg_only(p.lavender),
        cursor: fg_only(p.red),
        selected: fg_only(p.red),
        header: fg_only(p.subtext1),
        border: fg_only(p.lavender),
        scrollbar: fg_only(p.overlay0),
    }
}

/// The mocha flavor.
pub open spec fn mocha_palette() -> Palette {
    Palette {
        text: Color::Rgb(205, 214, 244),
        subtext1: Color::Rgb(186, 194, 222),
        overlay0: Color::Rgb(108, 112, 134),
        surface0: Color::Rgb(49, 50, 68),
        blue: Color::Rgb(137, 180, 250),
        red: Color::Rgb(243, 139, 168),
        lavender: Color::Rgb(180, 190, 254),
    }
}

/// The macchiato flavor.
pub open spec fn macchiato_palette() -> Palette {
    Palette {
        text: Color::Rgb(202, 211, 245),
        subtext1: Color::Rgb(184, 192, 224),
        overlay0: Color::Rgb(110, 115, 141),
        surface0: Color::Rgb(54, 58, 79),
        blue: Color::Rgb(138, 173, 244),
        red: Color::Rgb(237, 135, 150),
        lavender: Color::Rgb(183, 189, 248),
    }
}

/// The latte flavor.
pub open spec fn latte_palette() -> Palette {
    Palette {
        text: Color::Rgb(76, 79, 105),
        subtext1: Color::Rgb(92, 95, 119),
        overlay0: Color::Rgb(156, 160, 176),
        surface0: Color::Rgb(204, 208, 218),
        blue: Color::Rgb(30, 102, 245),
        red: Color::Rgb(210, 15, 57),
        lavender: Color::Rgb(114, 135, 253),
    }
}

/// The frappe flavor.
pub open spec fn frappe_palette() -> Palette {
    Palette {
        text: Color::Rgb(198, 208, 245),
        subtext1: Color::Rgb(181, 191, 226),
        overlay0: Color::Rgb(115, 121, 148),
        surface0: Color::Rgb(65, 69, 89),
        blue: Color::Rgb(140, 170, 238),
        red: Color::Rgb(231, 130, 132),
        lavender: Color::Rgb(186, 187, 241),
    }
}

impl Default for ColorTheme {
    /// Theme defaults to Dark256
    fn default() -> (r: ColorTheme)
        ensures
            r == dark256_theme(),
    {
        ColorTheme::dark256()
    }
}

impl ColorTheme {
    /// The theme without colors: only the spinner is bold.
    pub fn none() -> (r: ColorTheme)
        ensures
            r == none_theme(),
    {
        let def = Style::new();
        ColorTheme {
            spinner: Style::new().bold(),
            normal: def,
            matched: def,
            current: def,
            current_match: def,
            query: def,
            info: def,
            prompt: def,
            cursor: def,
            selected: def,
            header: def,
            border: def,
            scrollbar: def,
        }
    }

    /// The black-and-white theme.
    pub fn bw() -> (r: ColorTheme)
        ensures
            r == bw_theme(),
    {
        let base = ColorTheme::none();
        ColorTheme {
            matched: base.matched.underlined(),
            current: base.current.reversed(),
            current_match: base.current_match.reversed().underlined(),
            ..base
        }
    }

    /// The theme in the 16 basic colors.
    pub fn default16() -> (r: ColorTheme)
        ensures
            r == default16_theme(),
    {
        let base = ColorTheme::none();
        ColorTheme {
            matched: base.matched.fg(Color::Green),
            current: base.current.fg(Color::Yellow),
            current_match: base.current_match.fg(Color::Green),
            spinner: base.spinner.fg(Color::Green),
            info: base.info.fg(Color::White),
            prompt: base.prompt.fg(Color::Blue),
            cursor: base.cursor.fg(Color::Red),
            selected: base.selected.fg(Color::Magenta),
            header: base.header.fg(Color::Cyan),
            border: base.border.fg(Color::Black),
            scrollbar: base.scrollbar.fg(Color::Black),
            ..base
        }
    }

    /// The dark 256-color theme.
    pub fn dark256() -> (r: ColorTheme)
        ensures
            r == dark256_theme(),
    {
        let base = ColorTheme::none();
        ColorTheme {
            matched: base.matched.fg(Color::Indexed(108)).bg(Color::Indexed(0)),
            current: base.current.bg(Color::Indexed(236)),
            current_match: base.current_match.fg(Color::Indexed(151)).bg(Color::Indexed(236)),
            spinner: base.spinner.fg(Color::Indexed(148)),
            info: base.info.fg(Color::Indexed(144)),
            prompt: base.prompt.fg(Color::Indexed(110)),
            cursor: base.cursor.fg(Color::Indexed(161)),
            selected: base.selected.fg(Color::Indexed(168)),
            header: base.header.fg(Color::Indexed(109)),
            border: base.border.fg(Color::Indexed(59)),
            scrollbar: base.scrollbar.fg(Color::Indexed(59)),
            ..base
        }
    }

    /// The molokai 256-color theme.
    pub fn molokai256() -> (r: ColorTheme)
        ensures
            r == molokai256_theme(),
    {
        let base = ColorTheme::none();
        ColorTheme {
            matched: base.matched.fg(Color::Indexed(234)).bg(Color::Indexed(186)),
            current: base.current.bg(Color::Indexed(236)),
            current_match: base.current_match.fg(Color::Indexed(234)).bg(Color::Indexed(186)),
            spinner: base.spinner.fg(Color::Indexed(148)),
            info: base.info.fg(Color::Indexed(144)),
            prompt: base.prompt.fg(Color::Indexed(110)),
            cursor: base.cursor.fg(Color::Indexed(161)),
            selected: base.selected.fg(Color::Indexed(168)),
            header: base.header.fg(Color::Indexed(109)),
            border: base.border.fg(Color::Indexed(59)),
            scrollbar: base.scrollbar.fg(Color::Indexed(59)),
            ..base
        }
    }

    /// The light 256-color theme.
    pub fn light256() -> (r: ColorTheme)
        ensures
            r == light256_theme(),
    {
        let base = ColorTheme::none();
        ColorTheme {
            matched: base.matched.fg(Color::Indexed(0)).bg(Color::Indexed(220)),
            current: base.current.bg(Color::Indexed(251)),
            current_match: base.current_match.fg(Color::Indexed(66)).bg(Color::Indexed(251)),
            spinner: base.spinner.fg(Color::Indexed(65)),
            info: base.info.fg(Color::Indexed(101)),
            prompt: base.prompt.fg(Color::Indexed(25)),
            cursor: base.cursor.fg(Color::Indexed(161)),
            selected: base.selected.fg(Color::Indexed(168)),
            header: base.header.fg(Color::Indexed(31)),
            border: base.border.fg(Color::Indexed(145)),
            scrollbar: base.scrollbar.fg(Color::Indexed(145)),
            ..base
        }
    }

    /// The catppuccin theme in the colors of a flavor.
    fn catppuccin(p: Palette) -> (r: ColorTheme)
        ensures
            r == catppuccin_theme(p),
    {
        let base = ColorTheme::none();
        ColorTheme {
            normal: base.normal.fg(p.text),
            matched: base.matched.fg(p.blue).underlined(),
            current: base.current.bg(p.surface0),
            current_match: base.current_match.fg(p.red).underlined(),
            query: base.query.fg(p.text),
            spinner: base.spinner.fg(p.subtext1).bold(),
            info: base.info.fg(p.subtext1),
            prompt: base.prompt.fg(p.lavender),
            cursor: base.cursor.fg(p.red),
            selected: base.selected.fg(p.red),
            header: base.header.fg(p.subtext1),
            border: base.header.fg(p.lavender),
            scrollbar: base.scrollbar.fg(p.overlay0),
        }
    }

    /// The catppuccin mocha theme.
    pub fn catppuccin_mocha() -> (r: ColorTheme)
        ensures
            r == catppuccin_theme(mocha_palette()),
    {
        ColorTheme::catppuccin(Palette {
            text: Color::Rgb(205, 214, 244),
            subtext1: Color::Rgb(186, 194, 222),
            overlay0: Color::Rgb(108, 112, 134),
            surface0: Color::Rgb(49, 50, 68),
            blue: Color::Rgb(137, 180, 250),
            red: Color::Rgb(243, 139, 168),
            lavender: Color::Rgb(180, 190, 254),
        })
    }

    /// The catppuccin macchiato theme.
    pub fn catppuccin_macchiato() -> (r: ColorTheme)
        ensures
            r == catppuccin_theme(macchiato_palette()),
    {
        ColorTheme::catppuccin(Palette {
            text: Color::Rgb(202, 211, 245),
            subtext1: Color::Rgb(184, 192, 224),
            overlay0: Color::Rgb(110, 115, 141),
            surface0: Color::Rgb(54, 58, 79),
            blue: Color::Rgb(138, 173, 244),
            red: Color::Rgb(237, 135, 150),
            lavender: Color::Rgb(183, 189, 248),
        })
    }

    /// The catppuccin latte theme.
    pub fn catppuccin_latte() -> (r: ColorTheme)
        ensures
            r == catppuccin_theme(latte_palette()),
    {
        ColorTheme::catppuccin(Palette {
            text: Color::Rgb(76, 79, 105),
            subtext1: Color::Rgb(92, 95, 119),
            overlay0: Color::Rgb(156, 160, 176),
            surface0: Color::Rgb(204, 208, 218),
            blue: Color::Rgb(30, 102, 245),
            red: Color::Rgb(210, 15, 57),
            lavender: Color::Rgb(114, 135, 253),
        })
    }

    /// The catppuccin frappe theme.
    pub fn catppuccin_frappe() -> (r: ColorTheme)
        ensures
            r == catppuccin_theme(frappe_palette()),
    {
        ColorTheme::catppuccin(Palette {
            text: Color::Rgb(198, 208, 245),
            subtext1: Color::Rgb(181, 191, 226),
            overlay0: Color::Rgb(115, 121, 148),
            surface0: Color::Rgb(65, 69, 89),
            blue: Color::Rgb(140, 170, 238),
            red: Color::Rgb(231, 130, 132),
            lavender: Color::Rgb(186, 187, 241),
        })
    }
}


// ---------------------------------------------------------------------------
// The `--color` specification
// ---------------------------------------------------------------------------

/// The parts of a color value between the separators `+` and `:`.
pub open spec fn split_mods(s: Seq<char>) -> Seq<Seq<char>>
    decreases s.len(),
{
    if s.len() == 0 {
        seq![Seq::empty()]
    } else {
        let prev = split_mods(s.drop_last());
        if s.last() == '+' || s.last() == ':' {
            prev.push(Seq::empty())
        } else {
            prev.update(prev.len() - 1, prev.last().push(s.last()))
        }
    }
}

proof fn lemma_split_mods_nonempty(s: Seq<char>)
    ensures
        split_mods(s).len() >= 1,
    decreases s.len(),
{
    if s.len() > 0 {
        lemma_split_mods_nonempty(s.drop_last());
    }
}

/// The modifier a modifier name stands for (none for an unknown name).
pub open spec fn modifier_bits(p: Seq<char>) -> u16 {
    if p == "b"@ || p == "bold"@ {
        Modifier::BOLD
    } else if p == "u"@ || p == "underlined"@ {
        Modifier::UNDERLINED
    } else if p == "c"@ || p == "crossed-out"@ {
        Modifier::CROSSED_OUT
    } else if p == "d"@ || p == "dim"@ {
        Modifier::DIM
    } else if p == "i"@ || p == "italic"@ {
        Modifier::ITALIC
    } else if p == "r"@ || p == "reverse"@ {
        Modifier::REVERSED
    } else {
        0
    }
}

/// The modifiers named by `parts[1..k]`: each name adds its modifier, and
/// `x` or `regular` drops those named before it.
pub open spec fn spec_modifiers(parts: Seq<Seq<char>>, k: int) -> u16
    decreases k,
{
    if k <= 1 {
        0
    } else {
        let p = parts[k - 1];
        if p == "x"@ || p == "regular"@ {
            0
        } else {
            spec_modifiers(parts, k - 1) | modifier_bits(p)
        }
    }
}

/// Which color of a style a setting applies to.
#[derive(Debug, Clone, Copy, PartialEq, Eq, Structural)]
pub enum Layer {
    Fg,
    Bg,
    Underline,
}

/// `s` ends with `suf`.
pub open spec fn ends_with(s: Seq<char>, suf: Seq<char>) -> bool {
    suf.len() <= s.len() && s.skip(s.len() - suf.len()) == suf
}

/// The part of the screen a setting names, and the color it sets, from its
/// layer suffix (`_fg`, `-bg`, `_u`, `-underline`, ...; the foreground when
/// there is none; a bare `bg` sets the background of normal text).
pub open spec fn spec_name_layer(name: Seq<char>) -> (Seq<char>, Layer) {
    if ends_with(name, "_fg"@) || ends_with(name, "-fg"@) {
        (name.take(name.len() - 3), Layer::Fg)
    } else if ends_with(name, "_bg"@) || ends_with(name, "-bg"@) {
        (name.take(name.len() - 3), Layer::Bg)
    } else if ends_with(name, "_u"@) || ends_with(name, "-u"@) {
        (name.take(name.len() - 2), Layer::Underline)
    } else if ends_with(name, "_underline"@) || ends_with(name, "-underline"@) {
        (name.take(name.len() - 10), Layer::Underline)
    } else if name == "bg"@ {
        (Seq::empty(), Layer::Bg)
    } else {
        (name, Layer::Fg)
    }
}

/// A part of the screen that has a style of its own.
#[derive(Debug, Clone, Copy, PartialEq, Eq, Structural)]
pub enum Component {
    Normal,
    Matched,
    Current,
    CurrentMatch,
    Query,
    Spinner,
    Info,
    Prompt,
    Cursor,
    Selected,
    Header,
    Border,
    Scrollbar,
}

/// The part of the screen a name (or one of its aliases) denotes.
pub open spec fn spec_component(n: Seq<char>) -> Option<Component> {
    if n.len() == 0 || n == "normal"@ {
        Some(Component::Normal)
    } else if n == "matched"@ || n == "hl"@ {
        Some(Component::Matched)
    } else if n == "current"@ || n == "fg+"@ || n == "bg+"@ {
        Some(Component::Current)
    } else if n == "current_match"@ || n == "hl+"@ {
        Some(Component::CurrentMatch)
    } else if n == "query"@ {
        Some(Component::Query)
    } else if n == "spinner"@ {
        Some(Component::Spinner)
    } else if n == "info"@ {
        Some(Component::Info)
    } else if n == "prompt"@ {
        Some(Component::Prompt)
    } else if n == "cursor"@ || n == "pointer"@ {
        Some(Component::Cursor)
    } else if n == "selected"@ || n == "marker"@ {
        Some(Component::Selected)
    } else if n == "header"@ {
        Some(Component::Header)
    } else if n == "border"@ {
        Some(Component::Border)
    } else if n == "scrollbar"@ {
        Some(Component::Scrollbar)
    } else {
        None
    }
}

/// The style of a part of the screen.
pub open spec fn style_of(t: ColorTheme, c: Component) -> Style {
    match c {
        Component::Normal => t.normal,
        Component::Matched => t.matched,
        Component::Current => t.current,
        Component::CurrentMatch => t.current_match,
        Component::Query => t.query,
        Component::Spinner => t.spinner,
        Component::Info => t.info,
        Component::Prompt => t.prompt,
        Component::Cursor => t.cursor,
        Component::Selected => t.selected,
        Component::Header => t.header,
        Component::Border => t.border,
        Component::Scrollbar => t.scrollbar,
    }
}

/// The theme with the style of one part replaced.
pub open spec fn with_style(t: ColorTheme, c: Component, s: Style) -> ColorTheme {
    match c {
        Component::Normal => ColorTheme { normal: s, ..t },
        Component::Matched => ColorTheme { matched: s, ..t },
        Component::Current => ColorTheme { current: s, ..t },
        Component::CurrentMatch => ColorTheme { current_match: s, ..t },
        Component::Query => ColorTheme { query: s, ..t },
        Component::Spinner => ColorTheme { spinner: s, ..t },
        Component::Info => ColorTheme { info: s, ..t },
        Component::Prompt => ColorTheme { prompt: s, ..t },
        Component::Cursor => ColorTheme { cursor: s, ..t },
        Component::Selected => ColorTheme { selected: s, ..t },
        Component::Header => ColorTheme { header: s, ..t },
        Component::Border => ColorTheme { border: s, ..t },
        Component::Scrollbar => ColorTheme { scrollbar: s, ..t },
    }
}

/// The value of a hexadecimal digit, or -1.
pub open spec fn hex_digit(c: char) -> int {
    if '0' <= c <= '9' {
        c as int - '0' as int
    } else if 'a' <= c <= 'f' {
        c as int - 'a' as int + 10
    } else if 'A' <= c <= 'F' {
        c as int - 'A' as int + 10
    } else {
        -1
    }
}

/// The value of a run of hexadecimal digits.
pub open spec fn hex_value(s: Seq<char>) -> int
    decreases s.len(),
{
    if s.len() == 0 {
        0
    } else {
        hex_value(s.drop_last()) * 16 + hex_digit(s.last())
    }
}

/// `s` is a non-empty run of hexadecimal digits.
pub open spec fn hex_digits(s: Seq<char>) -> bool {
    s.len() > 0 && forall|i: int| 0 <= i < s.len() ==> #[trigger] hex_digit(s[i]) >= 0
}

/// What `u8::from_str_radix(t, 16)` gives: an optional `+` and hexadecimal
/// digits, at most 255.
pub open spec fn spec_parse_hex_u8(t: Seq<char>) -> Option<u8> {
    let ds = if t.len() > 0 && t[0] == '+' {
        t.drop_first()
    } else {
        t
    };
    if hex_digits(ds) && hex_value(ds) <= 255 {
        Some(hex_value(ds) as u8)
    } else {
        None
    }
}

/// A component of a `#rrggbb` color: its value, or 255 when it is not one.
pub open spec fn hex_or_max(t: Seq<char>) -> u8 {
    match spec_parse_hex_u8(t) {
        Some(v) => v,
        None => 255,
    }
}

/// The characters of `s` that lie in its bytes `a..b`.
pub open spec fn byte_slice(s: Seq<char>, a: int, b: int) -> Seq<char> {
    s.subrange(chars_before_byte(s, a), chars_before_byte(s, b))
}

/// `raw` has the form of a `#rrggbb` color: seven bytes, the first a `#`.
pub open spec fn is_hex_form(raw: Seq<char>) -> bool {
    byte_len(raw) == 7 && raw.len() > 0 && raw[0] == '#'
}

/// The color a color value denotes: `#rrggbb`, `-1` for the terminal's
/// default, or an index of the 256-color palette; none for anything else.
pub open spec fn spec_raw_color(raw: Seq<char>) -> Option<Color> {
    if is_hex_form(raw) {
        Some(
            Color::Rgb(
                hex_or_max(byte_slice(raw, 1, 3)),
                hex_or_max(byte_slice(raw, 3, 5)),
                hex_or_max(byte_slice(raw, 5, 7)),
            ),
        )
    } else if raw == "-1"@ {
        Some(Color::Reset)
    } else {
        match spec_parse_u8(raw) {
            Some(v) => Some(Color::Indexed(v)),
            None => None,
        }
    }
}

/// The style after setting a color (when there is one) on a layer, and
/// adding modifiers.
pub open spec fn spec_set_style(s: Style, layer: Layer, color: Option<Color>, m: u16) -> Style {
    let colored = match color {
        Some(c) => match layer {
            Layer::Fg => Style { fg: Some(c), ..s },
            Layer::Bg => Style { bg: Some(c), ..s },
            Layer::Underline => Style { underline_color: Some(c), ..s },
        },
        None => s,
    };
    with_modifier(colored, m)
}

/// The theme after the setting `name:spec`; a name that denotes no part of
/// the screen changes nothing.
pub open spec fn spec_set_color(t: ColorTheme, name: Seq<char>, spec: Seq<char>) -> ColorTheme {
    let parts = split_mods(spec);
    let (cname, layer) = spec_name_layer(name);
    match spec_component(cname) {
        None => t,
        Some(comp) => {
            let layer2 = if cname == "bg+"@ {
                Layer::Bg
            } else {
                layer
            };
            with_style(
                t,
                comp,
                spec_set_style(style_of(t, comp), layer2, spec_raw_color(parts[0]), spec_modifiers(parts, parts.len() as int)),
            )
        },
    }
}

/// The theme a theme name denotes (the dark one for an unknown name).
pub open spec fn spec_named_theme(n: Seq<char>) -> ColorTheme {
    if n == "molokai"@ {
        molokai256_theme()
    } else if n == "light"@ {
        light256_theme()
    } else if n == "16"@ {
        default16_theme()
    } else if n == "bw"@ {
        bw_theme()
    } else if n == "none"@ || n == "empty"@ {
        none_theme()
    } else if n == "catppuccin_mocha"@ || n == "catppuccin-mocha"@ {
        catppuccin_theme(mocha_palette())
    } else if n == "catppuccin_macchiato"@ || n == "catppuccin-macchiato"@ {
        catppuccin_theme(macchiato_palette())
    } else if n == "catppuccin_latte"@ || n == "catppuccin-latte"@ {
        catppuccin_theme(latte_palette())
    } else if n == "catppuccin_frappe"@ || n == "catppuccin-frappe"@ {
        catppuccin_theme(frappe_palette())
    } else {
        dark256_theme()
    }
}

/// The theme after one comma-separated item: a setting `name:spec`, or a
/// theme name, which replaces the whole theme.
pub open spec fn spec_apply_item(t: ColorTheme, item: Seq<char>) -> ColorTheme {
    match find_char_from(item, ':', 0) {
        Some(i) => spec_set_color(t, item.take(i), item.skip(i + 1)),
        None => spec_named_theme(item),
    }
}

/// The theme after the items `items[..k]`, starting from the dark theme.
pub open spec fn spec_apply_items(items: Seq<Seq<char>>, k: int) -> ColorTheme
    decreases k,
{
    if k <= 0 {
        dark256_theme()
    } else {
        spec_apply_item(spec_apply_items(items, k - 1), items[k - 1])
    }
}

/// The theme a `--color` specification gives.
pub open spec fn spec_theme_from(color: Seq<char>) -> ColorTheme {
    spec_apply_items(split_on(color, ','), split_on(color, ',').len() as int)
}

/// A `#rrggbb` value can be cut at its bytes 3 and 5.
pub open spec fn raw_color_ok(raw: Seq<char>) -> bool {
    is_hex_form(raw) ==> is_boundary(raw, 3) && is_boundary(raw, 5)
}

/// The setting `name:spec` can be applied: where the name denotes a part of
/// the screen, its color value can be cut as the parser cuts it.
pub open spec fn setting_ok(name: Seq<char>, spec: Seq<char>) -> bool {
    spec_component(spec_name_layer(name).0) is Some ==> raw_color_ok(split_mods(spec)[0])
}

/// A comma-separated item can be applied.
pub open spec fn item_ok(item: Seq<char>) -> bool {
    match find_char_from(item, ':', 0) {
        Some(j) => setting_ok(item.take(j), item.skip(j + 1)),
        None => true,
    }
}

/// Every setting of a `--color` specification can be applied.
pub open spec fn color_spec_ok(color: Seq<char>) -> bool {
    forall|i: int| 0 <= i < split_on(color, ',').len() ==> item_ok(#[trigger] split_on(color, ',')[i])
}

/// Cuts `cs` at each `+` and `:`.
fn split_mod_parts(cs: &Vec<char>) -> (r: Vec<String>)
    ensures
        r@.len() == split_mods(cs@).len(),
        forall|i: int| 0 <= i < r@.len() ==> (#[trigger] r@[i])@ == split_mods(cs@)[i],
{
    let mut parts: Vec<String> = Vec::new();
    let mut cur = String::new();
    let mut i: usize = 0;
    while i < cs.len()
        invariant
            i <= cs@.len(),
            parts@.len() + 1 == split_mods(cs@.take(i as int)).len(),
            forall|q: int| 0 <= q < parts@.len() ==> (#[trigger] parts@[q])@ == split_mods(cs@.take(i as int))[q],
            cur@ == split_mods(cs@.take(i as int)).last(),
        decreases cs@.len() - i,
    {
        proof {
            assert(cs@.take(i + 1).drop_last() =~= cs@.take(i as int));
            lemma_split_mods_nonempty(cs@.take(i as int));
        }
        if cs[i] == '+' || cs[i] == ':' {
            let done = cur;
            parts.push(done);
            cur = String::new();
        } else {
            crate::text::string_push(&mut cur, cs[i]);
        }
        i += 1;
    }
    proof {
        assert(cs@.take(cs@.len() as int) =~= cs@);
    }
    parts.push(cur);
    parts
}

/// The modifier a modifier name stands for.
fn modifier_of(p: &str) -> (r: u16)
    ensures
        r == modifier_bits(p@),
{
    proof {
        reveal_strlit("b");
        reveal_strlit("bold");
        reveal_strlit("u");
        reveal_strlit("underlined");
        reveal_strlit("c");
        reveal_strlit("crossed-out");
        reveal_strlit("d");
        reveal_strlit("dim");
        reveal_strlit("i");
        reveal_strlit("italic");
        reveal_strlit("r");
        reveal_strlit("reverse");
    }
    if str_is(p, "b") || str_is(p, "bold") {
        Modifier::BOLD
    } else if str_is(p, "u") || str_is(p, "underlined") {
        Modifier::UNDERLINED
    } else if str_is(p, "c") || str_is(p, "crossed-out") {
        Modifier::CROSSED_OUT
    } else if str_is(p, "d") || str_is(p, "dim") {
        Modifier::DIM
    } else if str_is(p, "i") || str_is(p, "italic") {
        Modifier::ITALIC
    } else if str_is(p, "r") || str_is(p, "reverse") {
        Modifier::REVERSED
    } else {
        0
    }
}

/// The modifiers named after the color in a color value's parts.
fn modifiers_of(parts: &Vec<String>) -> (r: u16)
    ensures
        r == spec_modifiers(strings_view(parts@), parts@.len() as int),
{
    let ghost ps = strings_view(parts@);
    let mut m: u16 = 0;
    let mut k: usize = 1;
    while k < parts.len()
        invariant
            1 <= k,
            k <= parts@.len() || k == 1,
            ps == strings_view(parts@),
            m == spec_modifiers(ps, k as int),
        decreases parts@.len() - k,
    {
        proof {
            reveal_strlit("x");
            reveal_strlit("regular");
        }
        let p = parts[k].as_str();
        assert(ps[k as int] == p@);
        if str_is(p, "x") || str_is(p, "regular") {
            m = 0;
        } else {
            m = m | modifier_of(p);
        }
        k += 1;
    }
    proof {
        if parts@.len() == 0 {
            assert(spec_modifiers(ps, 0) == 0);
            assert(spec_modifiers(ps, 1) == 0);
            assert(m == spec_modifiers(ps, parts@.len() as int));
        } else {
            assert(k == parts@.len());
        }
    }
    m
}

/// Whether `cs` ends with the characters of `suf`.
fn ends_with_lit(cs: &Vec<char>, suf: &str) -> (r: bool)
    ensures
        r == ends_with(cs@, suf@),
{
    let sc = str_to_chars(suf);
    if sc.len() > cs.len() {
        return false;
    }
    let off = cs.len() - sc.len();
    let mut i: usize = 0;
    while i < sc.len()
        invariant
            sc@ == suf@,
            off + sc@.len() == cs@.len(),
            i <= sc@.len(),
            forall|q: int| 0 <= q < i ==> cs@[off + q] == sc@[q],
        decreases sc@.len() - i,
    {
        assert(off + i < cs.len());
        let j: usize = off + i;
        if cs[j] != sc[i] {
            proof {
                assert(cs@.skip(off as int)[i as int] != suf@[i as int]);
            }
            return false;
        }
        i += 1;
    }
    proof {
        assert(cs@.skip(off as int) =~= suf@);
    }
    true
}

/// The part of the screen a setting names, and the color layer it sets.
fn name_layer(name: &str) -> (r: (String, Layer))
    ensures
        r.0@ == spec_name_layer(name@).0,
        r.1 == spec_name_layer(name@).1,
{
    let cs = str_to_chars(name);
    let n = cs.len();
    proof {
        reveal_strlit("bg");
    }
    if ends_with_lit(&cs, "_fg") || ends_with_lit(&cs, "-fg") {
        proof {
            reveal_strlit("_fg");
            reveal_strlit("-fg");
        }
        (chars_range_to_string(&cs, 0, n - 3), Layer::Fg)
    } else if ends_with_lit(&cs, "_bg") || ends_with_lit(&cs, "-bg") {
        proof {
            reveal_strlit("_bg");
            reveal_strlit("-bg");
        }
        (chars_range_to_string(&cs, 0, n - 3), Layer::Bg)
    } else if ends_with_lit(&cs, "_u") || ends_with_lit(&cs, "-u") {
        proof {
            reveal_strlit("_u");
            reveal_strlit("-u");
        }
        (chars_range_to_string(&cs, 0, n - 2), Layer::Underline)
    } else if ends_with_lit(&cs, "_underline") || ends_with_lit(&cs, "-underline") {
        proof {
            reveal_strlit("_underline");
            reveal_strlit("-underline");
        }
        (chars_range_to_string(&cs, 0, n - 10), Layer::Underline)
    } else if str_is(name, "bg") {
        (String::new(), Layer::Bg)
    } else {
        (chars_range_to_string(&cs, 0, n), Layer::Fg)
    }
}

/// The part of the screen a name denotes.
fn component_of(n: &str) -> (r: Option<Component>)
    ensures
        r == spec_component(n@),
{
    proof {
        reveal_strlit("normal");
        reveal_strlit("matched");
        reveal_strlit("hl");
        reveal_strlit("current");
        reveal_strlit("fg+");
        reveal_strlit("bg+");
        reveal_strlit("current_match");
        reveal_strlit("hl+");
        reveal_strlit("query");
        reveal_strlit("spinner");
        reveal_strlit("info");
        reveal_strlit("prompt");
        reveal_strlit("cursor");
        reveal_strlit("pointer");
        reveal_strlit("selected");
        reveal_strlit("marker");
        reveal_strlit("header");
        reveal_strlit("border");
        reveal_strlit("scrollbar");
    }
    if str_to_chars(n).len() == 0 || str_is(n, "normal") {
        Some(Component::Normal)
    } else if str_is(n, "matched") || str_is(n, "hl") {
        Some(Component::Matched)
    } else if str_is(n, "current") || str_is(n, "fg+") || str_is(n, "bg+") {
        Some(Component::Current)
    } else if str_is(n, "current_match") || str_is(n, "hl+") {
        Some(Component::CurrentMatch)
    } else if str_is(n, "query") {
        Some(Component::Query)
    } else if str_is(n, "spinner") {
        Some(Component::Spinner)
    } else if str_is(n, "info") {
        Some(Component::Info)
    } else if str_is(n, "prompt") {
        Some(Component::Prompt)
    } else if str_is(n, "cursor") || str_is(n, "pointer") {
        Some(Component::Cursor)
    } else if str_is(n, "selected") || str_is(n, "marker") {
        Some(Component::Selected)
    } else if str_is(n, "header") {
        Some(Component::Header)
    } else if str_is(n, "border") {
        Some(Component::Border)
    } else if str_is(n, "scrollbar") {
        Some(Component::Scrollbar)
    } else {
        None
    }
}

/// The value of a hexadecimal digit, or -1.
fn hex_digit_of(c: char) -> (r: i32)
    ensures
        r == hex_digit(c),
{
    if '0' <= c && c <= '9' {
        (c as u32 - '0' as u32) as i32
    } else if 'a' <= c && c <= 'f' {
        (c as u32 - 'a' as u32 + 10) as i32
    } else if 'A' <= c && c <= 'F' {
        (c as u32 - 'A' as u32 + 10) as i32
    } else {
        -1
    }
}

/// Reads the characters `lo..hi` of `cs` as `u8::from_str_radix(_, 16)` does.
fn parse_hex_u8(cs: &Vec<char>, lo: usize, hi: usize) -> (r: Option<u8>)
    requires
        lo <= hi <= cs@.len(),
    ensures
        r == spec_parse_hex_u8(cs@.subrange(lo as int, hi as int)),
{
    let ghost t = cs@.subrange(lo as int, hi as int);
    let plus = lo < hi && cs[lo] == '+';
    let start = if plus {
        lo + 1
    } else {
        lo
    };
    let ghost ds = cs@.subrange(start as int, hi as int);
    proof {
        if plus {
            assert(t.drop_first() =~= ds);
        } else {
            assert(t =~= ds);
        }
    }
    if start >= hi {
        return None;
    }
    // `v` is the value read so far, or 256 once it exceeds 255.
    let mut v: u32 = 0;
    let mut i = start;
    while i < hi
        invariant
            lo <= start < hi <= cs@.len(),
            start <= i <= hi,
            ds == cs@.subrange(start as int, hi as int),
            t == cs@.subrange(lo as int, hi as int),
            plus == (lo < hi && cs@[lo as int] == '+'),
            start == if plus { lo + 1 } else { lo as int },
            plus ==> t.drop_first() == ds,
            !plus ==> t == ds,
            forall|q: int| start <= q < i ==> #[trigger] hex_digit(cs@[q]) >= 0,
            (v <= 255 && v == hex_value(cs@.subrange(start as int, i as int))) || (v == 256 && hex_value(
                cs@.subrange(start as int, i as int),
            ) > 255),
        decreases hi - i,
    {
        let d = hex_digit_of(cs[i]);
        if d < 0 {
            proof {
                assert(ds[i - start] == cs@[i as int]);
                assert(hex_digit(ds[i - start]) < 0);
            }
            return None;
        }
        proof {
            assert(cs@.subrange(start as int, i + 1).drop_last() =~= cs@.subrange(start as int, i as int));
        }
        if v <= 255 {
            let nv = v * 16 + d as u32;
            v = if nv > 255 {
                256
            } else {
                nv
            };
        }
        i += 1;
    }
    proof {
        assert(cs@.subrange(start as int, hi as int) =~= ds);
        assert forall|q: int| 0 <= q < ds.len() implies #[trigger] hex_digit(ds[q]) >= 0 by {
            assert(ds[q] == cs@[start + q]);
        }
    }
    if v == 256 {
        None
    } else {
        Some(v as u8)
    }
}

/// A component of a `#rrggbb` color, 255 when it is not one.
fn hex_component(cs: &Vec<char>, lo: usize, hi: usize) -> (r: u8)
    requires
        lo <= hi <= cs@.len(),
    ensures
        r == hex_or_max(cs@.subrange(lo as int, hi as int)),
{
    match parse_hex_u8(cs, lo, hi) {
        Some(v) => v,
        None => 255,
    }
}

/// The color a color value denotes.
fn raw_color(raw: &str) -> (r: Option<Color>)
    ensures
        r == spec_raw_color(raw@),
{
    let cs = str_to_chars(raw);
    if str_byte_len(raw) == 7 && cs.len() > 0 && cs[0] == '#' {
        let offs = char_byte_offsets(raw);
        let a = count_chars_before(&offs, 1, Ghost(raw@));
        let b = count_chars_before(&offs, 3, Ghost(raw@));
        let c = count_chars_before(&offs, 5, Ghost(raw@));
        let d = count_chars_before(&offs, 7, Ghost(raw@));
        proof {
            lemma_chars_before_mono(raw@, 1, 3);
            lemma_chars_before_mono(raw@, 3, 5);
            lemma_chars_before_mono(raw@, 5, 7);
        }
        let red = hex_component(&cs, a, b);
        let green = hex_component(&cs, b, c);
        let blue = hex_component(&cs, c, d);
        Some(Color::Rgb(red, green, blue))
    } else if str_is(raw, "-1") {
        proof {
            reveal_strlit("-1");
        }
        Some(Color::Reset)
    } else {
        proof {
            reveal_strlit("-1");
            assert(cs@.skip(0) =~= cs@);
        }
        match parse_u8(&cs, 0) {
            Some(v) => Some(Color::Indexed(v)),
            None => None,
        }
    }
}

/// Sets a color (when there is one) on a layer of a style, and adds
/// modifiers.
pub fn set_style(s: &mut Style, layer: Layer, color: Option<Color>, modifier: Modifier)
    ensures
        *final(s) == spec_set_style(*old(s), layer, color, modifier.bits),
{
    if let Some(c) = color {
        *s = match layer {
            Layer::Fg => s.fg(c),
            Layer::Bg => s.bg(c),
            Layer::Underline => s.underline_color(c),
        };
    }
    *s = s.add_modifier(modifier);
}

/// The theme a theme name denotes.
fn named_theme(n: &str) -> (r: ColorTheme)
    ensures
        r == spec_named_theme(n@),
{
    proof {
        reveal_strlit("molokai");
        reveal_strlit("light");
        reveal_strlit("16");
        reveal_strlit("bw");
        reveal_strlit("none");
        reveal_strlit("empty");
        reveal_strlit("catppuccin_mocha");
        reveal_strlit("catppuccin-mocha");
        reveal_strlit("catppuccin_macchiato");
        reveal_strlit("catppuccin-macchiato");
        reveal_strlit("catppuccin_latte");
        reveal_strlit("catppuccin-latte");
        reveal_strlit("catppuccin_frappe");
        reveal_strlit("catppuccin-frappe");
    }
    if str_is(n, "molokai") {
        ColorTheme::molokai256()
    } else if str_is(n, "light") {
        ColorTheme::light256()
    } else if str_is(n, "16") {
        ColorTheme::default16()
    } else if str_is(n, "bw") {
        ColorTheme::bw()
    } else if str_is(n, "none") || str_is(n, "empty") {
        ColorTheme::none()
    } else if str_is(n, "catppuccin_mocha") || str_is(n, "catppuccin-mocha") {
        ColorTheme::catppuccin_mocha()
    } else if str_is(n, "catppuccin_macchiato") || str_is(n, "catppuccin-macchiato") {
        ColorTheme::catppuccin_macchiato()
    } else if str_is(n, "catppuccin_latte") || str_is(n, "catppuccin-latte") {
        ColorTheme::catppuccin_latte()
    } else if str_is(n, "catppuccin_frappe") || str_is(n, "catppuccin-frappe") {
        ColorTheme::catppuccin_frappe()
    } else {
        ColorTheme::dark256()
    }
}

/// Whether a color value can be cut as the parser cuts it.
fn raw_color_cuttable(raw: &str) -> (r: bool)
    ensures
        r == raw_color_ok(raw@),
{
    let cs = str_to_chars(raw);
    if str_byte_len(raw) == 7 && cs.len() > 0 && cs[0] == '#' {
        let offs = char_byte_offsets(raw);
        has_boundary(&offs, 3, Ghost(raw@)) && has_boundary(&offs, 5, Ghost(raw@))
    } else {
        true
    }
}

impl ColorTheme {
    /// The style of a part of the screen.
    fn style_at(&self, c: Component) -> (r: Style)
        ensures
            r == style_of(*self, c),
    {
        match c {
            Component::Normal => self.normal,
            Component::Matched => self.matched,
            Component::Current => self.current,
            Component::CurrentMatch => self.current_match,
            Component::Query => self.query,
            Component::Spinner => self.spinner,
            Component::Info => self.info,
            Component::Prompt => self.prompt,
            Component::Cursor => self.cursor,
            Component::Selected => self.selected,
            Component::Header => self.header,
            Component::Border => self.border,
            Component::Scrollbar => self.scrollbar,
        }
    }

    /// Replaces the style of a part of the screen.
    fn put_style(&mut self, c: Component, s: Style)
        ensures
            *final(self) == with_style(*old(self), c, s),
    {
        match c {
            Component::Normal => self.normal = s,
            Component::Matched => self.matched = s,
            Component::Current => self.current = s,
            Component::CurrentMatch => self.current_match = s,
            Component::Query => self.query = s,
            Component::Spinner => self.spinner = s,
            Component::Info => self.info = s,
            Component::Prompt => self.prompt = s,
            Component::Cursor => self.cursor = s,
            Component::Selected => self.selected = s,
            Component::Header => self.header = s,
            Component::Border => self.border = s,
            Component::Scrollbar => self.scrollbar = s,
        }
    }

    /// Applies the setting `name:spec`: the color value (`#rrggbb`, `-1` or
    /// a palette index) goes to the layer the name's suffix selects, and the
    /// modifiers after it are added; an unknown name changes nothing.
    pub fn set_color(&mut self, name: &str, spec: &str)
        requires
            setting_ok(name@, spec@),
        ensures
            *final(self) == spec_set_color(*old(self), name@, spec@),
    {
        let scs = str_to_chars(spec);
        let parts = split_mod_parts(&scs);
        proof {
            lemma_split_mods_nonempty(spec@);
            assert(strings_view(parts@) =~= split_mods(spec@));
        }
        let modifier = modifiers_of(&parts);
        let (cname, layer) = name_layer(name);
        let comp = match component_of(cname.as_str()) {
            Some(c) => c,
            None => return ,
        };
        let new_color = raw_color(parts[0].as_str());
        proof {
            reveal_strlit("bg+");
        }
        let layer2 = if str_is(cname.as_str(), "bg+") {
            Layer::Bg
        } else {
            layer
        };
        let mut st = self.style_at(comp);
        set_style(&mut st, layer2, new_color, Modifier { bits: modifier });
        self.put_style(comp, st);
    }

    /// The theme a `--color` specification gives: starting from the dark
    /// theme, each comma-separated item is either a theme name, which
    /// replaces the whole theme, or a setting `name:spec`.
    pub fn from_options(color: &str) -> (r: ColorTheme)
        requires
            color_spec_ok(color@),
        ensures
            r == spec_theme_from(color@),
    {
        let cs = str_to_chars(color);
        let items = split_chars(&cs, ',');
        let ghost its = split_on(color@, ',');
        let mut theme = ColorTheme::dark256();
        let mut k: usize = 0;
        while k < items.len()
            invariant
                cs@ == color@,
                its == split_on(color@, ','),
                items@.len() == its.len(),
                forall|i: int| 0 <= i < items@.len() ==> (#[trigger] items@[i])@ == its[i],
                color_spec_ok(color@),
                k <= items@.len(),
                theme == spec_apply_items(its, k as int),
            decreases items@.len() - k,
        {
            let item = items[k].as_str();
            assert(item@ == its[k as int]);
            assert(item_ok(its[k as int]));
            match split_query(item, ':') {
                Some((name, spec)) => theme.set_color(name.as_str(), spec.as_str()),
                None => theme = named_theme(item),
            }
            k += 1;
        }
        theme
    }

    /// The theme for the options: the `--color` specification when there is
    /// one, else no colors when `NO_COLOR` is set to something, else the dark
    /// theme.
    pub fn init_from_options(color: Option<&str>, no_color: bool) -> (r: ColorTheme)
        requires
            color matches Some(c) ==> color_spec_ok(c@),
        ensures
            r == match color {
                Some(c) => spec_theme_from(c@),
                None => if no_color {
                    none_theme()
                } else {
                    dark256_theme()
                },
            },
    {
        match color {
            Some(c) => ColorTheme::from_options(c),
            None => if no_color {
                ColorTheme::none()
            } else {
                ColorTheme::dark256()
            },
        }
    }
}

/// Whether every setting of a `--color` specification can be applied, which
/// `ColorTheme::from_options` asks of its argument.
pub fn check_color_spec(color: &str) -> (r: bool)
    ensures
        r == color_spec_ok(color@),
{
    let cs = str_to_chars(color);
    let items = split_chars(&cs, ',');
    let ghost its = split_on(color@, ',');
    let mut k: usize = 0;
    while k < items.len()
        invariant
            cs@ == color@,
            its == split_on(color@, ','),
            items@.len() == its.len(),
            forall|i: int| 0 <= i < items@.len() ==> (#[trigger] items@[i])@ == its[i],
            k <= items@.len(),
            forall|i: int| 0 <= i < k ==> item_ok(#[trigger] its[i]),
        decreases items@.len() - k,
    {
        let item = items[k].as_str();
        assert(item@ == its[k as int]);
        if let Some((name, spec)) = split_query(item, ':') {
            let (cname, _) = name_layer(name.as_str());
            if component_of(cname.as_str()).is_some() {
                let scs = str_to_chars(spec.as_str());
                let parts = split_mod_parts(&scs);
                proof {
                    lemma_split_mods_nonempty(spec@);
                }
                if !raw_color_cuttable(parts[0].as_str()) {
                    return false;
                }
            }
        }
        k += 1;
    }
    true
}

/// `s` holds neither `,` nor `:`.
pub open spec fn plain_item(s: Seq<char>) -> bool {
    forall|i: int| 0 <= i < s.len() ==> #[trigger] s[i] != ',' && s[i] != ':'
}

proof fn lemma_split_on_last_item(p: Seq<char>, n: Seq<char>)
    requires
        plain_item(n),
    ensures
        split_on(p + seq![','] + n, ',') == split_on(p, ',').push(n),
    decreases n.len(),
{
    let s = p + seq![','] + n;
    if n.len() == 0 {
        assert(s.drop_last() =~= p);
        assert(n =~= Seq::<char>::empty());
        assert(s.last() == ',');
    } else {
        let m = n.drop_last();
        assert(s.drop_last() =~= p + seq![','] + m);
        lemma_split_on_last_item(p, m);
        assert(s.last() == n.last());
        assert(n.last() != ',');
        assert(n =~= m.push(n.last()));
        let prev = split_on(p, ',').push(m);
        assert(prev.update(prev.len() - 1, prev.last().push(n.last())) =~= split_on(p, ',').push(n));
    }
}

proof fn lemma_no_colon(n: Seq<char>, k: int)
    requires
        plain_item(n),
        0 <= k,
    ensures
        find_char_from(n, ':', k) is None,
    decreases n.len() - k,
{
    if k < n.len() {
        lemma_no_colon(n, k + 1);
    }
}

/// A theme name in a `--color` specification replaces the whole theme: what
/// any items before it set is lost.
pub proof fn lemma_theme_name_resets(before: Seq<char>, name: Seq<char>)
    requires
        plain_item(name),
    ensures
        spec_theme_from(before + seq![','] + name) == spec_named_theme(name),
{
    lemma_split_on_last_item(before, name);
    lemma_no_colon(name, 0);
    let items = split_on(before + seq![','] + name, ',');
    assert(items[items.len() - 1] == name);
}

/// A text without commas is a single item.
proof fn lemma_split_on_plain(n: Seq<char>)
    requires
        plain_item(n),
    ensures
        split_on(n, ',') == seq![n],
    decreases n.len(),
{
    if n.len() > 0 {
        lemma_split_on_plain(n.drop_last());
        assert(n.drop_last().push(n.last()) =~= n);
    } else {
        assert(n =~= Seq::<char>::empty());
    }
}

/// A plain name, alone or after any items, selects the theme it names.
proof fn lemma_named_item(name: Seq<char>, before: Seq<char>)
    requires
        plain_item(name),
    ensures
        spec_theme_from(name) == spec_named_theme(name),
        spec_theme_from(before + seq![','] + name) == spec_named_theme(name),
{
    lemma_split_on_plain(name);
    lemma_no_colon(name, 0);
    lemma_theme_name_resets(before, name);
}

proof fn lemma_theme_name_0(before: Seq<char>)
    ensures
        spec_theme_from("molokai"@) == molokai256_theme(),
        spec_theme_from(before + seq![','] + "molokai"@) == molokai256_theme(),
{
    reveal_strlit("molokai");
    assert(plain_item("molokai"@));
    lemma_named_item("molokai"@, before);
}

proof fn lemma_theme_name_1(before: Seq<char>)
    ensures
        spec_theme_from("light"@) == light256_theme(),
        spec_theme_from(before + seq![','] + "light"@) == light256_theme(),
{
    reveal_strlit("molokai");
    reveal_strlit("light");
    assert(plain_item("light"@));
    lemma_named_item("light"@, before);
}

proof fn lemma_theme_name_2(before: Seq<char>)
    ensures
        spec_theme_from("16"@) == default16_theme(),
        spec_theme_from(before + seq![','] + "16"@) == default16_theme(),
{
    reveal_strlit("molokai");
    reveal_strlit("light");
    reveal_strlit("16");
    assert(plain_item("16"@));
    lemma_named_item("16"@, before);
}

proof fn lemma_theme_name_3(before: Seq<char>)
    ensures
        spec_theme_from("bw"@) == bw_theme(),
        spec_theme_from(before + seq![','] + "bw"@) == bw_theme(),
{
    reveal_strlit("molokai");
    reveal_strlit("light");
    reveal_strlit("16");
    reveal_strlit("bw");
    assert(plain_item("bw"@));
    lemma_named_item("bw"@, before);
}

proof fn lemma_theme_name_4(before: Seq<char>)
    ensures
        spec_theme_from("none"@) == none_theme(),
        spec_theme_from(before + seq![','] + "none"@) == none_theme(),
{
    reveal_strlit("molokai");
    reveal_strlit("light");
    reveal_strlit("16");
    reveal_strlit("bw");
    reveal_strlit("none");
    assert(plain_item("none"@));
    lemma_named_item("none"@, before);
}

proof fn lemma_theme_name_5(before: Seq<char>)
    ensures
        spec_theme_from("empty"@) == none_theme(),
        spec_theme_from(before + seq![','] + "empty"@) == none_theme(),
{
    reveal_strlit("molokai");
    reveal_strlit("light");
    reveal_strlit("16");
    reveal_strlit("bw");
    reveal_strlit("none");
    reveal_strlit("empty");
    assert(plain_item("empty"@));
    lemma_named_item("empty"@, before);
}

proof fn lemma_theme_name_6(before: Seq<char>)
    ensures
        spec_theme_from("catppuccin_mocha"@) == catppuccin_theme(mocha_palette()),
        spec_theme_from(before + seq![','] + "catppuccin_mocha"@) == catppuccin_theme(mocha_palette()),
{
    reveal_strlit("molokai");
    reveal_strlit("light");
    reveal_strlit("16");
    reveal_strlit("bw");
    reveal_strlit("none");
    reveal_strlit("empty");
    reveal_strlit("catppuccin_mocha");
    assert(plain_item("catppuccin_mocha"@));
    lemma_named_item("catppuccin_mocha"@, before);
}

proof fn lemma_theme_name_7(before: Seq<char>)
    ensures
        spec_theme_from("catppuccin-mocha"@) == catppuccin_theme(mocha_palette()),
        spec_theme_from(before + seq![','] + "catppuccin-mocha"@) == catppuccin_theme(mocha_palette()),
{
    reveal_strlit("molokai");
    reveal_strlit("light");
    reveal_strlit("16");
    reveal_strlit("bw");
    reveal_strlit("none");
    reveal_strlit("empty");
    reveal_strlit("catppuccin_mocha");
    reveal_strlit("catppuccin-mocha");
    assert(plain_item("catppuccin-mocha"@));
    lemma_named_item("catppuccin-mocha"@, before);
}

proof fn lemma_theme_name_8(before: Seq<char>)
    ensures
        spec_theme_from("catppuccin_macchiato"@) == catppuccin_theme(macchiato_palette()),
        spec_theme_from(before + seq![','] + "catppuccin_macchiato"@) == catppuccin_theme(macchiato_palette()),
{
    reveal_strlit("molokai");
    reveal_strlit("light");
    reveal_strlit("16");
    reveal_strlit("bw");
    reveal_strlit("none");
    reveal_strlit("empty");
    reveal_strlit("catppuccin_mocha");
    reveal_strlit("catppuccin-mocha");
    reveal_strlit("catppuccin_macchiato");
    assert(plain_item("catppuccin_macchiato"@));
    lemma_named_item("catppuccin_macchiato"@, before);
}

proof fn lemma_theme_name_9(before: Seq<char>)
    ensures
        spec_theme_from("catppuccin-macchiato"@) == catppuccin_theme(macchiato_palette()),
        spec_theme_from(before + seq![','] + "catppuccin-macchiato"@) == catppuccin_theme(macchiato_palette()),
{
    reveal_strlit("molokai");
    reveal_strlit("light");
    reveal_strlit("16");
    reveal_strlit("bw");
    reveal_strlit("none");
    reveal_strlit("empty");
    reveal_strlit("catppuccin_mocha");
    reveal_strlit("catppuccin-mocha");
    reveal_strlit("catppuccin_macchiato");
    reveal_strlit("catppuccin-macchiato");
    assert(plain_item("catppuccin-macchiato"@));
    lemma_named_item("catppuccin-macchiato"@, before);
}

proof fn lemma_theme_name_10(before: Seq<char>)
    ensures
        spec_theme_from("catppuccin_latte"@) == catppuccin_theme(latte_palette()),
        spec_theme_from(before + seq![','] + "catppuccin_latte"@) == catppuccin_theme(latte_palette()),
{
    reveal_strlit("molokai");
    reveal_strlit("light");
    reveal_strlit("16");
    reveal_strlit("bw");
    reveal_strlit("none");
    reveal_strlit("empty");
    reveal_strlit("catppuccin_mocha");
    reveal_strlit("catppuccin-mocha");
    reveal_strlit("catppuccin_macchiato");
    reveal_strlit("catppuccin-macchiato");
    reveal_strlit("catppuccin_latte");
    assert(plain_item("catppuccin_latte"@));
    lemma_named_item("catppuccin_latte"@, before);
}

proof fn lemma_theme_name_11(before: Seq<char>)
    ensures
        spec_theme_from("catppuccin-latte"@) == catppuccin_theme(latte_palette()),
        spec_theme_from(before + seq![','] + "catppuccin-latte"@) == catppuccin_theme(latte_palette()),
{
    reveal_strlit("molokai");
    reveal_strlit("light");
    reveal_strlit("16");
    reveal_strlit("bw");
    reveal_strlit("none");
    reveal_strlit("empty");
    reveal_strlit("catppuccin_mocha");
    reveal_strlit("catppuccin-mocha");
    reveal_strlit("catppuccin_macchiato");
    reveal_strlit("catppuccin-macchiato");
    reveal_strlit("catppuccin_latte");
    reveal_strlit("catppuccin-latte");
    assert(plain_item("catppuccin-latte"@));
    lemma_named_item("catppuccin-latte"@, before);
}

proof fn lemma_theme_name_12(before: Seq<char>)
    ensures
        spec_theme_from("catppuccin_frappe"@) == catppuccin_theme(frappe_palette()),
        spec_theme_from(before + seq![','] + "catppuccin_frappe"@) == catppuccin_theme(frappe_palette()),
{
    reveal_strlit("molokai");
    reveal_strlit("light");
    reveal_strlit("16");
    reveal_strlit("bw");
    reveal_strlit("none");
    reveal_strlit("empty");
    reveal_strlit("catppuccin_mocha");
    reveal_strlit("catppuccin-mocha");
    reveal_strlit("catppuccin_macchiato");
    reveal_strlit("catppuccin-macchiato");
    reveal_strlit("catppuccin_latte");
    reveal_strlit("catppuccin-latte");
    reveal_strlit("catppuccin_frappe");
    assert(plain_item("catppuccin_frappe"@));
    lemma_named_item("catppuccin_frappe"@, before);
}

proof fn lemma_theme_name_13(before: Seq<char>)
    ensures
        spec_theme_from("catppuccin-frappe"@) == catppuccin_theme(frappe_palette()),
        spec_theme_from(before + seq![','] + "catppuccin-frappe"@) == catppuccin_theme(frappe_palette()),
{
    reveal_strlit("molokai");
    reveal_strlit("light");
    reveal_strlit("16");
    reveal_strlit("bw");
    reveal_strlit("none");
    reveal_strlit("empty");
    reveal_strlit("catppuccin_mocha");
    reveal_strlit("catppuccin-mocha");
    reveal_strlit("catppuccin_macchiato");
    reveal_strlit("catppuccin-macchiato");
    reveal_strlit("catppuccin_latte");
    reveal_strlit("catppuccin-latte");
    reveal_strlit("catppuccin_frappe");
    reveal_strlit("catppuccin-frappe");
    assert(plain_item("catppuccin-frappe"@));
    lemma_named_item("catppuccin-frappe"@, before);
}

proof fn lemma_theme_name_14(before: Seq<char>)
    ensures
        spec_theme_from("dark"@) == dark256_theme(),
        spec_theme_from(before + seq![','] + "dark"@) == dark256_theme(),
{
    reveal_strlit("molokai");
    reveal_strlit("light");
    reveal_strlit("16");
    reveal_strlit("bw");
    reveal_strlit("none");
    reveal_strlit("empty");
    reveal_strlit("catppuccin_mocha");
    reveal_strlit("catppuccin-mocha");
    reveal_strlit("catppuccin_macchiato");
    reveal_strlit("catppuccin-macchiato");
    reveal_strlit("catppuccin_latte");
    reveal_strlit("catppuccin-latte");
    reveal_strlit("catppuccin_frappe");
    reveal_strlit("catppuccin-frappe");
    reveal_strlit("dark");
    assert(plain_item("dark"@));
    lemma_named_item("dark"@, before);
}

proof fn lemma_theme_name_15(before: Seq<char>)
    ensures
        spec_theme_from("default"@) == dark256_theme(),
        spec_theme_from(before + seq![','] + "default"@) == dark256_theme(),
{
    reveal_strlit("molokai");
    reveal_strlit("light");
    reveal_strlit("16");
    reveal_strlit("bw");
    reveal_strlit("none");
    reveal_strlit("empty");
    reveal_strlit("catppuccin_mocha");
    reveal_strlit("catppuccin-mocha");
    reveal_strlit("catppuccin_macchiato");
    reveal_strlit("catppuccin-macchiato");
    reveal_strlit("catppuccin_latte");
    reveal_strlit("catppuccin-latte");
    reveal_strlit("catppuccin_frappe");
    reveal_strlit("catppuccin-frappe");
    reveal_strlit("default");
    assert(plain_item("default"@));
    lemma_named_item("default"@, before);
}

/// Each theme name selects its own theme, whether it is the whole `--color`
/// specification or its last item after any others: `molokai` the molokai
/// 256-colour theme, `light` the light one, `16` the 16-colour one, `bw` the
/// black-and-white one, `none` and `empty` the empty one, each `catppuccin`
/// flavour (with `_` or `-`) its palette, and `dark` and `default` the dark
/// 256-colour one.
pub proof fn lemma_theme_names(before: Seq<char>)
    ensures
        spec_theme_from("molokai"@) == molokai256_theme(),
        spec_theme_from(before + seq![','] + "molokai"@) == molokai256_theme(),
        spec_theme_from("light"@) == light256_theme(),
        spec_theme_from(before + seq![','] + "light"@) == light256_theme(),
        spec_theme_from("16"@) == default16_theme(),
        spec_theme_from(before + seq![','] + "16"@) == default16_theme(),
        spec_theme_from("bw"@) == bw_theme(),
        spec_theme_from(before + seq![','] + "bw"@) == bw_theme(),
        spec_theme_from("none"@) == none_theme(),
        spec_theme_from(before + seq![','] + "none"@) == none_theme(),
        spec_theme_from("empty"@) == none_theme(),
        spec_theme_from(before + seq![','] + "empty"@) == none_theme(),
        spec_theme_from("catppuccin_mocha"@) == catppuccin_theme(mocha_palette()),
        spec_theme_from(before + seq![','] + "catppuccin_mocha"@) == catppuccin_theme(mocha_palette()),
        spec_theme_from("catppuccin-mocha"@) == catppuccin_theme(mocha_palette()),
        spec_theme_from(before + seq![','] + "catppuccin-mocha"@) == catppuccin_theme(mocha_palette()),
        spec_theme_from("catppuccin_macchiato"@) == catppuccin_theme(macchiato_palette()),
        spec_theme_from(before + seq![','] + "catppuccin_macchiato"@) == catppuccin_theme(macchiato_palette()),
        spec_theme_from("catppuccin-macchiato"@) == catppuccin_theme(macchiato_palette()),
        spec_theme_from(before + seq![','] + "catppuccin-macchiato"@) == catppuccin_theme(macchiato_palette()),
        spec_theme_from("catppuccin_latte"@) == catppuccin_theme(latte_palette()),
        spec_theme_from(before + seq![','] + "catppuccin_latte"@) == catppuccin_theme(latte_palette()),
        spec_theme_from("catppuccin-latte"@) == catppuccin_theme(latte_palette()),
        spec_theme_from(before + seq![','] + "catppuccin-latte"@) == catppuccin_theme(latte_palette()),
        spec_theme_from("catppuccin_frappe"@) == catppuccin_theme(frappe_palette()),
        spec_theme_from(before + seq![','] + "catppuccin_frappe"@) == catppuccin_theme(frappe_palette()),
        spec_theme_from("catppuccin-frappe"@) == catppuccin_theme(frappe_palette()),
        spec_theme_from(before + seq![','] + "catppuccin-frappe"@) == catppuccin_theme(frappe_palette()),
        spec_theme_from("dark"@) == dark256_theme(),
        spec_theme_from(before + seq![','] + "dark"@) == dark256_theme(),
        spec_theme_from("default"@) == dark256_theme(),
        spec_theme_from(before + seq![','] + "default"@) == dark256_theme(),
{
    lemma_theme_name_0(before);
    lemma_theme_name_1(before);
    lemma_theme_name_2(before);
    lemma_theme_name_3(before);
    lemma_theme_name_4(before);
    lemma_theme_name_5(before);
    lemma_theme_name_6(before);
    lemma_theme_name_7(before);
    lemma_theme_name_8(before);
    lemma_theme_name_9(before);
    lemma_theme_name_10(before);
    lemma_theme_name_11(before);
    lemma_theme_name_12(before);
    lemma_theme_name_13(before);
    lemma_theme_name_14(before);
    lemma_theme_name_15(before);
}

} // verus!
