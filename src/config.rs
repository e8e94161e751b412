use vstd::prelude::*;

verus! {

/// A colour as red, green and blue components.
#[derive(Clone, Copy, Debug, PartialEq, Eq, Structural)]
pub enum Color {
    RGB(u8, u8, u8),
}

/// Look and geometry of the launcher window, read once at start-up.
#[derive(Clone, Debug)]
pub struct Config {
    pub background: Color,
    pub input: Color,
    pub cursor: Color,
    pub suggestion: Color,
    /// Font path or family; `None` picks the first font the system offers.
    pub font: Option<String>,
    pub font_size: u16,
    pub line_spacing: i32,
    pub padding: i32,
    pub width: i32,
    pub height: i32,
}

impl Default for Config {
    /// Black background, cyan input, white cursor, grey suggestions, 16 pt
    /// text, 6 px line spacing, 12 px padding, a 1000 by 700 window.
    fn default() -> (r: Config)
        ensures
            r.background == Color::RGB(0, 0, 0),
            r.input == Color::RGB(0, 255, 255),
            r.cursor == Color::RGB(255, 255, 255),
            r.suggestion == Color::RGB(128, 128, 128),
            r.font is None,
            r.font_size == 16,
            r.line_spacing == 6,
            r.padding == 12,
            r.width == 1000,
            r.height == 700,
    {
        Config {
            background: Color::RGB(0, 0, 0),
            input: Color::RGB(0, 255, 255),
            cursor: Color::RGB(255, 255, 255),
            suggestion: Color::RGB(128, 128, 128),
            font: None,
            font_size: 16,
            line_spacing: 6,
            padding: 12,
            width: 1000,
            height: 700,
        }
    }
}

} // verus!
