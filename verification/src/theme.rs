//! Every colour the app uses, and nothing else.
//!
//! `markdown` and `tree` describe what things *are*; the renderer decides how
//! they look and takes the values from here. Keeping them in one place is what
//! makes the colour policy checkable rather than aspirational.
//!
//! **Only ANSI-16 names and `Reset` belong here.** A terminal can follow the
//! system's appearance and flip *under the running app*. ANSI names are remapped
//! by the user's theme; fixed values can only ever suit one background.
//! `White`/`Black` for text are effectively fixed too, so the type has neither.

use vstd::prelude::*;

use crate::dex::Status;

verus! {

/// A colour the user's theme decides.
#[derive(Debug, Clone, Copy, PartialEq, Eq, Structural)]
pub enum Color {
    /// Whatever the terminal's default is.
    Reset,
    DarkGray,
    Yellow,
    Blue,
    LightBlue,
    Green,
    Red,
    Cyan,
    Magenta,
    LightMagenta,
}

/// The name a colour goes by in a terminal's palette.
pub open spec fn palette_name(c: Color) -> Seq<char> {
    match c {
        Color::Reset => "reset"@,
        Color::DarkGray => "darkgray"@,
        Color::Yellow => "yellow"@,
        Color::Blue => "blue"@,
        Color::LightBlue => "lightblue"@,
        Color::Green => "green"@,
        Color::Red => "red"@,
        Color::Cyan => "cyan"@,
        Color::Magenta => "magenta"@,
        Color::LightMagenta => "lightmagenta"@,
    }
}

/// The name a colour goes by in a terminal's palette.
pub fn ansi_name(c: Color) -> (r: &'static str)
    ensures
        r@ == palette_name(c),
{
    match c {
        Color::Reset => "reset",
        Color::DarkGray => "darkgray",
        Color::Yellow => "yellow",
        Color::Blue => "blue",
        Color::LightBlue => "lightblue",
        Color::Green => "green",
        Color::Red => "red",
        Color::Cyan => "cyan",
        Color::Magenta => "magenta",
        Color::LightMagenta => "lightmagenta",
    }
}

/// Whatever the terminal's default foreground is.
pub const PLAIN: Color = Color::Reset;

/// Secondary text: tree connectors, timestamps, the untouched part of a meter.
pub const DIM: Color = Color::DarkGray;

/// The four task states, matching the dex CLI exactly so the two tools cannot
/// contradict each other.
///
/// These land on the **status glyph only**, never the task name -- which is
/// what stops a mostly-unstarted tree becoming a wall of yellow, and is what
/// dex itself does.
pub const TODO: Color = Color::Yellow;

pub const ACTIVE: Color = Color::Blue;

pub const DONE: Color = Color::Green;

pub const BLOCKED: Color = Color::Red;

/// The bright end of the in-progress breath.
pub const ACTIVE_PULSE: Color = Color::LightBlue;

/// Inline code and other literal spans in rendered markdown.
pub const CODE: Color = Color::Cyan;

/// The selection gutter: where you are, as opposed to what anything *is*.
///
/// Magenta is the one ANSI hue carrying no meaning here -- the four states take
/// yellow, blue, green and red, and [`CODE`] takes cyan -- so a selected row can
/// never be misread as a state.
///
/// The unfocused pane dims *within the hue* rather than falling back to [`DIM`],
/// which is exactly the colour of the `│└├` tree connectors sitting one cell to
/// the gutter's right; an unfocused cursor would disappear into them.
pub const ACCENT: Color = Color::LightMagenta;

pub const ACCENT_DIM: Color = Color::Magenta;

/// The colour of each state's glyph.
pub open spec fn color_of(status: Status) -> Color {
    match status {
        Status::Pending => TODO,
        Status::InProgress => ACTIVE,
        Status::Completed => DONE,
        Status::Blocked => BLOCKED,
    }
}

/// The colour of a state's glyph.
pub fn status_color(status: Status) -> (r: Color)
    ensures
        r == color_of(status),
{
    match status {
        Status::Pending => TODO,
        Status::InProgress => ACTIVE,
        Status::Completed => DONE,
        Status::Blocked => BLOCKED,
    }
}

/// No two states share a colour, and neither the selection, code nor secondary
/// text can be misread as a state.
pub proof fn law_state_colours_carry_one_meaning(a: Status, b: Status)
    ensures
        color_of(a) == color_of(b) ==> a == b,
        color_of(a) != ACCENT && color_of(a) != ACCENT_DIM,
        color_of(a) != CODE && color_of(a) != DIM && color_of(a) != PLAIN,
        ACCENT != DIM && ACCENT_DIM != DIM && ACCENT != CODE && ACCENT_DIM != CODE,
{
}

/// The states have the colours dex gives them.
pub proof fn law_the_states_have_the_colours_of_dex(status: Status)
    ensures
        status == Status::Pending <==> color_of(status) == Color::Yellow,
        status == Status::InProgress <==> color_of(status) == Color::Blue,
        status == Status::Completed <==> color_of(status) == Color::Green,
        status == Status::Blocked <==> color_of(status) == Color::Red,
{
}

} // verus!
