//! What is shown on the terminal during a scan, and how.
//!
//! Nothing is printed here: the functions of this module make the lines,
//! the program around prints them. Greppable mode shows nothing during the
//! scan. Accessible mode shows plain text. Otherwise a notice carries a
//! marker in colour, and an open socket is shown in colour.
use crate::text::{decimal, has_infix};
use ansi_term::Colour;
use colored::Colorize;
use vstd::prelude::*;

verus! {

/// A colour of the terminal.
#[derive(Debug, Clone, Copy, PartialEq, Eq, Structural)]
pub enum Tint {
    Red,
    Blue,
    /// A colour by its red, green and blue parts.
    Rgb(u8, u8, u8),
}

/// The escape sequence that switches every style off.
pub open spec fn reset_code() -> Seq<char> {
    "\x1b[0m"@
}

/// The escape sequence that switches purple on.
pub open spec fn purple_code() -> Seq<char> {
    "\x1b[35m"@
}

/// The escape sequence that switches bold and a colour on.
pub open spec fn bold_code(tint: Tint) -> Seq<char> {
    match tint {
        Tint::Red => "\x1b[1;31m"@,
        Tint::Blue => "\x1b[1;34m"@,
        Tint::Rgb(red, green, blue) => "\x1b[1;38;2;"@ + decimal(red as nat) + ";"@ + decimal(
            green as nat,
        ) + ";"@ + decimal(blue as nat) + "m"@,
    }
}

/// `text` in bold and in colour: behind the sequence that switches the
/// style on, and before the one that switches it off.
pub open spec fn bold_painted(tint: Tint, text: Seq<char>) -> Seq<char> {
    bold_code(tint) + text + reset_code()
}

/// Whether `shown` is `text` in purple, or `text` as it stands.
pub open spec fn is_purple_or_plain(shown: Seq<char>, text: Seq<char>) -> bool {
    shown == text || shown == purple_code() + text + reset_code()
}

/// Formats what `Colour::bold().paint(text)` of `ansi_term` gives. Taken on
/// trust: the text comes out between the sequence for bold and the colour
/// and the sequence that resets the style.
#[verifier::external_body]
fn paint_bold(tint: Tint, text: &str) -> (r: String)
    ensures
        r@ == bold_painted(tint, text@),
{
    let colour = match tint {
        Tint::Red => Colour::Red,
        Tint::Blue => Colour::Blue,
        Tint::Rgb(red, green, blue) => Colour::RGB(red, green, blue),
    };
    format!("{}", colour.bold().paint(text))
}

/// Formats what `Colorize::purple` of `colored` gives. That crate looks at
/// the environment and at the terminal to decide whether it colours at
/// all. Taken on trust: a text that holds no reset sequence comes out as it
/// stands, or between the sequence for purple and the reset sequence.
/// Nothing is claimed of a text that holds a reset sequence.
#[verifier::external_body]
fn purple(text: &str) -> (r: String)
    ensures
        !has_infix(text@, reset_code()) ==> is_purple_or_plain(r@, text@),
{
    format!("{}", text.purple())
}

/// The kinds of notice.
#[derive(Debug, Clone, Copy, PartialEq, Eq, Structural)]
pub enum Notice {
    /// Something went wrong, and the scan goes on.
    Warning,
    /// What the scan is doing.
    Detail,
    /// What the scan found.
    Output,
}

/// How a line is shown.
#[derive(Debug, Clone, Copy, PartialEq, Eq, Structural)]
pub enum Rendering {
    /// Not at all.
    Silent,
    /// As plain text.
    Plain,
    /// With colour.
    Decorated,
}

/// The marker that stands before a notice.
pub open spec fn marker_of(notice: Notice) -> Seq<char> {
    match notice {
        Notice::Warning => "[!]"@,
        Notice::Detail => "[~]"@,
        Notice::Output => "[>]"@,
    }
}

/// The colour of the marker of a notice.
pub open spec fn tint_of(notice: Notice) -> Tint {
    match notice {
        Notice::Warning => Tint::Red,
        Notice::Detail => Tint::Blue,
        Notice::Output => Tint::Rgb(0, 255, 9),
    }
}

/// How lines are shown: not at all in greppable mode, else plain in
/// accessible mode, else with colour.
pub open spec fn rendering_of(greppable: bool, accessible: bool) -> Rendering {
    if greppable {
        Rendering::Silent
    } else if accessible {
        Rendering::Plain
    } else {
        Rendering::Decorated
    }
}

/// A notice with its marker in colour.
pub open spec fn decorated(notice: Notice, text: Seq<char>) -> Seq<char> {
    bold_painted(tint_of(notice), marker_of(notice)) + " "@ + text
}

/// The line that shows a notice, if it is shown.
pub open spec fn notice_of(notice: Notice, text: Seq<char>, greppable: bool, accessible: bool)
    -> Option<Seq<char>> {
    match rendering_of(greppable, accessible) {
        Rendering::Silent => None,
        Rendering::Plain => Some(text),
        Rendering::Decorated => Some(decorated(notice, text)),
    }
}

/// The text of a line that may be missing.
pub open spec fn line_of(line: Option<String>) -> Option<Seq<char>> {
    match line {
        Some(l) => Some(l@),
        None => None,
    }
}

/// The marker that stands before a notice.
pub fn marker(notice: Notice) -> (r: &'static str)
    ensures
        r@ == marker_of(notice),
{
    match notice {
        Notice::Warning => "[!]",
        Notice::Detail => "[~]",
        Notice::Output => "[>]",
    }
}

/// The colour of the marker of a notice.
pub fn tint(notice: Notice) -> (r: Tint)
    ensures
        r == tint_of(notice),
{
    match notice {
        Notice::Warning => Tint::Red,
        Notice::Detail => Tint::Blue,
        Notice::Output => Tint::Rgb(0, 255, 9),
    }
}

/// How lines are shown.
pub fn rendering(greppable: bool, accessible: bool) -> (r: Rendering)
    ensures
        r == rendering_of(greppable, accessible),
{
    if greppable {
        Rendering::Silent
    } else if accessible {
        Rendering::Plain
    } else {
        Rendering::Decorated
    }
}

/// A notice with its marker in colour: how a notice is shown when no mode
/// is asked about.
pub fn decorated_line(notice: Notice, text: &str) -> (r: String)
    ensures
        r@ == decorated(notice, text@),
{
    let mut line = paint_bold(tint(notice), marker(notice));
    line.append(" ");
    line.append(text);
    line
}

/// The line that shows a notice, if it is shown: nothing in greppable
/// mode, the text alone in accessible mode, else the text behind its
/// marker in colour.
pub fn notice_line(notice: Notice, text: &str, greppable: bool, accessible: bool) -> (r: Option<
    String,
>)
    ensures
        line_of(r) == notice_of(notice, text@, greppable, accessible),
{
    match rendering(greppable, accessible) {
        Rendering::Silent => None,
        Rendering::Plain => Some(String::from_str(text)),
        Rendering::Decorated => Some(decorated_line(notice, text)),
    }
}

/// A warning, if it is shown.
pub fn warning(text: &str, greppable: bool, accessible: bool) -> (r: Option<String>)
    ensures
        line_of(r) == notice_of(Notice::Warning, text@, greppable, accessible),
{
    notice_line(Notice::Warning, text, greppable, accessible)
}

/// A detail, if it is shown.
pub fn detail(text: &str, greppable: bool, accessible: bool) -> (r: Option<String>)
    ensures
        line_of(r) == notice_of(Notice::Detail, text@, greppable, accessible),
{
    notice_line(Notice::Detail, text, greppable, accessible)
}

/// An output, if it is shown.
pub fn output(text: &str, greppable: bool, accessible: bool) -> (r: Option<String>)
    ensures
        line_of(r) == notice_of(Notice::Output, text@, greppable, accessible),
{
    notice_line(Notice::Output, text, greppable, accessible)
}

/// The line that shows an open socket, if it is shown: nothing in
/// greppable mode, else `Open` and the socket, plain in accessible mode and
/// in purple otherwise, where the terminal takes colour. What comes of a
/// socket whose text holds a reset sequence is left to the colouring.
pub fn open_line(socket: &str, greppable: bool, accessible: bool) -> (r: Option<String>)
    ensures
        match rendering_of(greppable, accessible) {
            Rendering::Silent => r is None,
            Rendering::Plain => r matches Some(line) && line@ == "Open "@ + socket@,
            Rendering::Decorated => r matches Some(line) && "Open "@.is_prefix_of(line@) && (
            !has_infix(socket@, reset_code()) ==> line@ == "Open "@ + socket@ || line@ == "Open "@
                + (purple_code() + socket@ + reset_code())),
        },
{
    match rendering(greppable, accessible) {
        Rendering::Silent => None,
        Rendering::Plain => {
            let mut line = String::from_str("Open ");
            line.append(socket);
            Some(line)
        },
        Rendering::Decorated => {
            let shown = purple(socket);
            let mut line = String::from_str("Open ");
            line.append(shown.as_str());
            assert(line@ == "Open "@ + shown@);
            Some(line)
        },
    }
}

} // verus!
