//! The boundary to the terminal-markup engine: the skin that styles the
//! output, text laid out at a width, the terminal's size, and the writes
//! to standard output. Everything here is trusted; the logic that decides
//! what to render and at which width is verified elsewhere.
use std::io::Write;
use vstd::prelude::*;

verus! {

#[verifier::external_type_specification]
#[verifier::external_body]
pub struct ExMadSkin(termimad::MadSkin);

#[verifier::external_type_specification]
#[verifier::external_body]
pub struct ExFmtText<'k, 's>(termimad::FmtText<'k, 's>);

/// Relies on MadSkin::default: the markup engine's plain default skin.
#[verifier::external_body]
pub(crate) fn skin_default() -> termimad::MadSkin {
    termimad::MadSkin::default()
}

/// Relies on termimad::terminal_size: the terminal's width in columns,
/// or the engine's default when the terminal cannot be queried. The value
/// depends on the environment; nothing is assumed of it.
#[verifier::external_body]
pub(crate) fn term_width() -> usize {
    let (w, _) = termimad::terminal_size();
    w as usize
}

/// Relies on MadSkin::print_text: prints the markdown to standard output,
/// laid out for the terminal's width.
#[verifier::external_body]
pub(crate) fn skin_print_text(skin: &termimad::MadSkin, md: &str) {
    skin.print_text(md);
}

/// Relies on FmtText::from: parses the markdown and lays it out (wraps,
/// fits tables) for the given width under the given skin.
#[verifier::external_body]
pub(crate) fn fmt_text_from<'k, 's>(
    skin: &'k termimad::MadSkin,
    src: &'s str,
    width: usize,
) -> termimad::FmtText<'k, 's> {
    termimad::FmtText::from(skin, src, Some(width))
}

/// Relies on FmtText::content_width: the width of the widest laid-out
/// line, the narrowest width that loses no content.
#[verifier::external_body]
pub(crate) fn fmt_content_width(text: &termimad::FmtText) -> usize {
    text.content_width()
}

/// Relies on FmtText::set_rendering_width: the width the text will be
/// rendered to when printed.
#[verifier::external_body]
pub(crate) fn fmt_set_rendering_width(text: &mut termimad::FmtText, width: usize) {
    text.set_rendering_width(width);
}

/// Relies on FmtText's Display: writes the laid-out text to standard
/// output, one line at a time, at its rendering width.
#[verifier::external_body]
pub(crate) fn print_fmt_text(text: &termimad::FmtText) {
    let _ = writeln!(std::io::stdout(), "{}", text);
}

} // verus!
