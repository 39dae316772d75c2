//! Terminal colouring of messages.
use vstd::prelude::*;

verus! {

/// The escape sequence that starts bold bright-red text.
pub open spec fn red_bold_start() -> Seq<char> {
    "\x1b[1;91m"@
}

/// The escape sequence that starts bold text.
pub open spec fn bold_start() -> Seq<char> {
    "\x1b[1m"@
}

/// The escape sequence that resets the text style.
pub open spec fn style_reset() -> Seq<char> {
    "\x1b[0m"@
}

/// `s` in bold bright red, as an error label is shown.
pub fn error(s: &str) -> (r: String)
    ensures
        r@ == red_bold_start() + s@ + style_reset(),
{
    let mut buf = String::from_str("\x1b[1;91m");
    buf.append(s);
    buf.append("\x1b[0m");
    buf
}

/// `s` in bold.
pub fn bold(s: &str) -> (r: String)
    ensures
        r@ == bold_start() + s@ + style_reset(),
{
    let mut buf = String::from_str("\x1b[1m");
    buf.append(s);
    buf.append("\x1b[0m");
    buf
}

/// The escape sequences are those of ANSI terminals: ESC `[1;91m` for bold bright red,
/// ESC `[1m` for bold, and ESC `[0m` to reset.
pub proof fn lemma_escape_sequences()
    ensures
        red_bold_start() == seq!['\u{1b}', '[', '1', ';', '9', '1', 'm'],
        bold_start() == seq!['\u{1b}', '[', '1', 'm'],
        style_reset() == seq!['\u{1b}', '[', '0', 'm'],
{
    reveal_strlit("\x1b[1;91m");
    reveal_strlit("\x1b[1m");
    reveal_strlit("\x1b[0m");
    assert(red_bold_start() =~= seq!['\u{1b}', '[', '1', ';', '9', '1', 'm']);
    assert(bold_start() =~= seq!['\u{1b}', '[', '1', 'm']);
    assert(style_reset() =~= seq!['\u{1b}', '[', '0', 'm']);
}

} // verus!
