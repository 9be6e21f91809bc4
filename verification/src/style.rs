//! Terminal colours, as termion writes them.

use vstd::prelude::*;
use termion::color;

verus! {

/// The control sequence that selects colour number `code` (one decimal digit)
/// for the foreground: ESC `[38;5;` code `m`.
pub open spec fn fg_sequence(code: char) -> Seq<char> {
    seq!['\x1b', '[', '3', '8', ';', '5', ';', code, 'm']
}

/// termion's `color::Fg(color::LightBlack)` and `color::Fg(color::White)`,
/// each written with `Display`: colour 8 and colour 7. termion checks the
/// `NO_COLOR` environment variable once per process, and when it is set and
/// not empty writes neither; so both sequences come, or neither does.
#[verifier::external_body]
pub(crate) fn fg_switches() -> (r: (String, String))
    ensures
        (r.0@ == fg_sequence('8') && r.1@ == fg_sequence('7')) || (r.0@.len() == 0 && r.1@.len()
            == 0),
{
    (format!("{}", color::Fg(color::LightBlack)), format!("{}", color::Fg(color::White)))
}

} // verus!
