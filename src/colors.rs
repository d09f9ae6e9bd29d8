//! ANSI SGR sequences that callers can use as styles, alone or concatenated.
use vstd::prelude::*;

verus! {

pub const BLACK: &'static str = "\x1b[30m";

pub const RED: &'static str = "\x1b[31m";

pub const GREEN: &'static str = "\x1b[32m";

pub const YELLOW: &'static str = "\x1b[33m";

pub const BLUE: &'static str = "\x1b[34m";

pub const MAGENTA: &'static str = "\x1b[35m";

pub const CYAN: &'static str = "\x1b[36m";

pub const WHITE: &'static str = "\x1b[37m";

pub const BG_BLACK: &'static str = "\x1b[40m";

pub const BG_RED: &'static str = "\x1b[41m";

pub const BG_GREEN: &'static str = "\x1b[42m";

pub const BG_YELLOW: &'static str = "\x1b[43m";

pub const BG_BLUE: &'static str = "\x1b[44m";

pub const BG_MAGENTA: &'static str = "\x1b[45m";

pub const BG_CYAN: &'static str = "\x1b[46m";

pub const BG_WHITE: &'static str = "\x1b[47m";

/// Resets every attribute to the terminal's default.
pub const RESET: &'static str = "\x1b[0m";

/// The characters of `RESET`.
pub open spec fn reset_seq() -> Seq<char> {
    seq!['\x1b', '[', '0', 'm']
}

/// A fresh `String` holding `RESET`.
pub fn reset_string() -> (r: String)
    ensures
        r@ == reset_seq(),
{
    proof {
        reveal_strlit("\x1b[0m");
    }
    let r = String::from_str(RESET);
    assert(r@ =~= reset_seq());
    r
}

} // verus!
