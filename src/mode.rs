//! The three radix modes and the constants each one fixes.
use vstd::prelude::*;

verus! {

/// The numeral system in which each byte is rendered.
#[derive(Clone, Copy, Debug, PartialEq, Eq, Structural)]
pub enum Mode {
    Bin,
    Oct,
    Hex,
}

/// Number of byte fields in a full row.
pub open spec fn columns_of(m: Mode) -> nat {
    match m {
        Mode::Bin => 4,
        Mode::Oct => 8,
        Mode::Hex => 16,
    }
}

/// Base of the numeral system.
pub open spec fn radix_of(m: Mode) -> nat {
    match m {
        Mode::Bin => 2,
        Mode::Oct => 8,
        Mode::Hex => 16,
    }
}

/// Number of digits in a byte field; enough for any byte in that base.
pub open spec fn width_of(m: Mode) -> nat {
    match m {
        Mode::Bin => 8,
        Mode::Oct => 3,
        Mode::Hex => 2,
    }
}

/// The mode that a command-line token names, if any.
pub open spec fn mode_of_token(t: Seq<char>) -> Option<Mode> {
    if t == seq!['b', 'i', 'n'] {
        Some(Mode::Bin)
    } else if t == seq!['o', 'c', 't'] {
        Some(Mode::Oct)
    } else if t == seq!['h', 'e', 'x'] {
        Some(Mode::Hex)
    } else {
        None
    }
}

impl Mode {
    /// Number of byte fields in a full row.
    pub fn columns(self) -> (r: u64)
        ensures
            r == columns_of(self),
    {
        match self {
            Mode::Bin => 4,
            Mode::Oct => 8,
            Mode::Hex => 16,
        }
    }

    /// Base of the numeral system.
    pub fn radix(self) -> (r: u64)
        ensures
            r == radix_of(self),
    {
        match self {
            Mode::Bin => 2,
            Mode::Oct => 8,
            Mode::Hex => 16,
        }
    }

    /// Number of digits in a byte field.
    pub fn width(self) -> (r: usize)
        ensures
            r == width_of(self),
    {
        match self {
            Mode::Bin => 8,
            Mode::Oct => 3,
            Mode::Hex => 2,
        }
    }

    /// Reads a mode token: exactly `bin`, `oct` or `hex`, case-sensitive.
    pub fn parse(token: &str) -> (r: Option<Mode>)
        ensures
            r == mode_of_token(token@),
    {
        let t = token.to_owned();
        let bin = "bin".to_owned();
        let oct = "oct".to_owned();
        let hex = "hex".to_owned();
        proof {
            reveal_strlit("bin");
            reveal_strlit("oct");
            reveal_strlit("hex");
            assert(bin@ =~= seq!['b', 'i', 'n']);
            assert(oct@ =~= seq!['o', 'c', 't']);
            assert(hex@ =~= seq!['h', 'e', 'x']);
        }
        if t == bin {
            Some(Mode::Bin)
        } else if t == oct {
            Some(Mode::Oct)
        } else if t == hex {
            Some(Mode::Hex)
        } else {
            None
        }
    }
}

} // verus!
