//! Pitches and the tablature letters that denote them.
use vstd::prelude::*;

use crate::text::{decimal, push_decimal};

verus! {

/// A rest, or one of the fourteen scale-degree symbols.
#[derive(Clone, Copy, Debug, PartialEq, Eq, Structural)]
pub enum Pitch {
    Rest,
    A,
    AS,
    B,
    BS,
    C,
    CS,
    D,
    DS,
    E,
    ES,
    F,
    FS,
    G,
    GS,
}

/// The pitch a tablature body character denotes: a lower-case letter `a`..`g`
/// is the natural note, the upper-case letter its sharp, anything else a rest.
pub open spec fn spec_pitch_of_char(c: char) -> Pitch {
    match c {
        'a' => Pitch::A,
        'A' => Pitch::AS,
        'b' => Pitch::B,
        'B' => Pitch::BS,
        'c' => Pitch::C,
        'C' => Pitch::CS,
        'd' => Pitch::D,
        'D' => Pitch::DS,
        'e' => Pitch::E,
        'E' => Pitch::ES,
        'f' => Pitch::F,
        'F' => Pitch::FS,
        'g' => Pitch::G,
        'G' => Pitch::GS,
        _ => Pitch::Rest,
    }
}

/// Reads one beat column of a staff line.
pub fn pitch_of_char(c: char) -> (p: Pitch)
    ensures
        p == spec_pitch_of_char(c),
{
    match c {
        'a' => Pitch::A,
        'A' => Pitch::AS,
        'b' => Pitch::B,
        'B' => Pitch::BS,
        'c' => Pitch::C,
        'C' => Pitch::CS,
        'd' => Pitch::D,
        'D' => Pitch::DS,
        'e' => Pitch::E,
        'E' => Pitch::ES,
        'f' => Pitch::F,
        'F' => Pitch::FS,
        'g' => Pitch::G,
        'G' => Pitch::GS,
        _ => Pitch::Rest,
    }
}

impl Pitch {
    /// The macro name of the pitch, without octave.
    pub open spec fn base_name(self) -> Seq<char> {
        match self {
            Pitch::Rest => "NOTE_REST"@,
            Pitch::A => "NOTE_A"@,
            Pitch::AS => "NOTE_AS"@,
            Pitch::B => "NOTE_B"@,
            Pitch::BS => "NOTE_BS"@,
            Pitch::C => "NOTE_C"@,
            Pitch::CS => "NOTE_CS"@,
            Pitch::D => "NOTE_D"@,
            Pitch::DS => "NOTE_DS"@,
            Pitch::E => "NOTE_E"@,
            Pitch::ES => "NOTE_ES"@,
            Pitch::F => "NOTE_F"@,
            Pitch::FS => "NOTE_FS"@,
            Pitch::G => "NOTE_G"@,
            Pitch::GS => "NOTE_GS"@,
        }
    }

    /// The pitch symbol in `octave`; a rest carries no octave.
    pub open spec fn spec_c_macro(self, octave: u8) -> Seq<char> {
        if self is Rest {
            self.base_name()
        } else {
            self.base_name() + decimal(octave as nat)
        }
    }

    /// Renders the pitch symbol, e.g. `NOTE_AS4`, or `NOTE_REST`.
    pub fn as_c_macro(self, octave: u8) -> (r: String)
        ensures
            r@ == self.spec_c_macro(octave),
    {
        let mut out = String::new();
        match self {
            Pitch::Rest => out.append("NOTE_REST"),
            Pitch::A => out.append("NOTE_A"),
            Pitch::AS => out.append("NOTE_AS"),
            Pitch::B => out.append("NOTE_B"),
            Pitch::BS => out.append("NOTE_BS"),
            Pitch::C => out.append("NOTE_C"),
            Pitch::CS => out.append("NOTE_CS"),
            Pitch::D => out.append("NOTE_D"),
            Pitch::DS => out.append("NOTE_DS"),
            Pitch::E => out.append("NOTE_E"),
            Pitch::ES => out.append("NOTE_ES"),
            Pitch::F => out.append("NOTE_F"),
            Pitch::FS => out.append("NOTE_FS"),
            Pitch::G => out.append("NOTE_G"),
            Pitch::GS => out.append("NOTE_GS"),
        }
        if self != Pitch::Rest {
            push_decimal(&mut out, octave as u128);
        }
        out
    }
}

} // verus!
