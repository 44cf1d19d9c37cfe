//! Note durations, named where the macro set has a name for them.
use vstd::prelude::*;

use crate::pitch::Pitch;
use crate::text::{decimal, push_decimal};

verus! {

/// How long a note lasts. The named values are one, one and a half, two,
/// three, four, six, eight and twelve beats; `Other` carries any other beat count.
#[derive(Clone, Copy, Debug, PartialEq, Eq, Structural)]
pub enum NoteDuration {
    Quarter,
    QuarterDot,
    Half,
    HalfDot,
    Whole,
    WholeDot,
    Breve,
    BreveDot,
    Other(usize),
}

impl NoteDuration {
    /// The length in sixteenths of a beat, the unit of the explicit-length macro.
    pub open spec fn sixteenths(self) -> nat {
        match self {
            NoteDuration::Quarter => 16,
            NoteDuration::QuarterDot => 24,
            NoteDuration::Half => 32,
            NoteDuration::HalfDot => 48,
            NoteDuration::Whole => 64,
            NoteDuration::WholeDot => 96,
            NoteDuration::Breve => 128,
            NoteDuration::BreveDot => 192,
            NoteDuration::Other(b) => 16 * b as nat,
        }
    }

    /// An explicit beat count with a name becomes that name; everything else is kept.
    pub open spec fn spec_normalize(self) -> NoteDuration {
        match self {
            NoteDuration::Other(b) => {
                if b == 1 {
                    NoteDuration::Quarter
                } else if b == 2 {
                    NoteDuration::Half
                } else if b == 3 {
                    NoteDuration::HalfDot
                } else if b == 4 {
                    NoteDuration::Whole
                } else if b == 6 {
                    NoteDuration::WholeDot
                } else if b == 8 {
                    NoteDuration::Breve
                } else if b == 12 {
                    NoteDuration::BreveDot
                } else {
                    self
                }
            },
            _ => self,
        }
    }

    pub open spec fn spec_from_beats(beats: usize) -> NoteDuration {
        NoteDuration::Other(beats).spec_normalize()
    }

    /// The duration of `beats` beats, by name where one exists.
    pub fn from_beats(beats: usize) -> (d: NoteDuration)
        ensures
            d == Self::spec_from_beats(beats),
            d.sixteenths() == 16 * beats,
    {
        NoteDuration::Other(beats).normalize()
    }

    /// Replaces an explicit beat count by its name, where it has one.
    pub fn normalize(self) -> (d: NoteDuration)
        ensures
            d == self.spec_normalize(),
            d.sixteenths() == self.sixteenths(),
            !(self is Other) ==> d == self,
    {
        match self {
            NoteDuration::Other(beats) => {
                match beats {
                    1 => NoteDuration::Quarter,
                    2 => NoteDuration::Half,
                    3 => NoteDuration::HalfDot,
                    4 => NoteDuration::Whole,
                    6 => NoteDuration::WholeDot,
                    8 => NoteDuration::Breve,
                    12 => NoteDuration::BreveDot,
                    _ => self,
                }
            },
            _ => self,
        }
    }

    /// The macro that plays a note of this duration.
    pub open spec fn macro_name(self) -> Seq<char> {
        match self {
            NoteDuration::Quarter => "Q__NOTE"@,
            NoteDuration::QuarterDot => "QD_NOTE"@,
            NoteDuration::Half => "H__NOTE"@,
            NoteDuration::HalfDot => "HD_NOTE"@,
            NoteDuration::Whole => "W__NOTE"@,
            NoteDuration::WholeDot => "WD_NOTE"@,
            NoteDuration::Breve => "B__NOTE"@,
            NoteDuration::BreveDot => "BD_NOTE"@,
            NoteDuration::Other(_) => "M__NOTE"@,
        }
    }

    /// The macro call for `pitch` in `octave` lasting this long: `NAME(PITCH)`,
    /// or `M__NOTE(PITCH, n)` with `n` the length in sixteenths.
    pub open spec fn spec_c_macro(self, pitch: Pitch, octave: u8) -> Seq<char> {
        let arg = match self {
            NoteDuration::Other(b) => ", "@ + decimal(16 * b as nat),
            _ => Seq::empty(),
        };
        self.macro_name() + "("@ + pitch.spec_c_macro(octave) + arg + ")"@
    }

    /// Renders the macro call for `pitch` in `octave` lasting this long.
    pub fn as_c_macro(&self, pitch: Pitch, octave: u8) -> (r: String)
        ensures
            r@ == self.spec_c_macro(pitch, octave),
    {
        let mut out = String::new();
        match self {
            NoteDuration::Quarter => out.append("Q__NOTE"),
            NoteDuration::QuarterDot => out.append("QD_NOTE"),
            NoteDuration::Half => out.append("H__NOTE"),
            NoteDuration::HalfDot => out.append("HD_NOTE"),
            NoteDuration::Whole => out.append("W__NOTE"),
            NoteDuration::WholeDot => out.append("WD_NOTE"),
            NoteDuration::Breve => out.append("B__NOTE"),
            NoteDuration::BreveDot => out.append("BD_NOTE"),
            NoteDuration::Other(_) => out.append("M__NOTE"),
        }
        out.append("(");
        let symbol = pitch.as_c_macro(octave);
        out.append(symbol.as_str());
        if let NoteDuration::Other(beats) = self {
            out.append(", ");
            push_decimal(&mut out, (*beats as u128) * 16);
        }
        out.append(")");
        out
    }
}

/// Normalizing twice is normalizing once; a named duration is left as it is;
/// the named beat counts get their names and every other count stays explicit.
pub proof fn lemma_normalize_idempotent(d: NoteDuration, beats: usize)
    ensures
        d.spec_normalize().spec_normalize() == d.spec_normalize(),
        !(d is Other) ==> d.spec_normalize() == d,
        beats == 1 ==> NoteDuration::spec_from_beats(beats) == NoteDuration::Quarter,
        beats == 2 ==> NoteDuration::spec_from_beats(beats) == NoteDuration::Half,
        beats == 3 ==> NoteDuration::spec_from_beats(beats) == NoteDuration::HalfDot,
        beats == 4 ==> NoteDuration::spec_from_beats(beats) == NoteDuration::Whole,
        beats == 6 ==> NoteDuration::spec_from_beats(beats) == NoteDuration::WholeDot,
        beats == 8 ==> NoteDuration::spec_from_beats(beats) == NoteDuration::Breve,
        beats == 12 ==> NoteDuration::spec_from_beats(beats) == NoteDuration::BreveDot,
        !(beats == 1 || beats == 2 || beats == 3 || beats == 4 || beats == 6 || beats == 8
            || beats == 12) ==> NoteDuration::spec_from_beats(beats) == NoteDuration::Other(
            beats,
        ),
{
}

} // verus!
