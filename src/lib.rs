//! Converts letter tablature for monophonic melodies into a list of
//! note macro calls for firmware audio playback.
//!
//! The input is a grid of staff lines, one per octave, grouped into sections
//! by blank lines. The scanner turns it into one pitch timeline per octave,
//! the merger picks the lowest sounding octave in each beat column, the
//! collapser groups each note with the rests that follow it, and each note is
//! rendered as a macro call.
pub mod collapse;
pub mod convert;
pub mod duration;
pub mod merge;
pub mod pitch;
pub mod scanner;
pub mod text;

pub use collapse::{collapse_notes, render_notes, Note};
pub use convert::make_qmk_note_sequence_from_letter_notes;
pub use duration::NoteDuration;
pub use merge::merge_octaves;
pub use pitch::{pitch_of_char, Pitch};
pub use scanner::{ConvertError, ParserState, Scanner, NUMBER_OF_OCTAVES};
