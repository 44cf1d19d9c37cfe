//! The whole conversion: scan, merge, collapse, render.
use vstd::prelude::*;

use crate::collapse::{
    collapse, collapse_notes, lemma_collapse_keeps_beats, lemma_silent_line_is_one_rest, render,
    render_notes, total_sixteenths, Note,
};
use crate::duration::NoteDuration;
use crate::merge::{aligned, lemma_silent_column, merge_octaves, merged};
use crate::pitch::Pitch;
use crate::scanner::{
    initial_model, lemma_columns_within_input, lemma_scan_aligned, scan, scan_from, ConvertError,
    Scanner, NUMBER_OF_OCTAVES,
};

verus! {

/// The notes a tablature describes, or the first reason it has none.
pub open spec fn spec_notes(s: Seq<char>) -> Result<Seq<Note>, ConvertError> {
    match scan(s) {
        Ok(m) => if m.columns == 0 {
            Err(ConvertError::EmptyInput)
        } else {
            Ok(collapse(merged(m.timelines)))
        },
        Err(e) => Err(e),
    }
}

/// The macro list a tablature converts to, or the first reason it has none.
pub open spec fn spec_convert(s: Seq<char>) -> Result<Seq<char>, ConvertError> {
    match spec_notes(s) {
        Ok(ns) => Ok(render(ns)),
        Err(e) => Err(e),
    }
}

/// Converts letter tablature into a comma-separated list of note macro calls.
pub fn make_qmk_note_sequence_from_letter_notes(letter_notes: &str) -> (r: Result<
    String,
    ConvertError,
>)
    ensures
        match spec_convert(letter_notes@) {
            Ok(text) => r matches Ok(out) && out@ == text,
            Err(e) => r == Err::<String, ConvertError>(e),
        },
{
    let ghost s = letter_notes@;
    let mut scanner = Scanner::new();
    proof {
        assert(s.skip(0) =~= s);
    }
    for c in it: letter_notes.chars()
        invariant
            s == letter_notes@,
            it.seq() == s,
            scanner.wf(),
            scan_from(initial_model(), s) == scan_from(scanner@, s.skip(it.index() as int)),
    {
        proof {
            assert(s.skip(it.index() as int).drop_first() =~= s.skip(it.index() + 1));
        }
        match scanner.feed(c) {
            Ok(()) => {},
            Err(e) => {
                return Err(e);
            },
        }
    }
    proof {
        assert(s.skip(s.len() as int) =~= Seq::<char>::empty());
    }
    let timelines = match scanner.finish() {
        Ok(t) => t,
        Err(e) => {
            return Err(e);
        },
    };
    let line = match merge_octaves(&timelines) {
        Ok(line) => line,
        Err(e) => {
            return Err(e);
        },
    };
    let notes = collapse_notes(&line);
    Ok(render_notes(&notes))
}


/// The notes of a converted tablature last, together, exactly as many beats as
/// the tablature has beat columns.
pub proof fn lemma_beats_add_up(s: Seq<char>)
    requires
        s.len() <= usize::MAX,
        spec_notes(s) is Ok,
    ensures
        total_sixteenths(spec_notes(s)->Ok_0) == 16 * scan(s)->Ok_0.columns,
{
    lemma_columns_within_input(s);
    lemma_scan_aligned(s);
    let m = scan(s)->Ok_0;
    assert(m.timelines[0].len() == m.columns);
    lemma_collapse_keeps_beats(merged(m.timelines));
}

/// When every octave rests in every column, the merged line is all rests in
/// the top octave, and it collapses to one rest note as long as the piece.
pub proof fn lemma_silent_piece(t: Seq<Seq<Pitch>>)
    requires
        aligned(t),
        0 < t[0].len() <= usize::MAX,
        forall|o: int, i: int|
            0 <= o < NUMBER_OF_OCTAVES && 0 <= i < t[0].len() ==> #[trigger] t[o][i] is Rest,
    ensures
        merged(t) == Seq::new(
            t[0].len(),
            |i: int| ((NUMBER_OF_OCTAVES - 1) as u8, Pitch::Rest),
        ),
        collapse(merged(t)) == seq![
            Note {
                pitch: Pitch::Rest,
                octave: (NUMBER_OF_OCTAVES - 1) as u8,
                duration: NoteDuration::spec_from_beats(t[0].len() as usize),
            },
        ],
{
    assert forall|i: int| 0 <= i < t[0].len() implies merged(t)[i] == (
        (NUMBER_OF_OCTAVES - 1) as u8,
        Pitch::Rest,
    ) by {
        assert forall|j: int| 0 <= j < NUMBER_OF_OCTAVES implies #[trigger] t[j][i] is Rest by {
            assert(t[j].len() == t[0].len());
        }
        lemma_silent_column(t, i, 0);
    }
    assert(merged(t) =~= Seq::new(
        t[0].len(),
        |i: int| ((NUMBER_OF_OCTAVES - 1) as u8, Pitch::Rest),
    ));
    lemma_silent_line_is_one_rest(merged(t), (NUMBER_OF_OCTAVES - 1) as u8);
}

/// Converting the same tablature twice gives the same result.
pub proof fn lemma_conversion_is_deterministic(a: Seq<char>, b: Seq<char>)
    requires
        a == b,
    ensures
        spec_convert(a) == spec_convert(b),
{
}

} // verus!
