//! Collapsing the merged line into notes, and rendering them.
use vstd::prelude::*;

use crate::duration::NoteDuration;
use crate::pitch::Pitch;

verus! {

/// One emitted note.
#[derive(Clone, Copy, Debug, PartialEq, Eq, Structural)]
pub struct Note {
    pub pitch: Pitch,
    pub octave: u8,
    pub duration: NoteDuration,
}

impl Note {
    pub open spec fn spec_c_macro(self) -> Seq<char> {
        self.duration.spec_c_macro(self.pitch, self.octave)
    }

    /// Renders the note as one macro call.
    pub fn as_c_macro(&self) -> (r: String)
        ensures
            r@ == self.spec_c_macro(),
    {
        self.duration.as_c_macro(self.pitch, self.octave)
    }
}

/// The note that entry `e` starts, lasting `beats` beats.
pub open spec fn note_of(e: (u8, Pitch), beats: nat) -> Note {
    Note { pitch: e.1, octave: e.0, duration: NoteDuration::spec_from_beats(beats as usize) }
}

/// The runs of a merged line, each an entry that starts a note and its beat
/// count. The first entry, and every later entry that is not a rest, starts a
/// run; a rest after the first entry lengthens the run before it by one beat.
pub open spec fn runs(s: Seq<(u8, Pitch)>) -> Seq<((u8, Pitch), nat)>
    decreases s.len(),
{
    if s.len() == 0 {
        Seq::empty()
    } else {
        let prev = runs(s.drop_last());
        if s.len() > 1 && s.last().1 is Rest {
            prev.update(prev.len() - 1, (prev.last().0, prev.last().1 + 1))
        } else {
            prev.push((s.last(), 1))
        }
    }
}

/// The notes of a merged line, one per run.
pub open spec fn collapse(s: Seq<(u8, Pitch)>) -> Seq<Note> {
    runs(s).map_values(|r: ((u8, Pitch), nat)| note_of(r.0, r.1))
}

proof fn lemma_runs_shape(s: Seq<(u8, Pitch)>)
    ensures
        s.len() > 0 ==> runs(s).len() > 0,
        s.len() > 0 ==> 1 <= runs(s).last().1 <= s.len(),
        runs(s).len() <= s.len(),
    decreases s.len(),
{
    if s.len() > 0 {
        lemma_runs_shape(s.drop_last());
    }
}

/// A run of rests right after an entry that starts a note (the first entry,
/// or one that sounds) lengthens that note, by one beat each, instead of
/// making notes of their own.
pub proof fn lemma_rests_extend_note(s: Seq<(u8, Pitch)>, p: int, k: nat)
    requires
        0 <= p,
        p + k < s.len(),
        p == 0 || !(s[p].1 is Rest),
        forall|j: int| p < j <= p + k ==> #[trigger] s[j].1 is Rest,
    ensures
        runs(s.take(p + k + 1)) == runs(s.take(p)).push((s[p], k + 1)),
    decreases k,
{
    if k == 0 {
        assert(s.take(p + 1).drop_last() =~= s.take(p));
    } else {
        lemma_rests_extend_note(s, p, (k - 1) as nat);
        assert(s.take(p + k + 1).drop_last() =~= s.take(p + k));
        assert(s[p + k].1 is Rest);
    }
}

/// Groups the merged line into notes.
pub fn collapse_notes(line: &Vec<(u8, Pitch)>) -> (r: Vec<Note>)
    requires
        line@.len() > 0,
    ensures
        r@ == collapse(line@),
{
    let n = line.len();
    let mut start: usize = 0;
    let mut beats: usize = 1;
    let mut notes: Vec<Note> = Vec::new();
    proof {
        lemma_rests_extend_note(line@, 0, 0);
    }
    for i in 1..n
        invariant
            n == line@.len(),
            start < i,
            beats == i - start,
            start == 0 || !(line@[start as int].1 is Rest),
            forall|j: int| start < j < i ==> #[trigger] line@[j].1 is Rest,
            runs(line@.take(start as int)).map_values(
                |r: ((u8, Pitch), nat)| note_of(r.0, r.1),
            ) == notes@,
    {
        if line[i].1 == Pitch::Rest {
            beats = beats + 1;
        } else {
            proof {
                lemma_rests_extend_note(line@, start as int, (beats - 1) as nat);
                assert(line@.take(i as int) == line@.take(start + beats));
            }
            let note = Note {
                pitch: line[start].1,
                octave: line[start].0,
                duration: NoteDuration::from_beats(beats),
            };
            notes.push(note);
            assert(runs(line@.take(i as int)).map_values(
                |r: ((u8, Pitch), nat)| note_of(r.0, r.1),
            ) =~= notes@);
            start = i;
            beats = 1;
        }
    }
    proof {
        lemma_rests_extend_note(line@, start as int, (beats - 1) as nat);
        assert(line@.take(n as int) =~= line@);
    }
    let note = Note {
        pitch: line[start].1,
        octave: line[start].0,
        duration: NoteDuration::from_beats(beats),
    };
    notes.push(note);
    assert(notes@ =~= collapse(line@));
    notes
}

/// The rendered notes, joined by commas.
pub open spec fn render(ns: Seq<Note>) -> Seq<char>
    decreases ns.len(),
{
    if ns.len() == 0 {
        Seq::empty()
    } else if ns.len() == 1 {
        ns[0].spec_c_macro()
    } else {
        render(ns.drop_last()) + ","@ + ns.last().spec_c_macro()
    }
}

/// Renders the notes as a comma-separated list of macro calls.
pub fn render_notes(notes: &Vec<Note>) -> (r: String)
    ensures
        r@ == render(notes@),
{
    let mut out = String::new();
    for i in 0..notes.len()
        invariant
            out@ == render(notes@.take(i as int)),
    {
        if i > 0 {
            out.append(",");
        }
        let call = notes[i].as_c_macro();
        out.append(call.as_str());
        assert(notes@.take(i + 1).drop_last() =~= notes@.take(i as int));
    }
    assert(notes@.take(notes@.len() as int) =~= notes@);
    out
}


/// The total length of notes, in sixteenths of a beat.
pub open spec fn total_sixteenths(ns: Seq<Note>) -> nat
    decreases ns.len(),
{
    if ns.len() == 0 {
        0
    } else {
        total_sixteenths(ns.drop_last()) + ns.last().duration.sixteenths()
    }
}

/// The notes of a merged line last exactly as many beats as the line has entries.
pub proof fn lemma_collapse_keeps_beats(s: Seq<(u8, Pitch)>)
    requires
        s.len() <= usize::MAX,
    ensures
        total_sixteenths(collapse(s)) == 16 * s.len(),
    decreases s.len(),
{
    if s.len() > 0 {
        let prev = s.drop_last();
        lemma_collapse_keeps_beats(prev);
        lemma_runs_shape(prev);
        lemma_runs_shape(s);
        let c = collapse(s);
        let c0 = collapse(prev);
        if s.len() > 1 && s.last().1 is Rest {
            assert(c.drop_last() =~= c0.drop_last());
        } else {
            assert(c.drop_last() =~= c0);
        }
    }
}

/// A line of rests only, all in one octave, collapses to a single rest note
/// as long as the whole line.
pub proof fn lemma_silent_line_is_one_rest(s: Seq<(u8, Pitch)>, octave: u8)
    requires
        0 < s.len() <= usize::MAX,
        forall|j: int| 0 <= j < s.len() ==> #[trigger] s[j] == (octave, Pitch::Rest),
    ensures
        collapse(s) == seq![
            Note {
                pitch: Pitch::Rest,
                octave: octave,
                duration: NoteDuration::spec_from_beats(s.len() as usize),
            },
        ],
{
    lemma_rests_extend_note(s, 0, (s.len() - 1) as nat);
    assert(s.take(s.len() as int) =~= s);
    assert(collapse(s) =~= seq![note_of(s[0], s.len())]);
}

} // verus!
