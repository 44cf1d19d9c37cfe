//! Merging the per-octave timelines into one melodic line.
use vstd::prelude::*;

use crate::pitch::Pitch;
use crate::scanner::{timelines_view, ConvertError, NUMBER_OF_OCTAVES};

verus! {

/// Nine timelines of one common length.
pub open spec fn aligned(t: Seq<Seq<Pitch>>) -> bool {
    &&& t.len() == NUMBER_OF_OCTAVES
    &&& forall|o: int| 0 <= o < NUMBER_OF_OCTAVES ==> #[trigger] t[o].len() == t[0].len()
}

/// The entry for column `i`, looking from octave `o` upwards: the first
/// octave that sounds, or the top octave when none below it does.
pub open spec fn pick_from(t: Seq<Seq<Pitch>>, i: int, o: nat) -> (u8, Pitch)
    decreases NUMBER_OF_OCTAVES - o,
{
    if o + 1 >= NUMBER_OF_OCTAVES {
        ((NUMBER_OF_OCTAVES - 1) as u8, t[NUMBER_OF_OCTAVES - 1][i])
    } else if !(t[o as int][i] is Rest) {
        (o as u8, t[o as int][i])
    } else {
        pick_from(t, i, o + 1)
    }
}

/// The merged timeline: for each column, the lowest sounding octave's pitch,
/// or a rest in the top octave.
pub open spec fn merged(t: Seq<Seq<Pitch>>) -> Seq<(u8, Pitch)> {
    Seq::new(t[0].len(), |i: int| pick_from(t, i, 0))
}

/// Flattens the nine timelines into one line; fails on a piece without columns.
pub fn merge_octaves(timelines: &Vec<Vec<Pitch>>) -> (r: Result<Vec<(u8, Pitch)>, ConvertError>)
    requires
        aligned(timelines_view(*timelines)),
    ensures
        match r {
            Ok(line) => timelines@[0]@.len() > 0 && line@ == merged(timelines_view(*timelines)),
            Err(e) => timelines@[0]@.len() == 0 && e == ConvertError::EmptyInput,
        },
{
    let ghost t = timelines_view(*timelines);
    let n = timelines[0].len();
    if n == 0 {
        return Err(ConvertError::EmptyInput);
    }
    let mut line: Vec<(u8, Pitch)> = Vec::new();
    for i in 0..n
        invariant
            t == timelines_view(*timelines),
            aligned(t),
            n == t[0].len(),
            line@ == merged(t).take(i as int),
    {
        let mut o: usize = 0;
        while o + 1 < NUMBER_OF_OCTAVES && timelines[o][i] == Pitch::Rest
            invariant
                t == timelines_view(*timelines),
                aligned(t),
                n == t[0].len(),
                i < n,
                o < NUMBER_OF_OCTAVES,
                pick_from(t, i as int, 0) == pick_from(t, i as int, o as nat),
            decreases NUMBER_OF_OCTAVES - o,
        {
            assert(t[o as int].len() == n);
            o = o + 1;
        }
        assert(t[o as int].len() == n);
        line.push((o as u8, timelines[o][i]));
        assert(line@ =~= merged(t).take(i + 1));
    }
    assert(line@ =~= merged(t));
    Ok(line)
}

/// Where two octaves sound in one column and none below the lower one does,
/// the merged line takes the lower octave's pitch, whatever the higher one holds.
pub proof fn lemma_octave_precedence(t: Seq<Seq<Pitch>>, i: int, lower: int, higher: int)
    requires
        aligned(t),
        0 <= i < t[0].len(),
        0 <= lower < higher < NUMBER_OF_OCTAVES,
        !(t[lower][i] is Rest),
        !(t[higher][i] is Rest),
        forall|o: int| 0 <= o < lower ==> #[trigger] t[o][i] is Rest,
    ensures
        merged(t)[i] == (lower as u8, t[lower][i]),
{
    lemma_pick_first_sounding(t, i, 0, lower);
}

proof fn lemma_pick_first_sounding(t: Seq<Seq<Pitch>>, i: int, o: nat, lower: int)
    requires
        o <= lower < NUMBER_OF_OCTAVES,
        !(t[lower][i] is Rest),
        forall|j: int| o <= j < lower ==> #[trigger] t[j][i] is Rest,
    ensures
        pick_from(t, i, o) == (lower as u8, t[lower][i]),
    decreases lower - o,
{
    if o < lower {
        lemma_pick_first_sounding(t, i, o + 1, lower);
    }
}

/// A column where no octave sounds merges to a rest in the top octave.
pub proof fn lemma_silent_column(t: Seq<Seq<Pitch>>, i: int, o: nat)
    requires
        o < NUMBER_OF_OCTAVES,
        forall|j: int| o <= j < NUMBER_OF_OCTAVES ==> #[trigger] t[j][i] is Rest,
    ensures
        pick_from(t, i, o) == ((NUMBER_OF_OCTAVES - 1) as u8, Pitch::Rest),
    decreases NUMBER_OF_OCTAVES - o,
{
    if o + 1 < NUMBER_OF_OCTAVES {
        lemma_silent_column(t, i, o + 1);
    }
}

} // verus!
