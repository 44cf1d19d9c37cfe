//! The tablature scanner: a character-driven state machine that builds one
//! pitch timeline per octave.
use vstd::prelude::*;

use crate::pitch::{pitch_of_char, spec_pitch_of_char, Pitch};

verus! {

/// The number of octaves, and so of staff lines, a section may hold.
pub const NUMBER_OF_OCTAVES: usize = 9;

/// Why a tablature could not be converted.
#[derive(Clone, Copy, Debug, PartialEq, Eq, Structural)]
pub enum ConvertError {
    /// A character other than a digit or a newline where a staff line starts.
    MalformedOctaveHeader,
    /// An octave digit of `NUMBER_OF_OCTAVES` or more.
    OctaveOutOfRange,
    /// Two staff lines of one section with bodies of different lengths.
    UnequalSectionWidths,
    /// A second staff line for an octave within one section.
    RepeatedOctaveLine,
    /// No beat column at all.
    EmptyInput,
}

/// Where the scanner stands within a staff line.
#[derive(Clone, Copy, Debug, PartialEq, Eq, Structural)]
pub enum ParserState {
    BeginningOfLine,
    FirstBar,
    Body,
    EndOfLine,
}

/// The mathematical state of a scan.
pub struct ScanModel {
    pub state: ParserState,
    /// One pitch per beat column, for each octave.
    pub timelines: Seq<Seq<Pitch>>,
    /// Which octaves have a staff line in the current section.
    pub present: Seq<bool>,
    /// The octave of the staff line read last.
    pub octave: nat,
    /// Beat columns read so far on the current staff line.
    pub line_width: nat,
    /// The body length of the first finished staff line of the current section.
    pub section_width: Option<nat>,
    /// Beat columns of all closed sections.
    pub columns: nat,
}

pub open spec fn rests(n: nat) -> Seq<Pitch> {
    Seq::new(n, |i: int| Pitch::Rest)
}

pub open spec fn initial_model() -> ScanModel {
    ScanModel {
        state: ParserState::BeginningOfLine,
        timelines: Seq::new(NUMBER_OF_OCTAVES as nat, |o: int| Seq::<Pitch>::empty()),
        present: Seq::new(NUMBER_OF_OCTAVES as nat, |o: int| false),
        octave: 0,
        line_width: 0,
        section_width: None,
        columns: 0,
    }
}

pub open spec fn width_of(section_width: Option<nat>) -> nat {
    match section_width {
        Some(w) => w,
        None => 0,
    }
}

/// Ends a section: each octave without a staff line in it gets one rest per
/// beat column of the section.
pub open spec fn close_section(m: ScanModel) -> ScanModel {
    let w = width_of(m.section_width);
    ScanModel {
        timelines: Seq::new(
            NUMBER_OF_OCTAVES as nat,
            |o: int|
                if m.present[o] {
                    m.timelines[o]
                } else {
                    m.timelines[o] + rests(w)
                },
        ),
        present: Seq::new(NUMBER_OF_OCTAVES as nat, |o: int| false),
        section_width: None,
        columns: m.columns + w,
        ..m
    }
}

/// Ends a staff line at its closing bar; its width must match the section's.
pub open spec fn end_line(m: ScanModel) -> Result<ScanModel, ConvertError> {
    match m.section_width {
        None => Ok(
            ScanModel { state: ParserState::EndOfLine, section_width: Some(m.line_width), ..m },
        ),
        Some(w) => if w == m.line_width {
            Ok(ScanModel { state: ParserState::EndOfLine, ..m })
        } else {
            Err(ConvertError::UnequalSectionWidths)
        },
    }
}

pub open spec fn is_digit(c: char) -> bool {
    '0' <= c && c <= '9'
}

pub open spec fn digit_value(c: char) -> nat {
    (c as u32 - '0' as u32) as nat
}

/// One transition of the scanner on character `c`.
pub open spec fn step(m: ScanModel, c: char) -> Result<ScanModel, ConvertError> {
    match m.state {
        ParserState::BeginningOfLine => {
            if c == '\n' {
                Ok(close_section(m))
            } else if !is_digit(c) {
                Err(ConvertError::MalformedOctaveHeader)
            } else if digit_value(c) >= NUMBER_OF_OCTAVES {
                Err(ConvertError::OctaveOutOfRange)
            } else if m.present[digit_value(c) as int] {
                Err(ConvertError::RepeatedOctaveLine)
            } else {
                Ok(
                    ScanModel {
                        state: ParserState::FirstBar,
                        present: m.present.update(digit_value(c) as int, true),
                        octave: digit_value(c),
                        line_width: 0,
                        ..m
                    },
                )
            }
        },
        ParserState::FirstBar => Ok(ScanModel { state: ParserState::Body, ..m }),
        ParserState::Body => {
            if c == '|' {
                end_line(m)
            } else {
                Ok(
                    ScanModel {
                        timelines: m.timelines.update(
                            m.octave as int,
                            m.timelines[m.octave as int].push(spec_pitch_of_char(c)),
                        ),
                        line_width: m.line_width + 1,
                        ..m
                    },
                )
            }
        },
        ParserState::EndOfLine => Ok(ScanModel { state: ParserState::BeginningOfLine, ..m }),
    }
}

/// Runs the scanner from `m` over `s`, stopping at the first error.
pub open spec fn scan_from(m: ScanModel, s: Seq<char>) -> Result<ScanModel, ConvertError>
    decreases s.len(),
{
    if s.len() == 0 {
        Ok(m)
    } else {
        match step(m, s[0]) {
            Ok(m2) => scan_from(m2, s.drop_first()),
            Err(e) => Err(e),
        }
    }
}

pub open spec fn reading_line(m: ScanModel) -> bool {
    m.state is FirstBar || m.state is Body
}

/// At the end of the input an unfinished staff line ends and the last
/// section closes.
pub open spec fn finish_model(m: ScanModel) -> Result<ScanModel, ConvertError> {
    if reading_line(m) {
        match end_line(m) {
            Ok(m2) => Ok(close_section(m2)),
            Err(e) => Err(e),
        }
    } else {
        Ok(close_section(m))
    }
}

/// The scan of a whole input: all of it, then the end of input.
pub open spec fn scan(s: Seq<char>) -> Result<ScanModel, ConvertError> {
    match scan_from(initial_model(), s) {
        Ok(m) => finish_model(m),
        Err(e) => Err(e),
    }
}

/// The invariant of a scan: each octave's timeline holds the closed sections'
/// columns, plus the current section's for an octave that has a line in it.
pub open spec fn model_wf(m: ScanModel) -> bool {
    &&& m.timelines.len() == NUMBER_OF_OCTAVES
    &&& m.present.len() == NUMBER_OF_OCTAVES
    &&& m.octave < NUMBER_OF_OCTAVES
    &&& (reading_line(m) || m.section_width is Some) ==> m.present[m.octave as int]
    &&& forall|o: int|
        0 <= o < NUMBER_OF_OCTAVES && !m.present[o] ==> #[trigger] m.timelines[o].len()
            == m.columns
    &&& forall|o: int|
        0 <= o < NUMBER_OF_OCTAVES && #[trigger] m.present[o] && !(reading_line(m) && o
            == m.octave) ==> m.section_width is Some
    &&& forall|o: int|
        0 <= o < NUMBER_OF_OCTAVES && m.present[o] && !(reading_line(m) && o == m.octave)
            ==> #[trigger] m.timelines[o].len() == m.columns + width_of(m.section_width)
    &&& reading_line(m) ==> m.timelines[m.octave as int].len() == m.columns + m.line_width
}

/// Each transition keeps the timelines in step.
pub proof fn lemma_step_keeps_wf(m: ScanModel, c: char)
    requires
        model_wf(m),
        step(m, c) is Ok,
    ensures
        model_wf(step(m, c)->Ok_0),
{
    let m2 = step(m, c)->Ok_0;
    if m.state is BeginningOfLine && c == '\n' {
        assert(model_wf(m2));
    } else if m.state is Body && c != '|' {
        assert(model_wf(m2));
    }
}

proof fn lemma_scan_from_keeps_wf(m: ScanModel, s: Seq<char>)
    requires
        model_wf(m),
        scan_from(m, s) is Ok,
    ensures
        model_wf(scan_from(m, s)->Ok_0),
    decreases s.len(),
{
    if s.len() > 0 {
        lemma_step_keeps_wf(m, s[0]);
        lemma_scan_from_keeps_wf(step(m, s[0])->Ok_0, s.drop_first());
    }
}

/// After a whole input, all timelines are as long as the columns counted.
pub proof fn lemma_scan_aligned(s: Seq<char>)
    requires
        scan(s) is Ok,
    ensures
        scan(s)->Ok_0.timelines.len() == NUMBER_OF_OCTAVES,
        forall|o: int|
            0 <= o < NUMBER_OF_OCTAVES ==> #[trigger] scan(s)->Ok_0.timelines[o].len()
                == scan(s)->Ok_0.columns,
{
    let m0 = initial_model();
    assert(model_wf(m0));
    lemma_scan_from_keeps_wf(m0, s);
    let m = scan_from(m0, s)->Ok_0;
    if reading_line(m) {
        let m2 = end_line(m)->Ok_0;
        assert(model_wf(m2));
        assert(model_wf(close_section(m2)));
    } else {
        assert(model_wf(close_section(m)));
    }
}

/// After `n` characters, the columns counted so far fit in those characters.
pub open spec fn columns_within(m: ScanModel, n: nat) -> bool {
    &&& m.columns + width_of(m.section_width) <= n
    &&& reading_line(m) ==> m.columns + m.line_width <= n
}

proof fn lemma_scan_from_columns(m: ScanModel, s: Seq<char>, n: nat)
    requires
        columns_within(m, n),
        scan_from(m, s) is Ok,
    ensures
        columns_within(scan_from(m, s)->Ok_0, n + s.len()),
    decreases s.len(),
{
    if s.len() > 0 {
        let m2 = step(m, s[0])->Ok_0;
        assert(columns_within(m2, n + 1));
        lemma_scan_from_columns(m2, s.drop_first(), n + 1);
    }
}

/// A scan never counts more beat columns than the input has characters.
pub proof fn lemma_columns_within_input(s: Seq<char>)
    requires
        scan(s) is Ok,
    ensures
        scan(s)->Ok_0.columns <= s.len(),
{
    lemma_scan_from_columns(initial_model(), s, 0);
}

/// A scan in progress.
pub struct Scanner {
    state: ParserState,
    timelines: Vec<Vec<Pitch>>,
    present: Vec<bool>,
    octave: usize,
    line_width: usize,
    section_width: Option<usize>,
    columns: usize,
}

/// The pitch sequences held in a vector of timelines.
pub open spec fn timelines_view(t: Vec<Vec<Pitch>>) -> Seq<Seq<Pitch>> {
    Seq::new(t@.len(), |o: int| t@[o]@)
}

pub open spec fn opt_view(w: Option<usize>) -> Option<nat> {
    match w {
        Some(w) => Some(w as nat),
        None => None,
    }
}

impl View for Scanner {
    type V = ScanModel;

    closed spec fn view(&self) -> ScanModel {
        ScanModel {
            state: self.state,
            timelines: timelines_view(self.timelines),
            present: self.present@,
            octave: self.octave as nat,
            line_width: self.line_width as nat,
            section_width: opt_view(self.section_width),
            columns: self.columns as nat,
        }
    }
}

fn push_rests(t: &mut Vec<Pitch>, n: usize)
    ensures
        final(t)@ == old(t)@ + rests(n as nat),
{
    for i in 0..n
        invariant
            t@ == old(t)@ + rests(i as nat),
    {
        t.push(Pitch::Rest);
        assert(t@ =~= old(t)@ + rests((i + 1) as nat));
    }
}

impl Scanner {
    pub closed spec fn wf(&self) -> bool {
        model_wf(self@)
    }

    /// A scanner that has read nothing.
    pub fn new() -> (r: Scanner)
        ensures
            r.wf(),
            r@ == initial_model(),
    {
        let mut timelines: Vec<Vec<Pitch>> = Vec::new();
        let mut present: Vec<bool> = Vec::new();
        for o in 0..NUMBER_OF_OCTAVES
            invariant
                timelines@.len() == o,
                present@.len() == o,
                forall|j: int| 0 <= j < o ==> (#[trigger] timelines@[j])@ == Seq::<Pitch>::empty(),
                forall|j: int| 0 <= j < o ==> !(#[trigger] present@[j]),
        {
            timelines.push(Vec::new());
            present.push(false);
        }
        let r = Scanner {
            state: ParserState::BeginningOfLine,
            timelines,
            present,
            octave: 0,
            line_width: 0,
            section_width: None,
            columns: 0,
        };
        assert(r@.timelines =~= initial_model().timelines);
        assert(r@.present =~= initial_model().present);
        r
    }

    /// Ends the current section, rest-filling the octaves it left out.
    fn close_section(&mut self)
        requires
            old(self).wf(),
            !reading_line(old(self)@),
        ensures
            final(self).wf(),
            final(self)@ == close_section(old(self)@),
    {
        let ghost m = self@;
        let w: usize = match self.section_width {
            Some(w) => {
                let held = self.timelines[self.octave].len();
                assert(m.timelines[m.octave as int].len() == m.columns + w);
                w
            },
            None => 0,
        };
        let ghost closed = close_section(m);
        for o in 0..NUMBER_OF_OCTAVES
            invariant
                m == old(self)@,
                model_wf(m),
                closed == close_section(m),
                w == width_of(m.section_width),
                self.state == m.state,
                self.octave == m.octave,
                self.line_width == m.line_width,
                opt_view(self.section_width) == m.section_width,
                self.columns == m.columns,
                self.timelines@.len() == NUMBER_OF_OCTAVES,
                self.present@.len() == NUMBER_OF_OCTAVES,
                forall|j: int| 0 <= j < o ==> (#[trigger] self.timelines@[j])@ == closed.timelines[j],
                forall|j: int|
                    o <= j < NUMBER_OF_OCTAVES ==> (#[trigger] self.timelines@[j])@ == m.timelines[j],
                forall|j: int| 0 <= j < o ==> !(#[trigger] self.present@[j]),
                forall|j: int| o <= j < NUMBER_OF_OCTAVES ==> #[trigger] self.present@[j] == m.present[j],
        {
            if !self.present[o] {
                push_rests(&mut self.timelines[o], w);
            }
            self.present.set(o, false);
        }
        self.section_width = None;
        self.columns = self.columns + w;
        assert(self@.timelines =~= closed.timelines);
        assert(self@.present =~= closed.present);
    }

    /// Ends the staff line being read at its closing bar.
    fn end_line(&mut self) -> (r: Result<(), ConvertError>)
        requires
            old(self).wf(),
            reading_line(old(self)@),
        ensures
            match end_line(old(self)@) {
                Ok(m) => r is Ok && final(self)@ == m && final(self).wf(),
                Err(e) => r == Err::<(), ConvertError>(e),
            },
    {
        match self.section_width {
            None => {
                self.section_width = Some(self.line_width);
                self.state = ParserState::EndOfLine;
                Ok(())
            },
            Some(w) => {
                if w == self.line_width {
                    self.state = ParserState::EndOfLine;
                    Ok(())
                } else {
                    Err(ConvertError::UnequalSectionWidths)
                }
            },
        }
    }

    /// Reads one character of the tablature.
    pub fn feed(&mut self, c: char) -> (r: Result<(), ConvertError>)
        requires
            old(self).wf(),
        ensures
            match step(old(self)@, c) {
                Ok(m) => r is Ok && final(self)@ == m && final(self).wf(),
                Err(e) => r == Err::<(), ConvertError>(e),
            },
    {
        match self.state {
            ParserState::BeginningOfLine => {
                if c == '\n' {
                    self.close_section();
                    Ok(())
                } else if !('0' <= c && c <= '9') {
                    Err(ConvertError::MalformedOctaveHeader)
                } else {
                    let d = (c as u32 - '0' as u32) as usize;
                    if d >= NUMBER_OF_OCTAVES {
                        Err(ConvertError::OctaveOutOfRange)
                    } else if self.present[d] {
                        Err(ConvertError::RepeatedOctaveLine)
                    } else {
                        self.present.set(d, true);
                        self.octave = d;
                        self.line_width = 0;
                        self.state = ParserState::FirstBar;
                        Ok(())
                    }
                }
            },
            ParserState::FirstBar => {
                self.state = ParserState::Body;
                Ok(())
            },
            ParserState::Body => {
                if c == '|' {
                    self.end_line()
                } else {
                    let ghost m = self@;
                    self.timelines[self.octave].push(pitch_of_char(c));
                    let held = self.timelines[self.octave].len();
                    assert(held == m.columns + m.line_width + 1);
                    self.line_width = self.line_width + 1;
                    assert(self@.timelines =~= step(m, c)->Ok_0.timelines);
                    Ok(())
                }
            },
            ParserState::EndOfLine => {
                self.state = ParserState::BeginningOfLine;
                Ok(())
            },
        }
    }

    /// Ends the input: finishes an open staff line and closes the last
    /// section, then hands out the timelines, all of one length.
    pub fn finish(self) -> (r: Result<Vec<Vec<Pitch>>, ConvertError>)
        requires
            self.wf(),
        ensures
            match finish_model(self@) {
                Ok(m) => r matches Ok(t) && timelines_view(t) == m.timelines
                    && m.timelines.len() == NUMBER_OF_OCTAVES
                    && forall|o: int| 0 <= o < NUMBER_OF_OCTAVES ==> #[trigger] m.timelines[o].len() == m.columns,
                Err(e) => r == Err::<Vec<Vec<Pitch>>, ConvertError>(e),
            },
    {
        let mut s = self;
        if s.state == ParserState::FirstBar || s.state == ParserState::Body {
            match s.end_line() {
                Ok(()) => {},
                Err(e) => {
                    return Err(e);
                },
            }
        }
        s.close_section();
        Ok(s.timelines)
    }
}

} // verus!
