use letter_c::{
    collapse_notes, make_qmk_note_sequence_from_letter_notes, merge_octaves, pitch_of_char,
    render_notes, ConvertError, Note, NoteDuration, Pitch, Scanner, NUMBER_OF_OCTAVES,
};

const MEGALOVANIA_RAW: &str = "5|--d---------------d-------|
4|dd--a--G-g-f-dfgcc--a--G-g|

5|--------d---------------d-|
4|-f-dfg----a--G-g-f-dfg----|
3|------bb--------------AA--|

5|--------------d-----------|
4|a--G-g-f-dfgdd--a--G-g-f-d|

5|----d---------------d-----|
4|fgcc--a--G-g-f-dfg----a--G|
3|------------------bb------|

5|----------d---------------|
4|-g-f-dfg----a--G-g-f-dfgdd|
3|--------AA----------------|

5|d---------------d---------|
4|--a--G-g-f-dfgcc--a--G-g-f|

5|------d---------------d---|
4|-dfg----a--G-g-f-dfg----a-|
3|----bb--------------AA----|

5|------------d-------------|
4|-G-g-f-dfgdd--a--G-g-f-dfg|

5|--d---------------d-------|
4|cc--a--G-g-f-dfg----a--G-g|
3|----------------bb--------|

5|--------d-----------------|
4|-f-dfg----a--G-g-f-dfgf-ff|
3|------AA------------------|

4|-f-f-d-d--d-ffff-g-G-gfdfg|

5|-------------c----d-d-d-dc|
4|--f-ff-g-G-a---a-------a--|

4|--------a-aa-a-a-g-g----a-|

5|---------d----d-------c---|
4|aa-a-g-a---ag---a-g-f---a-|

5|-----------c--------------|
4|g-f-d-ef-a----------------|

4|--fdfgGgfdGgfdfg--------G-|

5|-c-------------c--C-------|
4|a--aGgfdef-g-G------G-Ggfg|

4|--------------f-e---d---e-|
3|--------f-g-a-------------|

4|--f---g---e---a-------aGgF|

4|feDdC-------D-------------|

4|--fdfgGgfdGgfdeg--------G-|

5|--c-------------c-C-------|
4|a---aGgfdef-g-a-----G-Ggfg|

4|------------f-e---d---e---|
3|------f-g-a---------------|

4|f---g---e---a-------aGgFfe|

4|DdC-------D---------------|
3|--------------------b-----|

4|------f---e-------d-------|

4|f-------------------------|

4|------------------f---e---|
3|------b-------------------|

4|----d-----------d---------|

3|----------------------b---|

4|--------f---e-------d-----|

4|--f-----------------------|

4|--------------------f---e-|
3|--------b-----------------|

4|------d-------d-----------|

5|----d---------------d-----|
4|--dd--a--G-g-f-dfgdd--a--G|

5|----------d---------------|
4|-g-f-dfgCC--a--G-g-f-dfgcc|

5|d---------------d---------|
4|--a--G-g-f-dfgdd--a--G-g-f|

5|------d---------------d---|
4|-dfgdd--a--G-g-f-dfgCC--a-|

5|------------d-------------|
4|-G-g-f-dfgcc--a--G-g-f-dfg|";

#[test]
fn test_megalovania() {
    println!(
        "{:?}",
        make_qmk_note_sequence_from_letter_notes(MEGALOVANIA_RAW)
    );
}

#[test]
fn melody_converts_and_is_deterministic() {
    let first = make_qmk_note_sequence_from_letter_notes(MEGALOVANIA_RAW);
    let second = make_qmk_note_sequence_from_letter_notes(MEGALOVANIA_RAW);
    assert!(first.is_ok());
    assert_eq!(first, second);
    let text = first.unwrap();
    assert!(text.starts_with("Q__NOTE(NOTE_D4),Q__NOTE(NOTE_D4),H__NOTE(NOTE_D5),HD_NOTE(NOTE_A4),"));
    assert!(!text.ends_with(","));
}

fn convert(s: &str) -> Result<String, ConvertError> {
    make_qmk_note_sequence_from_letter_notes(s)
}

#[test]
fn two_octave_section() {
    assert_eq!(
        convert("5|--d--|\n4|dd-a-|\n"),
        Ok("Q__NOTE(NOTE_D4),Q__NOTE(NOTE_D4),Q__NOTE(NOTE_D5),H__NOTE(NOTE_A4)".to_string())
    );
}

#[test]
fn silent_section_is_one_rest() {
    assert_eq!(convert("4|----|\n"), Ok("W__NOTE(NOTE_REST)".to_string()));
    assert_eq!(convert("3|-----|\n"), Ok("M__NOTE(NOTE_REST, 80)".to_string()));
    assert_eq!(convert("2|---|\n7|---|\n\n"), Ok("HD_NOTE(NOTE_REST)".to_string()));
}

#[test]
fn beats_add_up_to_columns() {
    assert_eq!(convert("4|a--b|\n"), Ok("HD_NOTE(NOTE_A4),Q__NOTE(NOTE_B4)".to_string()));
    assert_eq!(
        convert("4|a-----b---|\n"),
        Ok("WD_NOTE(NOTE_A4),W__NOTE(NOTE_B4)".to_string())
    );
}

#[test]
fn lower_octave_wins() {
    assert_eq!(convert("4|a|\n3|c|\n"), Ok("Q__NOTE(NOTE_C3)".to_string()));
    assert_eq!(convert("3|c|\n4|a|\n"), Ok("Q__NOTE(NOTE_C3)".to_string()));
    assert_eq!(convert("8|g|\n0|E|\n"), Ok("Q__NOTE(NOTE_ES0)".to_string()));
}

#[test]
fn rests_extend_the_note_before() {
    assert_eq!(convert("4|a---|\n"), Ok("W__NOTE(NOTE_A4)".to_string()));
    assert_eq!(convert("4|a-a-|\n"), Ok("H__NOTE(NOTE_A4),H__NOTE(NOTE_A4)".to_string()));
    assert_eq!(convert("4|aa|\n"), Ok("Q__NOTE(NOTE_A4),Q__NOTE(NOTE_A4)".to_string()));
}

#[test]
fn leading_rest_is_its_own_note() {
    assert_eq!(convert("4|-a|\n"), Ok("Q__NOTE(NOTE_REST),Q__NOTE(NOTE_A4)".to_string()));
    assert_eq!(convert("4|--a|\n"), Ok("H__NOTE(NOTE_REST),Q__NOTE(NOTE_A4)".to_string()));
}

#[test]
fn absent_octaves_are_padded_per_section() {
    assert_eq!(
        convert("5|d-|\n\n4|a-|\n"),
        Ok("H__NOTE(NOTE_D5),H__NOTE(NOTE_A4)".to_string())
    );
    assert_eq!(
        convert("5|d-|\n\n4|-a|\n"),
        Ok("HD_NOTE(NOTE_D5),Q__NOTE(NOTE_A4)".to_string())
    );
}

#[test]
fn end_of_input_closes_the_section() {
    assert_eq!(convert("4|ab"), Ok("Q__NOTE(NOTE_A4),Q__NOTE(NOTE_B4)".to_string()));
    assert_eq!(convert("4|ab|"), Ok("Q__NOTE(NOTE_A4),Q__NOTE(NOTE_B4)".to_string()));
}

#[test]
fn sharps_and_explicit_lengths() {
    assert_eq!(convert("4|A|\n"), Ok("Q__NOTE(NOTE_AS4)".to_string()));
    assert_eq!(convert("4|G----|\n"), Ok("M__NOTE(NOTE_GS4, 80)".to_string()));
    assert_eq!(
        convert("4|F------------|\n"),
        Ok("M__NOTE(NOTE_FS4, 208)".to_string())
    );
    assert_eq!(convert("4|B-----------|\n"), Ok("BD_NOTE(NOTE_BS4)".to_string()));
}

#[test]
fn long_notes_do_not_overflow() {
    let body = "-".repeat(299);
    let input = format!("4|c{}|\n", body);
    assert_eq!(convert(&input), Ok("M__NOTE(NOTE_C4, 4800)".to_string()));
}

#[test]
fn error_malformed_header() {
    assert_eq!(convert("x|--|\n"), Err(ConvertError::MalformedOctaveHeader));
    assert_eq!(convert("4|a|\n |a|\n"), Err(ConvertError::MalformedOctaveHeader));
}

#[test]
fn error_octave_out_of_range() {
    assert_eq!(convert("9|--|\n"), Err(ConvertError::OctaveOutOfRange));
}

#[test]
fn error_unequal_widths() {
    assert_eq!(convert("4|--|\n3|---|\n"), Err(ConvertError::UnequalSectionWidths));
    assert_eq!(convert("5|ab|\n4"), Err(ConvertError::UnequalSectionWidths));
}

#[test]
fn error_repeated_octave() {
    assert_eq!(convert("4|--|\n4|--|\n"), Err(ConvertError::RepeatedOctaveLine));
    assert_eq!(convert("4|a-|\n\n4|b-|\n"), Ok("H__NOTE(NOTE_A4),H__NOTE(NOTE_B4)".to_string()));
}

#[test]
fn error_empty_input() {
    assert_eq!(convert(""), Err(ConvertError::EmptyInput));
    assert_eq!(convert("\n\n"), Err(ConvertError::EmptyInput));
    assert_eq!(convert("4||\n"), Err(ConvertError::EmptyInput));
}

#[test]
fn duration_names() {
    assert_eq!(NoteDuration::from_beats(1), NoteDuration::Quarter);
    assert_eq!(NoteDuration::from_beats(2), NoteDuration::Half);
    assert_eq!(NoteDuration::from_beats(3), NoteDuration::HalfDot);
    assert_eq!(NoteDuration::from_beats(4), NoteDuration::Whole);
    assert_eq!(NoteDuration::from_beats(6), NoteDuration::WholeDot);
    assert_eq!(NoteDuration::from_beats(8), NoteDuration::Breve);
    assert_eq!(NoteDuration::from_beats(12), NoteDuration::BreveDot);
    assert_eq!(NoteDuration::from_beats(5), NoteDuration::Other(5));
    assert_eq!(NoteDuration::from_beats(0), NoteDuration::Other(0));
    assert_eq!(NoteDuration::QuarterDot.normalize(), NoteDuration::QuarterDot);
    assert_eq!(NoteDuration::Whole.normalize(), NoteDuration::Whole);
    assert_eq!(NoteDuration::Other(7).normalize(), NoteDuration::Other(7));
    let once = NoteDuration::Other(12).normalize();
    assert_eq!(once.normalize(), once);
}

#[test]
fn rendering_pieces() {
    assert_eq!(Pitch::AS.as_c_macro(4), "NOTE_AS4");
    assert_eq!(Pitch::Rest.as_c_macro(8), "NOTE_REST");
    assert_eq!(
        NoteDuration::Other(5).as_c_macro(Pitch::A, 3),
        "M__NOTE(NOTE_A3, 80)"
    );
    assert_eq!(NoteDuration::QuarterDot.as_c_macro(Pitch::G, 6), "QD_NOTE(NOTE_G6)");
    let note = Note { pitch: Pitch::C, octave: 5, duration: NoteDuration::Breve };
    assert_eq!(note.as_c_macro(), "B__NOTE(NOTE_C5)");
    assert_eq!(pitch_of_char('d'), Pitch::D);
    assert_eq!(pitch_of_char('D'), Pitch::DS);
    assert_eq!(pitch_of_char('-'), Pitch::Rest);
    assert_eq!(pitch_of_char('h'), Pitch::Rest);
}

#[test]
fn pipeline_stages() {
    let mut scanner = Scanner::new();
    for c in "4|a-|\n3|-c|\n".chars() {
        assert_eq!(scanner.feed(c), Ok(()));
    }
    let timelines = scanner.finish().unwrap();
    assert_eq!(timelines.len(), NUMBER_OF_OCTAVES);
    assert_eq!(timelines[4], vec![Pitch::A, Pitch::Rest]);
    assert_eq!(timelines[3], vec![Pitch::Rest, Pitch::C]);
    assert_eq!(timelines[0], vec![Pitch::Rest, Pitch::Rest]);
    let line = merge_octaves(&timelines).unwrap();
    assert_eq!(line, vec![(4, Pitch::A), (3, Pitch::C)]);
    let notes = collapse_notes(&line);
    assert_eq!(notes.len(), 2);
    assert_eq!(render_notes(&notes), "Q__NOTE(NOTE_A4),Q__NOTE(NOTE_C3)");
    let empty: Vec<Vec<Pitch>> = vec![Vec::new(); NUMBER_OF_OCTAVES];
    assert_eq!(merge_octaves(&empty), Err(ConvertError::EmptyInput));
}
