use sniff::bytes::FlpError;
use sniff::chart::{BaseTempo, TimingError};
use sniff::conversion::{Conversion, Step};
use sniff::messages::batch_message;
use sniff::number::Real;
use sniff::pipeline::{
    batch_input, build_chart, check_preset, choose_tempo, find_id_by_name, find_target_name, jobs_of,
    single_input, split_input, split_plan, ChartInput, ConvertError, Merge, SplitJob,
};
use sniff::types::{ConversionMode, ConversionPreset, DifficultySlots, PatternInfo, Progress, Stats};

fn num(x: f64) -> Real {
    Real { bits: x.to_bits() }
}

fn file(format: u16, ppq: u16, data: &[u8]) -> Vec<u8> {
    let mut out = b"FLhd".to_vec();
    out.extend(6u32.to_le_bytes());
    out.extend(format.to_le_bytes());
    out.extend(0u16.to_le_bytes());
    out.extend(ppq.to_le_bytes());
    out.extend(b"FLdt");
    out.extend((data.len() as u32).to_le_bytes());
    out.extend(data);
    out
}

fn record(position: u32, key: u8) -> Vec<u8> {
    let mut out = vec![0u8; 24];
    out[0..4].copy_from_slice(&position.to_le_bytes());
    out[8] = 24;
    out[12] = key;
    out[21] = 100;
    out
}

fn pattern_events(id: u16, name: &str, notes: &[(u32, u8)]) -> Vec<u8> {
    let mut out = vec![65];
    out.extend(id.to_le_bytes());
    let mut text: Vec<u8> = name.encode_utf16().flat_map(|u| u.to_le_bytes()).collect();
    text.extend([0, 0]);
    out.push(193);
    out.push(text.len() as u8);
    out.extend(text);
    let block: Vec<u8> = notes.iter().flat_map(|&(p, k)| record(p, k)).collect();
    out.extend([224, (block.len() % 128) as u8 + 128, (block.len() / 128) as u8]);
    out.extend(block);
    out
}

fn tempo(value: u32) -> Vec<u8> {
    let mut out = vec![0x9c];
    out.extend(value.to_le_bytes());
    out
}

fn project(patterns: &[(u16, &str, &[(u32, u8)])]) -> Vec<u8> {
    let mut events = tempo(120_000);
    for (id, name, notes) in patterns {
        events.extend(pattern_events(*id, name, notes));
    }
    file(0, 96, &events)
}

fn score(notes: &[(u32, u8)]) -> Vec<u8> {
    let data: Vec<u8> = notes.iter().flat_map(|&(p, k)| record(p, k)).collect();
    file(0x10, 48, &data)
}

fn with_pattern(id: u16) -> ConversionPreset {
    let mut preset = ConversionPreset::default();
    preset.pattern_id = id;
    preset
}

fn positions(input: &ChartInput) -> Vec<u32> {
    input.notes.iter().map(|n| n.position).collect()
}

fn told(notes: &str) -> Stats {
    Stats {
        notes: notes.to_owned(),
        sections: "2".to_owned(),
        time: Real::zero(),
        files: 1,
        warnings: String::new(),
    }
}

#[test]
fn the_multiplier_has_to_be_positive() {
    let mut preset = ConversionPreset::default();
    assert_eq!(check_preset(&preset), Ok(()));
    for x in [0.0, -1.0, f64::NAN, f64::INFINITY] {
        preset.bpm_multiplier = num(x);
        assert_eq!(check_preset(&preset), Err(ConvertError::InvalidMultiplier));
        let mut log = Vec::new();
        let started = Conversion::start(ConversionMode::Single, 1, &preset, &mut log);
        assert!(matches!(started, Err(ConvertError::InvalidMultiplier)));
        assert!(log.is_empty());
    }
}

#[test]
fn the_tempo_of_the_settings_comes_first() {
    assert_eq!(choose_tempo(Some(5), Some(num(2.0))), Some(BaseTempo::Given(num(2.0))));
    assert_eq!(choose_tempo(Some(5), None), Some(BaseTempo::Milli(5)));
    assert_eq!(choose_tempo(None, None), None);
}

#[test]
fn a_single_input() {
    let bytes = project(&[(1, "A", &[(7, 48)]), (2, "B", &[(1, 48), (2, 49)])]);
    let mut log = Vec::new();
    let input = single_input(&bytes, &with_pattern(2), &mut log).unwrap();
    assert_eq!(positions(&input), vec![1, 2]);
    assert_eq!(input.ppq, 96);
    assert_eq!(input.base, BaseTempo::Milli(120_000));
    assert_eq!(log[0], Progress::Stage("Parsing notes"));
    assert_eq!(log.len(), 3);
}

#[test]
fn what_a_single_input_lacks() {
    let none = project(&[(1, "A", &[])]);
    assert_eq!(single_input(&none, &with_pattern(1), &mut Vec::new()), Err(ConvertError::NoNotes));
    assert_eq!(
        single_input(&none, &with_pattern(9), &mut Vec::new()),
        Err(ConvertError::Flp(FlpError::PatternMissing(9)))
    );
    let quiet = score(&[(1, 48)]);
    assert_eq!(single_input(&quiet, &with_pattern(1), &mut Vec::new()), Err(ConvertError::NoTempo));
    let mut preset = with_pattern(1);
    preset.base_bpm_override = Some(num(99.0));
    let input = single_input(&quiet, &preset, &mut Vec::new()).unwrap();
    assert_eq!(input.base, BaseTempo::Given(num(99.0)));
    let still = file(0x10, 0, &record(0, 48));
    assert_eq!(single_input(&still, &preset, &mut Vec::new()), Err(ConvertError::ZeroPpq));
}

#[test]
fn a_batch_skips_inputs_without_notes() {
    let none = project(&[(1, "A", &[])]);
    let mut name = None;
    assert_eq!(batch_input(&none, &mut name, &with_pattern(1), &mut Vec::new()), Ok(None));
    assert_eq!(name, Some("A".to_owned()));
    let some = project(&[(1, "A", &[(4, 48)])]);
    let input = batch_input(&some, &mut name, &with_pattern(1), &mut Vec::new()).unwrap().unwrap();
    assert_eq!(positions(&input), vec![4]);
    assert_eq!(
        batch_input(b"", &mut None, &with_pattern(1), &mut Vec::new()),
        Err(ConvertError::Flp(FlpError::MissingMagic))
    );
}

#[test]
fn a_batch_goes_by_the_name_of_the_pattern() {
    let preset = with_pattern(1);
    let mut name = Some("A".to_owned());
    let other = project(&[(1, "B", &[(9, 48)]), (2, "A", &[(4, 48)])]);
    let input = batch_input(&other, &mut name, &preset, &mut Vec::new()).unwrap().unwrap();
    assert_eq!(positions(&input), vec![4]);
    let mut selected = with_pattern(2);
    selected.base_bpm_override = None;
    assert_eq!(single_input(&other, &selected, &mut Vec::new()), Ok(input));
    let unnamed = project(&[(1, "C", &[(5, 48)])]);
    let input = batch_input(&unnamed, &mut name, &preset, &mut Vec::new()).unwrap().unwrap();
    assert_eq!(positions(&input), vec![5]);
    let strange = project(&[(3, "C", &[(5, 48)])]);
    assert_eq!(
        batch_input(&strange, &mut name, &preset, &mut Vec::new()),
        Err(ConvertError::Flp(FlpError::PatternMissing(1)))
    );
    let mut timed = preset.clone();
    timed.base_bpm_override = Some(num(100.0));
    let input = batch_input(&score(&[(6, 48)]), &mut name, &timed, &mut Vec::new()).unwrap().unwrap();
    assert_eq!(positions(&input), vec![6]);
    assert_eq!(name, Some("A".to_owned()));
}

fn pattern(id: u16, name: &str) -> PatternInfo {
    PatternInfo { id, name: name.to_owned(), note_count: 1, bpm_change_count: 0 }
}

#[test]
fn the_pattern_to_merge() {
    let patterns = vec![pattern(3, "x"), pattern(5, "y"), pattern(6, "y")];
    assert_eq!(find_target_name(&patterns, 5), "y");
    assert_eq!(find_target_name(&patterns, 9), "x");
    assert_eq!(find_target_name(&vec![], 9), "Pattern 9");
    assert_eq!(find_id_by_name(&patterns, "y"), Some(5));
    assert_eq!(find_id_by_name(&patterns, "Y"), None);
}

#[test]
fn merging_by_pattern_name() {
    let first = project(&[(1, "Other", &[(9, 48)]), (2, "Lead", &[(1, 48)])]);
    let second = project(&[(1, "Lead", &[(2, 48), (3, 48)])]);
    let stranger = project(&[(2, "Bass", &[(8, 48)])]);
    let quiet = score(&[(4, 48)]);
    let preset = with_pattern(2);
    let mut merge = Merge::new();
    for (bytes, name) in [
        (&first, Some("1.flp")),
        (&second, Some("2.flp")),
        (&stranger, Some("3.flp")),
        (&quiet, Some("4.fsc")),
        (&stranger, None),
    ] {
        assert_eq!(merge.add(bytes, name, &preset, &mut Vec::new()), Ok(()));
    }
    assert_eq!(merge.target, Some("Lead".to_owned()));
    assert_eq!(merge.skipped, vec!["3.flp".to_owned(), "(unknown)".to_owned()]);
    let before = merge.clone();
    assert_eq!(
        merge.add(b"junk", Some("5"), &preset, &mut Vec::new()),
        Err(ConvertError::Flp(FlpError::MissingMagic))
    );
    assert_eq!(merge, before);
    let input = merge.finish(&preset).unwrap();
    assert_eq!(positions(&input), vec![1, 2, 3, 4]);
    assert_eq!(input.ppq, 96);
    assert_eq!(input.base, BaseTempo::Milli(120_000));
}

#[test]
fn what_a_merge_lacks() {
    let preset = with_pattern(1);
    let mut merge = Merge::new();
    merge.add(&project(&[(1, "A", &[])]), None, &preset, &mut Vec::new()).unwrap();
    assert_eq!(merge.finish(&preset), Err(ConvertError::NoMergedNotes));
    let mut merge = Merge::new();
    merge.add(&score(&[(1, 48)]), None, &preset, &mut Vec::new()).unwrap();
    assert_eq!(merge.target, Some("Score".to_owned()));
    assert_eq!(merge.finish(&preset), Err(ConvertError::NoMergedTempo));
}

#[test]
fn jobs_for_difficulties() {
    let slots = DifficultySlots { easy: Some(4), normal: Some(2), hard: Some(9) };
    assert_eq!(
        jobs_of(&slots),
        vec![
            SplitJob { pattern_id: 4, suffix: "-easy" },
            SplitJob { pattern_id: 2, suffix: "" },
            SplitJob { pattern_id: 9, suffix: "-hard" },
        ]
    );
    let bytes = project(&[(1, "Song Hard", &[(1, 48)]), (2, "easy", &[])]);
    assert_eq!(split_plan(&bytes), Ok(vec![SplitJob { pattern_id: 1, suffix: "-hard" }]));
    assert_eq!(split_plan(&score(&[(1, 48)])), Err(ConvertError::NoDifficulty));
    assert_eq!(split_plan(b""), Err(ConvertError::Flp(FlpError::MissingMagic)));
}

#[test]
fn difficulties_need_a_tempo() {
    let events = pattern_events(1, "hard", &[(1, 48)]);
    let bytes = file(0, 96, &events);
    let job = SplitJob { pattern_id: 1, suffix: "-hard" };
    let mut preset = with_pattern(1);
    assert_eq!(split_input(&bytes, &job, &preset, &mut Vec::new()), Err(ConvertError::NoProjectTempo));
    preset.base_bpm_override = Some(num(150.0));
    let input = split_input(&bytes, &job, &preset, &mut Vec::new()).unwrap();
    assert_eq!(input.base, BaseTempo::Given(num(150.0)));
    assert_eq!(positions(&input), vec![1]);
    assert_eq!(single_input(&bytes, &preset, &mut Vec::new()), Ok(input));
    let mut timed = tempo(120_000);
    timed.extend(events);
    let input = split_input(&file(0, 96, &timed), &job, &preset, &mut Vec::new()).unwrap();
    assert_eq!(input.base, BaseTempo::Given(num(150.0)));
    preset.base_bpm_override = None;
    let input = split_input(&file(0, 96, &timed), &job, &preset, &mut Vec::new()).unwrap();
    assert_eq!(input.base, BaseTempo::Milli(120_000));
    assert_eq!(
        split_input(&file(0, 0, &timed), &job, &preset, &mut Vec::new()),
        Err(ConvertError::ZeroPpq)
    );
}

#[test]
fn a_chart_from_notes() {
    let bytes = project(&[(1, "A", &[(0, 48), (384, 53), (390, 60), (768, 56), (800, 51)])]);
    let mut preset = with_pattern(1);
    let input = single_input(&bytes, &preset, &mut Vec::new()).unwrap();
    let mut log = Vec::new();
    assert_eq!(
        build_chart(&input, &preset, &mut log),
        Err(ConvertError::Timing(TimingError::NotEnoughTempos { section: 2, entries: 0 }))
    );
    assert_eq!(log[0], Progress::Stage("Grouping notes into sections"));
    preset.bpm_changes = vec![num(200.0)];
    let chart = build_chart(&input, &preset, &mut Vec::new()).unwrap();
    assert_eq!(chart.written, 3);
    let states: Vec<(bool, BaseTempo, usize)> = chart
        .sections
        .iter()
        .map(|s| (s.must_hit_section, s.base_tempo, s.notes.len()))
        .collect();
    assert_eq!(
        states,
        vec![
            (false, BaseTempo::Milli(120_000), 1),
            (true, BaseTempo::Milli(120_000), 1),
            (true, BaseTempo::Given(num(200.0)), 1),
        ]
    );
}

#[test]
fn the_course_of_a_single_conversion() {
    let preset = with_pattern(1);
    let mut log = Vec::new();
    let mut course = Conversion::start(ConversionMode::Single, 1, &preset, &mut log).unwrap();
    assert_eq!(log, vec![Progress::Stage("Reading FLP")]);
    let step = course.on_read(project(&[(1, "A", &[(5, 48)])]), None, &preset, &mut log).unwrap();
    match step {
        Step::Chart(task) => {
            assert_eq!((task.source, task.suffix), (0, ""));
            assert_eq!(positions(&task.input), vec![5]);
        }
        other => panic!("{:?}", other),
    }
    let end = course.on_written(told("7"), "a", &preset, &mut log).unwrap();
    assert_eq!(end, Step::Done(told("7")));
}

#[test]
fn the_course_of_a_merge() {
    let preset = with_pattern(1);
    let mut log = Vec::new();
    let mut course = Conversion::start(ConversionMode::Merge, 3, &preset, &mut log).unwrap();
    let a = project(&[(1, "A", &[(5, 48)])]);
    let b = project(&[(1, "B", &[(6, 48)])]);
    assert_eq!(course.on_read(a.clone(), Some("a.flp"), &preset, &mut log), Ok(Step::Read(1)));
    assert_eq!(log.last(), Some(&Progress::Stage("Reading FLP")));
    assert_eq!(course.on_read(b, Some("b.flp"), &preset, &mut log), Ok(Step::Read(2)));
    match course.on_read(a, Some("c.flp"), &preset, &mut log).unwrap() {
        Step::Chart(task) => assert_eq!(positions(&task.input), vec![5, 5]),
        other => panic!("{:?}", other),
    }
    match course.on_written(told("2"), "a", &preset, &mut log).unwrap() {
        Step::Done(stats) => assert_eq!(
            stats.warnings,
            " Warning: 1 file skipped (no pattern named \"A\"): b.flp."
        ),
        other => panic!("{:?}", other),
    }
}

#[test]
fn the_course_of_a_split() {
    let preset = with_pattern(1);
    let mut log = Vec::new();
    let mut course = Conversion::start(ConversionMode::SplitDifficulties, 1, &preset, &mut log).unwrap();
    let bytes = project(&[(1, "Hard", &[(5, 48)]), (2, "normal", &[(6, 48)])]);
    match course.on_read(bytes, None, &preset, &mut log).unwrap() {
        Step::Chart(task) => {
            assert_eq!(task.suffix, "");
            assert_eq!(positions(&task.input), vec![6]);
        }
        other => panic!("{:?}", other),
    }
    let mut first = told("1,000");
    first.warnings = " W.".to_owned();
    match course.on_written(first, "a", &preset, &mut log).unwrap() {
        Step::Chart(task) => {
            assert_eq!(task.suffix, "-hard");
            assert_eq!(positions(&task.input), vec![5]);
        }
        other => panic!("{:?}", other),
    }
    match course.on_written(told("5"), "a", &preset, &mut log).unwrap() {
        Step::Done(stats) => {
            assert_eq!(stats.notes, "1,005");
            assert_eq!(stats.sections, "4");
            assert_eq!(stats.files, 2);
            assert_eq!(stats.warnings, " W.");
        }
        other => panic!("{:?}", other),
    }
}

#[test]
fn the_course_of_a_batch() {
    let preset = with_pattern(1);
    let mut log = Vec::new();
    let mut course = Conversion::start(ConversionMode::Batch, 3, &preset, &mut log).unwrap();
    match course.on_read(project(&[(1, "A", &[(5, 48)])]), None, &preset, &mut log).unwrap() {
        Step::Chart(task) => assert_eq!(task.source, 0),
        other => panic!("{:?}", other),
    }
    let mut first = told("3");
    first.warnings = "w".to_owned();
    assert_eq!(course.on_written(first, "a", &preset, &mut log), Ok(Step::Read(1)));
    let empty = project(&[(1, "A", &[])]);
    assert_eq!(course.on_read(empty.clone(), None, &preset, &mut log), Ok(Step::Read(2)));
    match course.on_read(empty, None, &preset, &mut log).unwrap() {
        Step::Done(stats) => {
            assert_eq!(stats.notes, "3");
            assert_eq!(stats.warnings, "a: w");
        }
        other => panic!("{:?}", other),
    }
}

#[test]
fn a_batch_over_differing_identifiers() {
    let preset = with_pattern(1);
    let mut log = Vec::new();
    let mut course = Conversion::start(ConversionMode::Batch, 2, &preset, &mut log).unwrap();
    let a = project(&[(1, "A", &[(0, 48)])]);
    let b = project(&[(2, "A", &[(0, 48)])]);
    assert!(matches!(course.on_read(a, None, &preset, &mut log), Ok(Step::Chart(_))));
    assert_eq!(course.on_written(told("1"), "a", &preset, &mut log), Ok(Step::Read(1)));
    match course.on_read(b, None, &preset, &mut log).unwrap() {
        Step::Chart(task) => {
            assert_eq!(task.source, 1);
            assert_eq!(positions(&task.input), vec![0]);
        }
        other => panic!("{:?}", other),
    }
    match course.on_written(told("1"), "b", &preset, &mut log).unwrap() {
        Step::Done(stats) => {
            assert_eq!(stats.files, 2);
            assert_eq!(stats.notes, "2");
        }
        other => panic!("{:?}", other),
    }
}

#[test]
fn an_input_that_fails_ends_a_batch() {
    let preset = with_pattern(1);
    let mut log = Vec::new();
    let mut course = Conversion::start(ConversionMode::Batch, 3, &preset, &mut log).unwrap();
    let a = project(&[(1, "A", &[(0, 48)])]);
    assert!(matches!(course.on_read(a, None, &preset, &mut log), Ok(Step::Chart(_))));
    assert_eq!(course.on_written(told("1"), "a", &preset, &mut log), Ok(Step::Read(1)));
    assert_eq!(
        course.on_read(Vec::new(), None, &preset, &mut log),
        Err(ConvertError::Flp(FlpError::MissingMagic))
    );
}

#[test]
fn a_pattern_under_two_difficulties_is_charted_twice() {
    let preset = with_pattern(1);
    let mut log = Vec::new();
    let mut course =
        Conversion::start(ConversionMode::SplitDifficulties, 1, &preset, &mut log).unwrap();
    let bytes = project(&[(7, "HARD", &[]), (1, "Easy-Hard", &[(3, 48)])]);
    let easy = match course.on_read(bytes, None, &preset, &mut log).unwrap() {
        Step::Chart(task) => task,
        other => panic!("{:?}", other),
    };
    let hard = match course.on_written(told("1"), "x", &preset, &mut log).unwrap() {
        Step::Chart(task) => task,
        other => panic!("{:?}", other),
    };
    assert_eq!((easy.suffix, hard.suffix), ("-easy", "-hard"));
    assert_eq!(positions(&easy.input), vec![3]);
    assert_eq!(easy.input, hard.input);
    match course.on_written(told("1"), "x", &preset, &mut log).unwrap() {
        Step::Done(stats) => assert_eq!(stats.files, 2),
        other => panic!("{:?}", other),
    }
}

#[test]
fn a_split_without_a_tempo_event_takes_the_override() {
    let mut preset = with_pattern(1);
    preset.base_bpm_override = Some(num(150.0));
    let mut log = Vec::new();
    let mut course = Conversion::start(ConversionMode::SplitDifficulties, 1, &preset, &mut log).unwrap();
    let bytes = file(0, 96, &pattern_events(1, "hard", &[(0, 48)]));
    match course.on_read(bytes, None, &preset, &mut log).unwrap() {
        Step::Chart(task) => {
            assert_eq!(task.suffix, "-hard");
            assert_eq!(task.input.base, BaseTempo::Given(num(150.0)));
        }
        other => panic!("{:?}", other),
    }
    assert!(matches!(course.on_written(told("1"), "x", &preset, &mut log), Ok(Step::Done(_))));
}

#[test]
fn errors_in_words() {
    let words: Vec<String> = [
        FlpError::MissingMagic,
        FlpError::HeaderLength(9),
        FlpError::Truncated,
        FlpError::OffsetOverflow,
        FlpError::DataLengthOverflow,
        FlpError::InvalidVarint,
        FlpError::NotesLength(25),
        FlpError::PatternMissing(3),
    ]
    .iter()
    .map(|e| e.message())
    .collect();
    assert_eq!(
        words,
        vec![
            "not an FL Studio project (missing FLhd)",
            "unsupported FLP header length 9",
            "truncated FLP",
            "FLP offset overflow",
            "FLdt length overflow",
            "invalid FLP variable-length integer",
            "pattern-note payload has invalid length 25",
            "pattern 3 does not exist in this FLP — pick one from the pattern list",
        ]
    );
    assert_eq!(
        TimingError::NotEnoughTempos { section: 4, entries: 1 }.message(""),
        "not enough BPM values in bpm_changes list: pitch-56 marker in section 4 has no \
         corresponding entry (list has 1 entry)"
    );
    assert_eq!(
        ConvertError::Timing(TimingError::NotEnoughTempos { section: 4, entries: 2 }).message(""),
        "not enough BPM values in bpm_changes list: pitch-56 marker in section 4 has no \
         corresponding entry (list has 2 entries)"
    );
    assert_eq!(
        TimingError::InvalidTempo { index: 1 }.message("-5"),
        "bpm_changes[1] = -5 is not a valid BPM (must be a positive finite number)"
    );
    assert_eq!(ConvertError::ZeroPpq.message(""), "FLP has PPQ 0");
    assert_eq!(batch_message(&ConvertError::ZeroPpq, "", "a.flp"), "FLP has PPQ 0 (a.flp)");
    assert_eq!(
        batch_message(&ConvertError::Flp(FlpError::Truncated), "", "a.flp"),
        "truncated FLP"
    );
    assert_eq!(
        ConvertError::NoDifficulty.message(""),
        "No easy, normal, or hard patterns with notes found in this FLP."
    );
    assert_eq!(
        ConvertError::NoTempo.message(""),
        "FSC has no tempo event — enable 'Override starting BPM' and set a BPM"
    );
}
