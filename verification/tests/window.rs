use sniff::cli::Direction;
use sniff::number::Real;
use sniff::session::{
    changes_label, decode_direction, default_output, encode_direction, input_label, missing_choice,
    progress_label, selected_pattern_label, toggle_speed, toggle_split, toggle_tempo, OutputPlace,
    PipelineInputs, ProgressUpdate, Session,
};
use sniff::types::{ConversionMode, ConversionPreset, PatternInfo, Progress, Stats};

fn num(x: f64) -> Real {
    Real { bits: x.to_bits() }
}

fn session() -> Session {
    Session {
        preset: ConversionPreset::default(),
        patterns: Vec::new(),
        detected_bpm: None,
        merge_scan_total: None,
        status: "old".to_owned(),
        converting: false,
        progress_stage: String::new(),
        progress_done: 0,
        progress_total: 0,
    }
}

fn pattern(id: u16, bpm_change_count: usize) -> PatternInfo {
    PatternInfo { id, name: "Lead".to_owned(), note_count: 1500, bpm_change_count }
}

#[test]
fn first_and_further_inputs() {
    let none: PipelineInputs<u8> = PipelineInputs::default();
    assert_eq!(none.mode(), ConversionMode::Single);
    assert_eq!((none.primary(), none.extra()), (None, &[][..]));
    let one = PipelineInputs::SplitDifficulties(Some(1));
    assert_eq!((one.primary(), one.extra()), (Some(&1), &[][..]));
    let many = PipelineInputs::Merge(vec![1, 2, 3]);
    assert_eq!((many.primary(), many.extra()), (Some(&1), &[2, 3][..]));
    let empty: PipelineInputs<u8> = PipelineInputs::Batch(vec![]);
    assert_eq!((empty.primary(), empty.extra(), empty.count()), (None, &[][..], 0));
}

#[test]
fn inputs_are_summed_up() {
    assert_eq!(PipelineInputs::<u8>::Single(None).display(""), "No input selected");
    assert_eq!(PipelineInputs::Single(Some(1)).display("a.flp"), "a.flp");
    assert_eq!(PipelineInputs::<u8>::Batch(vec![]).display(""), "No inputs selected");
    assert_eq!(PipelineInputs::Merge(vec![1, 2]).display("a.flp"), "2 FLPs (first: a.flp)");
}

#[test]
fn switching_keeps_the_first_input() {
    let many = PipelineInputs::Merge(vec![1, 2, 3]);
    assert_eq!(many.clone().switched(ConversionMode::Single), PipelineInputs::Single(Some(1)));
    assert_eq!(many.switched(ConversionMode::Batch), PipelineInputs::Batch(vec![1]));
    let none: PipelineInputs<u8> = PipelineInputs::Single(None);
    assert_eq!(none.switched(ConversionMode::Merge), PipelineInputs::Merge(vec![]));
    let one = PipelineInputs::Single(Some(4));
    assert_eq!(
        one.switched(ConversionMode::SplitDifficulties),
        PipelineInputs::SplitDifficulties(Some(4))
    );
}

#[test]
fn selecting_adding_and_removing() {
    assert_eq!(PipelineInputs::Single(Some(1)).select(2), PipelineInputs::Single(Some(2)));
    assert_eq!(PipelineInputs::Merge(vec![1]).select(2), PipelineInputs::Merge(vec![1]));
    assert_eq!(
        PipelineInputs::Batch(vec![1]).append(vec![2, 3]),
        PipelineInputs::Batch(vec![1, 2, 3])
    );
    assert_eq!(PipelineInputs::Single(Some(1)).append(vec![2]), PipelineInputs::Single(Some(1)));
    assert_eq!(PipelineInputs::Merge(vec![1, 2, 3]).without(1), PipelineInputs::Merge(vec![1, 3]));
    assert_eq!(PipelineInputs::Merge(vec![1]).without(1), PipelineInputs::Merge(vec![1]));
    assert_eq!(PipelineInputs::Single(Some(1)).without(0), PipelineInputs::Single(Some(1)));
}

#[test]
fn default_places_for_the_output() {
    assert_eq!(default_output(ConversionMode::Batch), OutputPlace::InputDirectory);
    assert_eq!(default_output(ConversionMode::Single), OutputPlace::BesideInput);
}

#[test]
fn inspection_selects_the_first_pattern() {
    let mut s = session();
    s.preset.bpm_changes = vec![num(90.0)];
    s.merge_scan_total = Some(8);
    s.inspected(Ok((vec![pattern(5, 3), pattern(6, 0)], Some(num(140.0)))), true);
    assert_eq!(s.preset.pattern_id, 5);
    assert_eq!(s.preset.bpm_changes, vec![num(90.0), num(140.0), num(140.0)]);
    assert_eq!(s.detected_bpm, Some(num(140.0)));
    assert_eq!(s.merge_scan_total, None);
    assert_eq!(s.status, "");
    s.inspected(Err("truncated FLP".to_owned()), true);
    assert!(s.patterns.is_empty());
    assert_eq!(s.detected_bpm, None);
    assert_eq!(s.status, "Could not inspect FLP: truncated FLP");
    assert_eq!(s.preset.bpm_changes.len(), 3);
}

#[test]
fn the_list_of_tempos_follows_the_markers() {
    let mut s = session();
    s.patterns = vec![pattern(1, 2)];
    s.sync_bpm_changes(false);
    assert_eq!(s.preset.bpm_changes, vec![num(120.0), num(120.0)]);
    s.merge_scan_total = Some(1);
    assert_eq!(s.detected_changes(false), Some(2));
    assert_eq!(s.detected_changes(true), Some(1));
    s.sync_bpm_changes(true);
    assert_eq!(s.preset.bpm_changes.len(), 1);
    s.preset.pattern_id = 9;
    assert_eq!(s.detected_changes(false), None);
    s.sync_bpm_changes(false);
    assert!(s.preset.bpm_changes.is_empty());
    s.forget_inputs();
    assert!(s.patterns.is_empty());
}

#[test]
fn scanning_all_inputs() {
    let mut s = session();
    s.scanned(Ok(2));
    assert_eq!(s.merge_scan_total, Some(2));
    assert_eq!(s.preset.bpm_changes.len(), 2);
    assert_eq!(s.status, "Scan complete: 2 BPM change(s) across all inputs.");
    s.scanned(Err("x".to_owned()));
    assert_eq!(s.merge_scan_total, Some(2));
    assert_eq!(s.status, "Scan failed: x");
}

#[test]
fn following_a_conversion() {
    let mut s = session();
    s.begin();
    assert!(s.converting);
    assert_eq!((s.progress_stage.as_str(), s.status.as_str()), ("Starting...", ""));
    assert!(!s.apply(ProgressUpdate::Progress(Progress::Notes { done: 3, total: 9 }), None, ""));
    assert_eq!((s.progress_done, s.progress_total), (3, 9));
    assert!(!s.apply(ProgressUpdate::Progress(Progress::Stage("Sorting sections")), None, ""));
    assert_eq!((s.progress_stage.as_str(), s.progress_total), ("Sorting sections", 0));
    let stats = Stats {
        notes: "5".to_owned(),
        sections: "1".to_owned(),
        time: Real::zero(),
        files: 2,
        warnings: String::new(),
    };
    assert!(s.apply(ProgressUpdate::Finished(Ok(stats.clone())), Some("o.json"), "1.0"));
    assert!(!s.converting);
    assert_eq!(s.status, "Wrote 5 notes in 1 sections to o.json across 2 files in 1.0 ms");
    s.apply(ProgressUpdate::Finished(Ok(stats)), None, "1.0");
    assert!(s.status.contains("to (no output selected) across"));
    s.apply(ProgressUpdate::Finished(Err("broken".to_owned())), None, "");
    assert_eq!(s.status, "Conversion failed: broken");
}

#[test]
fn what_is_missing_to_begin() {
    assert_eq!(missing_choice(Direction::ToChart, true, true), None);
    assert_eq!(missing_choice(Direction::ToChart, false, false), Some("Choose an input FLP first."));
    assert_eq!(
        missing_choice(Direction::ToChart, true, false),
        Some("Choose an output location first.")
    );
    assert_eq!(
        missing_choice(Direction::ToScore, false, true),
        Some("Choose an input chart JSON first.")
    );
    assert_eq!(
        missing_choice(Direction::ToScore, true, false),
        Some("Choose an output FSC location first.")
    );
}

#[test]
fn the_direction_is_kept() {
    for direction in [Direction::ToChart, Direction::ToScore] {
        assert_eq!(decode_direction(encode_direction(direction)), direction);
    }
    assert_eq!(encode_direction(Direction::ToScore), 1);
    assert_eq!(decode_direction(77), Direction::ToChart);
}

#[test]
fn switches() {
    assert_eq!(toggle_tempo(false, Some(num(1.0)), None), None);
    assert_eq!(toggle_tempo(true, None, Some(num(2.0))), Some(num(2.0)));
    assert_eq!(toggle_tempo(true, None, None), Some(num(120.0)));
    assert_eq!(toggle_speed(true, None, None), Some(num(1.0)));
    assert_eq!(toggle_speed(true, Some(num(3.0)), Some(num(2.0))), Some(num(3.0)));
    assert_eq!(toggle_speed(true, None, Some(num(2.0))), Some(num(2.0)));
    assert_eq!(toggle_split(true, None), Some(1_000_000));
    assert_eq!(toggle_split(true, Some(5)), Some(5));
    assert_eq!(toggle_split(false, Some(5)), None);
}

#[test]
fn labels() {
    assert_eq!(selected_pattern_label(&vec![pattern(4, 0)], 4), "Lead (1,500 notes)");
    assert_eq!(selected_pattern_label(&vec![pattern(4, 0)], 5), "Pattern id 5 (not in this FLP)");
    assert_eq!(changes_label(None, false), "Choose an FLP to detect BPM changes.");
    assert_eq!(changes_label(Some(0), true), "No BPM changes detected in this pattern.");
    assert_eq!(changes_label(Some(1), false), "1 BPM change detected.");
    assert_eq!(
        changes_label(Some(2), true),
        "2 BPM changes detected. (first file only -- press Scan all inputs for full count)"
    );
    assert_eq!(input_label(0, "a.flp"), "[1 - primary] a.flp");
    assert_eq!(input_label(2, "c.flp"), "[3] c.flp");
    assert_eq!(progress_label(3, 9, Direction::ToChart), "3 / 9 notes");
    assert_eq!(progress_label(3, 9, Direction::ToScore), "3 / 9 sections");
}
