use sniff::arrangement::arrange;
use sniff::chart::{ChartNote, Section};
use sniff::number::Real;
use sniff::output::{
    base_name, chart_stats, decimal_places, output_names, oversized_warning, plan_split, song_name_from,
    FileNames, SplitPlan,
};
use sniff::pipeline::Chart;
use sniff::report::{batch_report, merge_stats, summary, Totals, WriteProgress};
use sniff::types::{ConversionMode, ConversionPreset, Progress, Stats, PROGRESS_BATCH};

fn sections(counts: &[usize]) -> Vec<Section> {
    counts
        .iter()
        .map(|&n| {
            let mut section = Section::default();
            section.notes = vec![
                ChartNote {
                    position: 0,
                    length: 0,
                    direction: 0,
                    player: true,
                    portamento: false,
                    force_sustain: false,
                };
                n
            ];
            section
        })
        .collect()
}

#[test]
fn one_file_without_threshold() {
    let plan = plan_split(&sections(&[5, 100, 0]), None);
    assert_eq!(plan, SplitPlan { ranges: vec![(0, 3)], oversized: vec![] });
}

#[test]
fn files_are_closed_before_the_threshold() {
    let plan = plan_split(&sections(&[3, 4, 3, 0, 0, 8, 2, 11, 1]), Some(10));
    assert_eq!(plan.ranges, vec![(0, 5), (5, 2), (7, 1), (8, 1)]);
    assert_eq!(plan.oversized, vec![7]);
    let plan = plan_split(&sections(&[0, 0, 20, 20]), Some(10));
    assert_eq!(plan.ranges, vec![(0, 3), (3, 1)]);
    assert_eq!(plan.oversized, vec![2, 3]);
    assert_eq!(plan_split(&sections(&[]), Some(10)).ranges, vec![]);
    assert_eq!(plan_split(&sections(&[1, 0, 1]), Some(0)).ranges, vec![(0, 1), (1, 2)]);
}

#[test]
fn files_cover_every_section_once() {
    let counts = [1, 5, 0, 9, 2, 2, 2, 30, 0, 0, 4, 7];
    for threshold in [1u64, 2, 5, 8, 10, 100] {
        let plan = plan_split(&sections(&counts), Some(threshold));
        let mut at = 0;
        let mut held = 0;
        for (start, len) in &plan.ranges {
            assert_eq!(*start, at);
            assert!(*len > 0);
            at += len;
            let notes: usize = counts[*start..start + len].iter().sum();
            let filled = counts[*start..start + len].iter().filter(|&&n| n > 0).count();
            assert!(notes as u64 <= threshold || filled == 1);
            held += notes;
        }
        assert_eq!(at, counts.len());
        assert_eq!(held, counts.iter().sum::<usize>());
    }
}

#[test]
fn no_division_has_fewer_files() {
    let counts = [2usize, 3, 0, 4, 1, 1, 5, 0, 2, 3];
    for threshold in 5u64..12 {
        let ranges = plan_split(&sections(&counts), Some(threshold)).ranges;
        let mut fewest = usize::MAX;
        for cuts in 0u32..1 << (counts.len() - 1) {
            let mut files = 1;
            let mut load = counts[0] as u64;
            let mut fits = true;
            for i in 1..counts.len() {
                if cuts >> (i - 1) & 1 == 1 {
                    files += 1;
                    load = 0;
                }
                load += counts[i] as u64;
                fits &= load <= threshold;
            }
            if fits && files < fewest {
                fewest = files;
            }
        }
        assert_eq!(ranges.len(), fewest);
        for k in 0..ranges.len() - 1 {
            let (start, len) = ranges[k];
            let held: usize = counts[start..=start + len].iter().sum();
            assert!(held as u64 > threshold);
        }
    }
}

#[test]
fn an_oversized_section_ends_its_file() {
    let counts = [1usize, 20, 0, 3, 0, 30, 30, 2];
    let plan = plan_split(&sections(&counts), Some(10));
    for i in plan.oversized {
        assert!(plan.ranges.iter().any(|(start, len)| start + len == i + 1));
    }
}

#[test]
fn names_that_file_names_are_made_from() {
    let modes = [ConversionMode::Single, ConversionMode::Merge];
    for mode in modes {
        assert_eq!(base_name(mode, Some("a"), Some("txt")), None);
    }
    let split = ConversionMode::SplitDifficulties;
    assert_eq!(base_name(split, Some("a"), Some("txt")), Some("a.txt".to_owned()));
    assert_eq!(base_name(split, None, None), Some("chart.json".to_owned()));
    assert_eq!(base_name(ConversionMode::Batch, Some("a"), Some("txt")), Some("a.json".to_owned()));
    assert_eq!(base_name(ConversionMode::Batch, None, None), Some("chart.json".to_owned()));
}

#[test]
fn a_chart_is_arranged() {
    let mut all = sections(&[2, 0, 3]);
    all[0].notes[0].position = 9;
    all[2].notes[1].direction = 3;
    let chart = Chart { sections: all.clone(), written: 5 };
    let mut log = Vec::new();
    let arranged = arrange(chart, Some(3), &mut log);
    assert_eq!(arranged.plan.ranges, vec![(0, 2), (2, 1)]);
    assert_eq!(arranged.file_notes, vec![2, 3]);
    assert_eq!(arranged.written, 5);
    let placed: Vec<u32> = arranged.sections[0].notes.iter().map(|n| n.position).collect();
    assert_eq!(placed, vec![0, 9]);
    let lanes: Vec<u8> = arranged.sections[2].notes.iter().map(|n| n.direction).collect();
    assert_eq!(lanes, vec![0, 0, 3]);
    assert_eq!(
        log,
        vec![Progress::Stage("Sorting sections"), Progress::Notes { done: 5, total: 5 }]
    );
    let many = Chart { sections: sections(&[1; 300]), written: 300 };
    let mut log = Vec::new();
    arrange(many, None, &mut log);
    assert_eq!(
        log[1..],
        [Progress::Notes { done: 256, total: 300 }, Progress::Notes { done: 300, total: 300 }]
    );
    let mut log = Vec::new();
    arrange(Chart { sections: sections(&[0, 0]), written: 0 }, None, &mut log);
    assert_eq!(log.len(), 1);
}

#[test]
fn oversized_sections_are_listed() {
    assert_eq!(oversized_warning(&vec![]), "");
    assert_eq!(
        oversized_warning(&vec![4]),
        " Warning: 1 section exceeded the split threshold and could not be split (section 4)."
    );
    assert_eq!(
        oversized_warning(&vec![4, 12]),
        " Warning: 2 sections exceeded the split threshold and could not be split (sections 4, 12)."
    );
}

#[test]
fn file_names() {
    assert_eq!(
        output_names("song", "", 0, "json", false),
        FileNames::Combined("song.json".to_owned())
    );
    assert_eq!(
        output_names("song", "-hard", 1, "json", false),
        FileNames::Combined("song-hard_2.json".to_owned())
    );
    assert_eq!(
        output_names("song", "-easy", 2, "txt", true),
        FileNames::Separate {
            chart: "song-chart-easy_3.txt".to_owned(),
            metadata: "song-metadata-easy_3.txt".to_owned(),
        }
    );
}

#[test]
fn chart_statistics() {
    let plan = SplitPlan { ranges: vec![(0, 2), (2, 1)], oversized: vec![1] };
    let stats = chart_stats(1234, 3, &plan, false);
    assert_eq!(stats.notes, "1,234");
    assert_eq!(stats.sections, "3");
    assert_eq!(stats.files, 2);
    assert!(stats.warnings.contains("(section 1)"));
    assert_eq!(chart_stats(1, 1, &plan, true).files, 4);
}

#[test]
fn song_names() {
    let mut preset = ConversionPreset::default();
    assert_eq!(song_name_from(&preset, Some("file")), "untitled");
    preset.song_name = "  ".to_owned();
    assert_eq!(song_name_from(&preset, Some("file")), "file");
    assert_eq!(song_name_from(&preset, None), "untitled");
    preset.song_name = " Song ".to_owned();
    assert_eq!(song_name_from(&preset, None), " Song ");
}

#[test]
fn decimal_places_are_limited() {
    let mut preset = ConversionPreset::default();
    assert_eq!(decimal_places(&preset), 6);
    preset.decimals = 13;
    assert_eq!(decimal_places(&preset), 13);
    preset.decimals = 200;
    assert_eq!(decimal_places(&preset), 13);
}

#[test]
fn batches_are_reported_where_there_are_notes() {
    assert_eq!(batch_report(0, 0), None);
    assert_eq!(batch_report(3, 9), Some(Progress::Notes { done: 3, total: 9 }));
}

#[test]
fn written_sections_are_reported_by_batches() {
    let mut progress = WriteProgress::new();
    let total = 2 * PROGRESS_BATCH + 5;
    assert_eq!(progress.section_written(PROGRESS_BATCH - 1, false, total), None);
    assert_eq!(
        progress.section_written(1, false, total),
        Some(Progress::Notes { done: PROGRESS_BATCH, total })
    );
    assert_eq!(progress.section_written(4, false, total), None);
    assert_eq!(
        progress.section_written(0, true, total),
        Some(Progress::Notes { done: PROGRESS_BATCH + 4, total })
    );
    assert_eq!(WriteProgress::new().section_written(0, true, 0), None);
}

fn stats(notes: &str, sections: &str, files: usize, warnings: &str) -> Stats {
    Stats {
        notes: notes.to_owned(),
        sections: sections.to_owned(),
        time: Real::zero(),
        files,
        warnings: warnings.to_owned(),
    }
}

#[test]
fn totals_over_charts() {
    let mut totals = Totals::new();
    let first = stats("1,999", "10", 1, "");
    let second = stats("2", "990", 2, " W.");
    assert!(totals.can_add(&first));
    totals.add(&first, Some("a"));
    totals.add(&second, Some("b"));
    assert_eq!(totals.stats(), stats("2,001", "1,000", 3, "b:  W."));
    totals.add(&second, None);
    assert_eq!(totals.stats(), stats("2,003", "1,990", 5, "b:  W. W."));
    assert!(!totals.can_add(&stats("18,446,744,073,709,551,615", "1", 1, "")));
    assert!(totals.can_add(&stats("oops", "1", 1, "")));
}

#[test]
fn merged_charts_keep_both_warnings() {
    let told = merge_stats(stats("1", "1", 1, " A."), &vec!["x.flp".to_owned()], "Lead");
    assert_eq!(told.warnings, " A. Warning: 1 file skipped (no pattern named \"Lead\"): x.flp.");
    assert_eq!(merge_stats(stats("1", "1", 1, " A."), &vec![], "Lead").warnings, " A.");
}

#[test]
fn closing_lines() {
    assert_eq!(
        summary(&stats("1,234", "12", 1, ""), "out.json", "3.5"),
        "Wrote 1,234 notes in 12 sections to out.json in 3.5 ms"
    );
    assert_eq!(
        summary(&stats("1", "2", 3, " Warning."), "out", "0.1"),
        "Wrote 1 notes in 2 sections to out across 3 files in 0.1 ms Warning."
    );
}

#[test]
fn empty_statistics() {
    assert_eq!(Stats::default(), stats("", "", 0, ""));
}
