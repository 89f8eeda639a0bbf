use sniff::chart::{build_pitch_lookup, lane_number};
use sniff::flp::{is_fsc, FlNote};
use sniff::fsc_export::{
    convert_json_to_fsc, export_notes, lane_pitch, sort_by_position, write_score, ExportError, NoteField,
    ScoreSection,
};
use sniff::grouping::group_notes;
use sniff::number::Real;
use sniff::project::parse_fsc;
use sniff::types::{ConversionPreset, Progress};

fn bpm(x: f64) -> Real {
    Real { bits: x.to_bits() }
}

fn field(value: u32) -> NoteField {
    NoteField { ticks: value, lane: value as u8 }
}

fn entry(time: u32, lane: u8, tail: u32) -> Vec<NoteField> {
    vec![field(time), field(lane as u32), field(tail)]
}

#[test]
fn pitches_of_lanes() {
    assert_eq!(lane_pitch(0, true), 48);
    assert_eq!(lane_pitch(3, true), 51);
    assert_eq!(lane_pitch(4, true), 60);
    assert_eq!(lane_pitch(7, true), 63);
    assert_eq!(lane_pitch(0, false), 60);
    assert_eq!(lane_pitch(5, false), 49);
    assert_eq!(lane_pitch(8, true), 60);
    assert_eq!(lane_pitch(255, false), 48);
}

#[test]
fn lanes_survive_the_export() {
    let table = build_pitch_lookup(&ConversionPreset::default());
    for must_hit in [false, true] {
        for lane in 0..8u8 {
            let (direction, player) = table[lane_pitch(lane, must_hit) as usize].unwrap();
            assert_eq!(lane_number(direction, player, must_hit), lane);
        }
        for direction in 0..4u8 {
            for player in [false, true] {
                let lane = lane_number(direction, player, must_hit);
                assert_eq!(table[lane_pitch(lane, must_hit) as usize], Some((direction, player)));
            }
        }
    }
}

#[test]
fn notes_of_a_chart() {
    let sections = vec![
        ScoreSection {
            must_hit_section: true,
            notes: vec![entry(100, 2, 50), vec![], vec![field(7)], vec![field(8), field(5)]],
        },
        ScoreSection { must_hit_section: false, notes: vec![entry(3, 2, 0)] },
    ];
    let mut log = Vec::new();
    let notes = export_notes(&sections, &mut log);
    let told: Vec<(u32, u32, u8)> = notes.iter().map(|n| (n.position, n.length, n.key)).collect();
    assert_eq!(told, vec![(100, 50, 50), (7, 0, 48), (8, 0, 61), (3, 0, 62)]);
    assert!(notes.iter().all(|n| n.velocity == 100 && !n.portamento));
    assert_eq!(
        log,
        vec![Progress::Notes { done: 1, total: 2 }, Progress::Notes { done: 2, total: 2 }]
    );
}

#[test]
fn exported_notes_are_charted_again() {
    let sections = vec![ScoreSection {
        must_hit_section: false,
        notes: (0..=255u8).map(|lane| entry(10 * lane as u32, lane, 0)).collect(),
    }];
    let notes = export_notes(&sections, &mut Vec::new());
    assert_eq!(notes.len(), 256);
    let (charted, written) = group_notes(&notes, 96, &ConversionPreset::default(), &mut Vec::new());
    assert_eq!(written, 256);
    assert!(charted.iter().all(|s| !s.alt && !s.bpm_change && !s.alt_anim && s.must_hit_marker.is_none()));
}

fn note(position: u32, key: u8) -> FlNote {
    FlNote { position, length: 0x0102_0304, key, velocity: 100, portamento: false }
}

#[test]
fn notes_are_sorted_by_position() {
    let notes = vec![note(5, 1), note(3, 2), note(5, 3), note(0, 4)];
    let sorted = sort_by_position(&notes);
    let told: Vec<(u32, u8)> = sorted.iter().map(|n| (n.position, n.key)).collect();
    assert_eq!(told, vec![(0, 4), (3, 2), (5, 1), (5, 3)]);
}

#[test]
fn bytes_of_a_score() {
    let bytes = write_score(&vec![note(0x0a0b_0c0d, 49)]);
    let mut expected = b"FLhd\x06\0\0\0\x10\0\0\0\x60\0FLdt\x18\0\0\0".to_vec();
    expected.extend([0x0d, 0x0c, 0x0b, 0x0a, 0, 0, 0, 0, 4, 3, 2, 1, 49, 0, 0, 0]);
    expected.extend([0x78, 0, 0x40, 0, 0x40, 0x64, 0, 0]);
    assert_eq!(bytes, expected);
    assert_eq!(write_score(&vec![]).len(), 22);
}

#[test]
fn a_written_score_is_read_back() {
    let notes = vec![note(0, 48), note(u32::MAX, 63), note(77, 51)];
    let bytes = write_score(&notes);
    assert!(is_fsc(&bytes));
    let project = parse_fsc(&bytes, &mut Vec::new()).unwrap();
    assert_eq!(project.ppq, 96);
    assert_eq!(project.tempo, None);
    assert_eq!(project.notes, notes);
    assert_eq!(project.patterns[0].note_count, 3);
}

#[test]
fn a_chart_becomes_a_score() {
    let sections =
        vec![ScoreSection { must_hit_section: true, notes: vec![entry(9, 0, 1), entry(2, 4, 0)] }];
    let mut log = Vec::new();
    let (bytes, stats) = convert_json_to_fsc(bpm(150.0), &sections, &mut log).unwrap();
    let project = parse_fsc(&bytes, &mut Vec::new()).unwrap();
    let told: Vec<(u32, u32, u8)> = project.notes.iter().map(|n| (n.position, n.length, n.key)).collect();
    assert_eq!(told, vec![(2, 0, 60), (9, 1, 48)]);
    assert_eq!(stats.notes, "2");
    assert_eq!(stats.sections, "1");
    assert_eq!(stats.files, 1);
    assert_eq!(stats.warnings, "");
    assert_eq!(
        log,
        vec![
            Progress::Stage("Converting notes to FSC records"),
            Progress::Notes { done: 1, total: 1 },
            Progress::Stage("Writing FSC"),
        ]
    );
}

#[test]
fn a_chart_needs_a_valid_tempo() {
    for x in [0.0, -3.0, f64::NAN, f64::INFINITY] {
        let mut log = Vec::new();
        let failed = convert_json_to_fsc(bpm(x), &vec![], &mut log);
        assert_eq!(failed.unwrap_err(), ExportError::InvalidBpm);
        assert!(log.is_empty());
    }
    assert_eq!(ExportError::InvalidBpm.message("-3"), "chart JSON has invalid BPM: -3");
}
