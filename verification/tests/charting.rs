use sniff::chart::{
    build_note_json, build_pitch_lookup, lane_number, render_section, resolve_must_hit_sections,
    resolve_section_timing, sort_section, BaseTempo, ChartNote, NoteJson, NoteTiming, Section,
    TimingError,
};
use sniff::flp::FlNote;
use sniff::grouping::group_notes;
use sniff::number::Real;
use sniff::sort::sorted_order;
use sniff::types::{ConversionPreset, PitchMapping, Progress, Side};

fn num(x: f64) -> Real {
    Real { bits: x.to_bits() }
}

fn fl(position: u32, key: u8) -> FlNote {
    FlNote { position, length: 24, key, velocity: 100, portamento: false }
}

fn chart_note(position: u32, direction: u8, player: bool) -> ChartNote {
    ChartNote { position, length: 24, direction, player, portamento: false, force_sustain: false }
}

#[test]
fn tempos_are_finite_and_positive() {
    for x in [1.0, 120.5, f64::MIN_POSITIVE, 5e-324, f64::MAX] {
        assert!(num(x).is_valid_bpm());
    }
    for x in [0.0, -0.0, -1.0, f64::INFINITY, f64::NEG_INFINITY, f64::NAN] {
        assert!(!num(x).is_valid_bpm());
    }
    assert!(num(0.0).is_zero() && num(-0.0).is_zero());
    assert!(!num(5e-324).is_zero() && !num(f64::NAN).is_zero());
    assert_eq!(Real::zero(), num(0.0));
}

#[test]
fn default_settings() {
    let preset = ConversionPreset::default();
    assert_eq!(preset.song_name, "untitled");
    assert_eq!(preset.bpm_multiplier, num(1.0));
    assert_eq!(preset.sustain_threshold_steps, num(4.0));
    assert_eq!(preset.alt_marker_pitch, 58);
    assert!(preset.needs_voices && !preset.split_metadata);
    assert_eq!(preset.mapping.len(), 8);
    assert_eq!(preset.mapping[3], PitchMapping { pitch: 51, side: Side::Player, direction: 3 });
    assert_eq!(preset.mapping[4], PitchMapping { pitch: 60, side: Side::Opponent, direction: 0 });
}

#[test]
fn notes_fall_into_sections() {
    let preset = ConversionPreset::default();
    let mut notes = vec![fl(0, 48), fl(383, 60), fl(384, 51), fl(1536, 63), fl(10, 20)];
    notes[1].velocity = 63;
    notes[2].portamento = true;
    let mut log = Vec::new();
    let (sections, written) = group_notes(&notes, 96, &preset, &mut log);
    assert_eq!(written, 4);
    assert_eq!(sections.len(), 5);
    assert_eq!(sections[0].notes.len(), 2);
    assert_eq!(sections[0].notes[0], chart_note(0, 0, true));
    assert!(sections[0].notes[1].force_sustain && !sections[0].notes[1].player);
    assert!(sections[1].notes[0].portamento);
    assert_eq!(sections[1].notes[0].direction, 3);
    assert!(sections[2].notes.is_empty() && sections[3].notes.is_empty());
    assert_eq!(sections[4].notes[0].position, 1536);
    let held: usize = sections.iter().map(|s| s.notes.len()).sum();
    assert_eq!(held, written);
    for (i, section) in sections.iter().enumerate() {
        for note in &section.notes {
            assert_eq!(note.position as usize / 384, i);
        }
    }
    assert_eq!(log.first(), Some(&Progress::Notes { done: 1, total: 5 }));
    assert_eq!(log.last(), Some(&Progress::Notes { done: 5, total: 5 }));
    assert_eq!(log.len(), 2);
}

#[test]
fn markers_do_not_become_notes() {
    let preset = ConversionPreset::default();
    let notes = vec![fl(0, 58), fl(1, 56), fl(2, 57), fl(9, 53), fl(5, 54), fl(9, 54)];
    let (sections, written) = group_notes(&notes, 96, &preset, &mut Vec::new());
    assert_eq!(written, 0);
    assert!(sections[0].alt && sections[0].bpm_change && sections[0].alt_anim);
    assert_eq!(sections[0].must_hit_marker, Some((9, false)));
    assert!(sections[0].notes.is_empty());
}

#[test]
fn the_alt_marker_comes_before_all_other_roles() {
    let mut preset = ConversionPreset::default();
    preset.alt_marker_pitch = 48;
    preset.mapping.push(PitchMapping { pitch: 56, side: Side::Player, direction: 0 });
    let (sections, written) = group_notes(&vec![fl(0, 48), fl(0, 56)], 96, &preset, &mut Vec::new());
    assert!(sections[0].alt && sections[0].bpm_change);
    assert_eq!(written, 0);
}

#[test]
fn the_last_mapping_of_a_pitch_counts() {
    let mut preset = ConversionPreset::default();
    preset.mapping.push(PitchMapping { pitch: 48, side: Side::Opponent, direction: 2 });
    let table = build_pitch_lookup(&preset);
    assert_eq!(table[48], Some((2, false)));
    assert_eq!(table[49], Some((1, true)));
    assert_eq!(table[63], Some((3, false)));
    assert_eq!(table[64], None);
}

#[test]
fn later_must_hit_markers_win() {
    let mut section = Section::default();
    section.record_must_hit_marker(10, true);
    section.record_must_hit_marker(5, false);
    assert_eq!(section.must_hit_marker, Some((10, true)));
    section.record_must_hit_marker(10, false);
    assert_eq!(section.must_hit_marker, Some((10, false)));
}

#[test]
fn must_hit_is_carried_forward() {
    let mut sections: Vec<Section> = (0..5).map(|_| Section::default()).collect();
    sections[1].must_hit_marker = Some((0, true));
    sections[3].must_hit_marker = Some((0, false));
    resolve_must_hit_sections(&mut sections);
    let states: Vec<bool> = sections.iter().map(|s| s.must_hit_section).collect();
    assert_eq!(states, vec![false, true, true, false, false]);
}

#[test]
fn tempo_markers_take_the_next_entry() {
    let mut sections: Vec<Section> = (0..4).map(|_| Section::default()).collect();
    sections[1].bpm_change = true;
    sections[3].bpm_change = true;
    let changes = vec![num(140.0), num(90.0), num(-1.0)];
    assert_eq!(resolve_section_timing(&mut sections, BaseTempo::Milli(120_000), &changes), Ok(()));
    let tempos: Vec<BaseTempo> = sections.iter().map(|s| s.base_tempo).collect();
    assert_eq!(
        tempos,
        vec![
            BaseTempo::Milli(120_000),
            BaseTempo::Given(num(140.0)),
            BaseTempo::Given(num(140.0)),
            BaseTempo::Given(num(90.0)),
        ]
    );
}

#[test]
fn tempo_entries_run_out_or_are_invalid() {
    let mut sections: Vec<Section> = (0..3).map(|_| Section::default()).collect();
    sections[0].bpm_change = true;
    sections[2].bpm_change = true;
    let before = sections.clone();
    assert_eq!(
        resolve_section_timing(&mut sections, BaseTempo::Milli(1), &vec![num(100.0)]),
        Err(TimingError::NotEnoughTempos { section: 2, entries: 1 })
    );
    assert_eq!(
        resolve_section_timing(&mut sections, BaseTempo::Milli(1), &vec![num(100.0), num(0.0)]),
        Err(TimingError::InvalidTempo { index: 1 })
    );
    assert_eq!(
        resolve_section_timing(&mut sections, BaseTempo::Milli(1), &vec![num(f64::NAN)]),
        Err(TimingError::InvalidTempo { index: 0 })
    );
    assert_eq!(sections, before);
}

#[test]
fn lanes_depend_on_must_hit() {
    assert_eq!(lane_number(2, true, true), 2);
    assert_eq!(lane_number(2, false, true), 6);
    assert_eq!(lane_number(2, true, false), 6);
    assert_eq!(lane_number(2, false, false), 2);
    assert_eq!(lane_number(254, true, false), 2);
}

#[test]
fn order_by_keys_is_stable() {
    assert_eq!(sorted_order(&vec![]), Vec::<usize>::new());
    assert_eq!(sorted_order(&vec![5, 1, 5, 0, 1]), vec![3, 1, 4, 0, 2]);
}

#[test]
fn sections_are_sorted_by_position_and_lane() {
    let mut section = Section::default();
    section.must_hit_section = true;
    section.notes = vec![
        chart_note(9, 0, true),
        chart_note(3, 1, false),
        chart_note(3, 3, true),
        chart_note(3, 0, true),
        chart_note(1, 2, false),
    ];
    sort_section(&mut section);
    let order: Vec<(u32, u8)> = section
        .notes
        .iter()
        .map(|n| (n.position, lane_number(n.direction, n.player, true)))
        .collect();
    assert_eq!(order, vec![(1, 6), (3, 0), (3, 3), (3, 5), (9, 0)]);
}

fn timing(reaches_threshold: bool, tail: f64) -> NoteTiming {
    NoteTiming {
        time: num(100.5),
        reaches_threshold,
        tail: num(tail),
        rounded_tail: num((tail * 10.0).round() / 10.0),
    }
}

#[test]
fn notes_are_written_in_the_shortest_form() {
    let note = chart_note(0, 1, true);
    let long = timing(true, 33.33);
    let short = timing(false, 33.33);
    assert_eq!(
        build_note_json(&note, false, true, false, &long),
        NoteJson::Sustained(num(100.5), 1, num(33.3))
    );
    assert_eq!(
        build_note_json(&note, false, true, false, &short),
        NoteJson::Sustained(num(100.5), 1, num(0.0))
    );
    assert_eq!(build_note_json(&note, false, true, true, &short), NoteJson::Short(num(100.5), 1));
    assert_eq!(
        build_note_json(&note, false, true, true, &timing(true, 0.0)),
        NoteJson::Short(num(100.5), 1)
    );
    assert_eq!(
        build_note_json(&note, true, true, true, &short),
        NoteJson::Full(num(100.5), 1, num(0.0), "Alt Animation")
    );
}

#[test]
fn low_velocity_forces_a_tail() {
    let mut note = chart_note(0, 1, true);
    note.force_sustain = true;
    assert_eq!(
        build_note_json(&note, false, true, true, &timing(false, 33.33)),
        NoteJson::Sustained(num(100.5), 1, num(33.3))
    );
}

#[test]
fn only_player_notes_are_alt_notes() {
    let mut note = chart_note(0, 1, false);
    note.portamento = true;
    assert_eq!(
        build_note_json(&note, true, false, false, &timing(true, 1.0)),
        NoteJson::Sustained(num(100.5), 1, num(1.0))
    );
    note.player = true;
    assert_eq!(
        build_note_json(&note, false, false, false, &timing(true, 1.0)),
        NoteJson::Full(num(100.5), 5, num(1.0), "Alt Animation")
    );
}

#[test]
fn rendered_sections_mention_markers_only_where_they_are() {
    let mut section = Section::default();
    section.notes = vec![chart_note(0, 1, true)];
    section.must_hit_section = true;
    let plain = render_section(&section, &vec![timing(true, 1.0)], false, num(150.0));
    assert_eq!(plain.section_notes, vec![NoteJson::Sustained(num(100.5), 1, num(1.0))]);
    assert_eq!(plain.length_in_steps, 16);
    assert!(plain.must_hit_section);
    assert_eq!((plain.change_bpm, plain.bpm, plain.alt_anim), (None, None, None));
    section.bpm_change = true;
    section.alt_anim = true;
    let marked = render_section(&section, &vec![timing(true, 1.0)], false, num(150.0));
    assert_eq!(
        (marked.change_bpm, marked.bpm, marked.alt_anim),
        (Some(true), Some(num(150.0)), Some(true))
    );
}

#[test]
fn the_sections_hold_the_notes_as_often_as_they_come() {
    let preset = ConversionPreset::default();
    let notes =
        vec![fl(400, 48), fl(0, 60), fl(400, 48), fl(0, 60), fl(0, 20), fl(0, 48), fl(900, 58)];
    let (sections, _) = group_notes(&notes, 96, &preset, &mut Vec::new());
    let mut held: Vec<(u32, u8, bool)> = sections
        .iter()
        .flat_map(|s| s.notes.iter())
        .map(|n| (n.position, n.direction, n.player))
        .collect();
    held.sort();
    assert_eq!(
        held,
        vec![(0, 0, false), (0, 0, false), (0, 0, true), (400, 0, true), (400, 0, true)]
    );
}
