use sniff::bytes::{take, take_u16, take_u32, take_varint, FlpError};
use sniff::flp::{decode_fl_text, is_fsc, open_flp, parse_notes, EventReader, FlEvent, FlNote};
use sniff::inspect::{
    add_changes, assign_slot, change_count, find_difficulty_patterns, find_pattern, inspect,
    scan_merge_inputs,
};
use sniff::project::{inspect_bytes, parse_flp, parse_fsc, parse_input};
use sniff::types::{DifficultySlots, FlpInfo, PatternInfo, Progress};

/// A file with this format field, ticks and data payload.
fn file(format: u16, ppq: u16, data: &[u8]) -> Vec<u8> {
    let mut out = b"FLhd".to_vec();
    out.extend(6u32.to_le_bytes());
    out.extend(format.to_le_bytes());
    out.extend(0u16.to_le_bytes());
    out.extend(ppq.to_le_bytes());
    out.extend(b"FLdt");
    out.extend((data.len() as u32).to_le_bytes());
    out.extend(data);
    out
}

fn word(id: u8, value: u16) -> Vec<u8> {
    let mut out = vec![id];
    out.extend(value.to_le_bytes());
    out
}

fn dword(id: u8, value: u32) -> Vec<u8> {
    let mut out = vec![id];
    out.extend(value.to_le_bytes());
    out
}

fn data(id: u8, payload: &[u8]) -> Vec<u8> {
    let mut out = vec![id];
    let mut len = payload.len();
    loop {
        if len < 128 {
            out.push(len as u8);
            break;
        }
        out.push((len % 128) as u8 + 128);
        len /= 128;
    }
    out.extend(payload);
    out
}

fn text(name: &str) -> Vec<u8> {
    let mut out: Vec<u8> = name.encode_utf16().flat_map(|u| u.to_le_bytes()).collect();
    out.extend([0, 0]);
    out
}

fn record(position: u32, length: u32, key: u8, flags: u8, velocity: u8) -> Vec<u8> {
    let mut out = vec![0u8; 24];
    out[0..4].copy_from_slice(&position.to_le_bytes());
    out[8..12].copy_from_slice(&length.to_le_bytes());
    out[12] = key;
    out[19] = flags;
    out[21] = velocity;
    out
}

/// A project with two patterns: the first with a name, three notes (one of them a
/// tempo marker) in two blocks; the second without a name and with one note.
fn sample() -> Vec<u8> {
    let mut events = Vec::new();
    events.extend([0x05, 0x01]);
    events.extend(dword(0x9c, 150_500));
    events.extend(word(65, 2));
    events.extend(data(193, &text("Lead")));
    let mut block = record(0, 24, 48, 0, 100);
    block.extend(record(96, 0, 56, 0, 100));
    events.extend(data(224, &block));
    events.extend(word(65, 7));
    events.extend(data(193, &text("  ")));
    events.extend(data(224, &record(10, 5, 60, 8, 20)));
    events.extend(word(65, 2));
    events.extend(data(224, &record(192, 48, 49, 8, 63)));
    file(0, 96, &events)
}

#[test]
fn taking_bytes() {
    let bytes = [1u8, 2, 3, 4, 5];
    let mut at = 1;
    assert_eq!(take(&bytes, &mut at, 2), Ok(&bytes[1..3]));
    assert_eq!(at, 3);
    assert_eq!(take(&bytes, &mut at, 3), Err(FlpError::Truncated));
    assert_eq!(at, 3);
    assert_eq!(take(&bytes, &mut at, usize::MAX), Err(FlpError::OffsetOverflow));
    assert_eq!(take_u16(&bytes, &mut at), Ok(0x0504));
    assert_eq!(take_u16(&bytes, &mut at), Err(FlpError::Truncated));
    at = 0;
    assert_eq!(take_u32(&bytes, &mut at), Ok(0x0403_0201));
    assert_eq!(at, 4);
}

#[test]
fn variable_length_numbers() {
    let mut at = 0;
    assert_eq!(take_varint(&[0x7f], &mut at), Ok(127));
    assert_eq!(at, 1);
    at = 0;
    assert_eq!(take_varint(&[0x80, 0x01, 0xff], &mut at), Ok(128));
    assert_eq!(at, 2);
    at = 0;
    assert_eq!(take_varint(&[0xac, 0x02], &mut at), Ok(300));
    at = 0;
    assert_eq!(take_varint(&[0xff, 0xff], &mut at), Err(FlpError::Truncated));
    at = 0;
    assert_eq!(take_varint(&[0x80; 12], &mut at), Err(FlpError::InvalidVarint));
    assert_eq!(at, 10);
    at = 0;
    let wide = [0x81, 0x80, 0x80, 0x80, 0x80, 0x80, 0x80, 0x80, 0x80, 0x02];
    assert_eq!(take_varint(&wide, &mut at), Ok(1));
}

#[test]
fn events_by_identifier() {
    let bytes = [5, 9, 65, 1, 2, 130, 1, 0, 0, 0, 200, 2, 7, 8, 1, 1];
    let mut reader = EventReader { bytes: &bytes, at: 0, end: 14 };
    assert_eq!(reader.next(), Ok(Some(FlEvent::Byte(5, 9))));
    assert_eq!(reader.next(), Ok(Some(FlEvent::Word(65, 0x0201))));
    assert_eq!(reader.next(), Ok(Some(FlEvent::Dword(130, 1))));
    assert_eq!(reader.next(), Ok(Some(FlEvent::Data(200, &bytes[12..14]))));
    assert_eq!(reader.next(), Ok(None));
    let mut cut = EventReader { bytes: &bytes[..4], at: 2, end: 4 };
    assert_eq!(cut.next(), Err(FlpError::Truncated));
}

#[test]
fn headers_and_chunks() {
    assert!(matches!(open_flp(b"FL"), Err(FlpError::MissingMagic)));
    assert!(matches!(open_flp(b"RIFF\x06\0\0\0"), Err(FlpError::MissingMagic)));
    assert!(matches!(open_flp(b"FLhd"), Err(FlpError::Truncated)));
    assert!(matches!(open_flp(b"FLhd\x07\0\0\0"), Err(FlpError::HeaderLength(7))));
    assert!(matches!(open_flp(b"FLhd\x06\0\0\0\0\0\0\0"), Err(FlpError::Truncated)));
    let mut bytes = b"FLhd\x06\0\0\0\0\0\0\0\x60\0".to_vec();
    bytes.extend(b"FLxx\x02\0\0\0ab");
    bytes.extend(b"FLdt\xff\0\0\0xyz");
    let (ppq, reader) = open_flp(&bytes).unwrap();
    assert_eq!(ppq, 96);
    assert_eq!(reader.at, bytes.len() - 3);
    assert_eq!(reader.end, bytes.len());
    assert!(matches!(open_flp(&bytes[..20]), Err(FlpError::Truncated)));
}

#[test]
fn note_records() {
    let mut notes = Vec::new();
    let mut log = Vec::new();
    let mut payload = record(0x0102_0304, 0x0a0b_0c0d, 61, 0x08, 99);
    payload.extend(record(1, 2, 3, 0xf7, 4));
    assert_eq!(parse_notes(&payload, &mut notes, &mut log), Ok(()));
    assert_eq!(
        notes,
        vec![
            FlNote { position: 0x0102_0304, length: 0x0a0b_0c0d, key: 61, velocity: 99, portamento: true },
            FlNote { position: 1, length: 2, key: 3, velocity: 4, portamento: false },
        ]
    );
    assert_eq!(
        log,
        vec![Progress::Notes { done: 1, total: 2 }, Progress::Notes { done: 2, total: 2 }]
    );
    assert_eq!(parse_notes(&payload[..25], &mut notes, &mut log), Err(FlpError::NotesLength(25)));
    assert_eq!(notes.len(), 2);
    assert_eq!(parse_notes(&[], &mut notes, &mut log), Ok(()));
    assert_eq!(log.len(), 2);
}

#[test]
fn texts_end_at_zero() {
    assert_eq!(decode_fl_text(&text("Hard \u{1f3b5}")), "Hard \u{1f3b5}");
    assert_eq!(decode_fl_text(&[0x41, 0, 0x42]), "A");
    assert_eq!(decode_fl_text(&[0x41, 0, 0, 0, 0x42, 0]), "A");
    assert_eq!(decode_fl_text(&[]), "");
    let whole = text("H\u{e4}rd \u{1f3b5}");
    let bare = &whole[..whole.len() - 2];
    assert_eq!(decode_fl_text(bare), "H\u{e4}rd \u{1f3b5}");
    let mut odd = bare.to_vec();
    odd.push(0x41);
    assert_eq!(decode_fl_text(&odd), "H\u{e4}rd \u{1f3b5}");
    let mut more = whole.clone();
    more.extend([0x41, 0, 0x42]);
    assert_eq!(decode_fl_text(&more), "H\u{e4}rd \u{1f3b5}");
}

#[test]
fn scores_are_told_from_projects() {
    assert!(is_fsc(&file(0x10, 96, &[])));
    assert!(!is_fsc(&file(0, 96, &[])));
    assert!(!is_fsc(b"FLhd\x06\0\0\0\x10"));
}

#[test]
fn a_project_with_its_patterns() {
    let mut log = Vec::new();
    let project = parse_flp(&sample(), Some(2), &mut log).unwrap();
    assert_eq!(project.ppq, 96);
    assert_eq!(project.tempo, Some(150_500));
    assert_eq!(
        project.patterns,
        vec![
            PatternInfo { id: 2, name: "Lead".to_owned(), note_count: 3, bpm_change_count: 1 },
            PatternInfo { id: 7, name: "Pattern 7".to_owned(), note_count: 1, bpm_change_count: 0 },
        ]
    );
    assert_eq!(
        project.notes,
        vec![
            FlNote { position: 0, length: 24, key: 48, velocity: 100, portamento: false },
            FlNote { position: 96, length: 0, key: 56, velocity: 100, portamento: false },
            FlNote { position: 192, length: 48, key: 49, velocity: 63, portamento: true },
        ]
    );
    assert_eq!(
        log,
        vec![
            Progress::Notes { done: 1, total: 2 },
            Progress::Notes { done: 2, total: 2 },
            Progress::Notes { done: 1, total: 1 },
        ]
    );
    assert_eq!(project.notes.len(), project.patterns[0].note_count);
}

#[test]
fn inspection_agrees_with_parsing() {
    let info = inspect_bytes(&sample()).unwrap();
    for selected in [None, Some(2), Some(7)] {
        let project = parse_flp(&sample(), selected, &mut Vec::new()).unwrap();
        assert_eq!(project.patterns, info.patterns);
        assert_eq!(project.tempo, info.tempo);
    }
    assert_eq!(inspect(&sample()).unwrap(), info);
    assert!(parse_flp(&sample(), None, &mut Vec::new()).unwrap().notes.is_empty());
}

#[test]
fn missing_and_broken_patterns() {
    assert_eq!(
        parse_flp(&sample(), Some(3), &mut Vec::new()),
        Err(FlpError::PatternMissing(3))
    );
    let mut events = word(65, 1);
    events.extend(data(224, &[0u8; 30]));
    let bytes = file(0, 96, &events);
    assert_eq!(parse_flp(&bytes, Some(1), &mut Vec::new()), Err(FlpError::NotesLength(30)));
    let listing = parse_flp(&bytes, None, &mut Vec::new()).unwrap();
    assert_eq!(listing.patterns[0].note_count, 1);
    events.extend([193, 200]);
    let cut = file(0, 96, &events);
    assert_eq!(parse_flp(&cut, None, &mut Vec::new()), Err(FlpError::Truncated));
    assert_eq!(inspect_bytes(&cut), Err(FlpError::Truncated));
}

#[test]
fn payloads_before_the_first_pattern_are_ignored() {
    let mut events = data(193, &text("Lost"));
    events.extend(data(224, &record(0, 1, 48, 0, 100)));
    events.extend(word(65, 4));
    let info = inspect_bytes(&file(0, 96, &events)).unwrap();
    assert_eq!(
        info.patterns,
        vec![PatternInfo { id: 4, name: "Pattern 4".to_owned(), note_count: 0, bpm_change_count: 0 }]
    );
    assert_eq!(info.tempo, None);
}

#[test]
fn a_score_has_one_pattern_and_no_tempo() {
    let mut payload = record(5, 6, 56, 0, 100);
    payload.extend(record(1, 2, 49, 0, 100));
    let bytes = file(0x10, 96, &payload);
    let mut log = Vec::new();
    let project = parse_fsc(&bytes, &mut log).unwrap();
    assert_eq!(project.tempo, None);
    assert_eq!(project.notes.len(), 2);
    assert_eq!(
        project.patterns,
        vec![PatternInfo { id: 1, name: "Score".to_owned(), note_count: 2, bpm_change_count: 0 }]
    );
    assert_eq!(parse_input(&bytes, 40, &mut Vec::new()).unwrap(), project);
    assert_eq!(inspect(&bytes).unwrap(), FlpInfo { tempo: None, patterns: project.patterns });
    assert_eq!(
        parse_fsc(&file(0x10, 96, &[0; 10]), &mut Vec::new()),
        Err(FlpError::NotesLength(10))
    );
}

fn pattern(id: u16, name: &str, note_count: usize, bpm_change_count: usize) -> PatternInfo {
    PatternInfo { id, name: name.to_owned(), note_count, bpm_change_count }
}

#[test]
fn difficulties_by_name() {
    let info = FlpInfo {
        tempo: None,
        patterns: vec![
            pattern(1, "EASY empty", 0, 0),
            pattern(2, "My HARD one", 5, 0),
            pattern(3, "Easy", 5, 0),
            pattern(4, "easy again", 5, 0),
            pattern(5, "NORMAL", 5, 0),
            pattern(6, "hard too", 5, 0),
        ],
    };
    let slots = find_difficulty_patterns(&info);
    assert_eq!(slots, DifficultySlots { easy: Some(3), normal: Some(5), hard: Some(2) });
    assert!(slots.any());
    let both = FlpInfo {
        tempo: None,
        patterns: vec![pattern(7, "HARD", 0, 0), pattern(1, "Easy-Hard", 5, 0), pattern(2, "hard", 5, 0)],
    };
    assert_eq!(
        find_difficulty_patterns(&both),
        DifficultySlots { easy: Some(1), normal: None, hard: Some(1) }
    );
    let none = find_difficulty_patterns(&FlpInfo { tempo: None, patterns: vec![pattern(1, "x", 5, 0)] });
    assert_eq!(none, DifficultySlots::default());
    assert!(!none.any());
}

#[test]
fn a_pattern_takes_every_free_slot_it_is_named_after() {
    let none = DifficultySlots::default();
    let all = assign_slot(none, 1, "easy normal hard");
    assert_eq!(all, DifficultySlots { easy: Some(1), normal: Some(1), hard: Some(1) });
    assert_eq!(assign_slot(all, 2, "easy normal hard"), all);
    let one = assign_slot(none, 1, "my easy song");
    assert_eq!(one, DifficultySlots { easy: Some(1), normal: None, hard: None });
    assert_eq!(
        assign_slot(one, 2, "easy hard"),
        DifficultySlots { easy: Some(1), normal: None, hard: Some(2) }
    );
    assert_eq!(assign_slot(none, 4, "Easy"), none);
}

#[test]
fn patterns_are_found_by_identifier() {
    let patterns = vec![pattern(1, "a", 1, 3), pattern(2, "b", 1, 4), pattern(1, "c", 1, 5)];
    assert_eq!(find_pattern(&patterns, 1), Some(&patterns[0]));
    assert_eq!(find_pattern(&patterns, 9), None);
    assert_eq!(change_count(&patterns, 2), 4);
    assert_eq!(change_count(&patterns, 9), 0);
}

#[test]
fn markers_of_all_inputs_are_added_up() {
    let score = file(0x10, 96, &record(0, 0, 56, 0, 100));
    assert_eq!(scan_merge_inputs(&vec![], 2), Ok(0));
    assert_eq!(scan_merge_inputs(&vec![sample(), score.clone(), sample()], 2), Ok(2));
    assert_eq!(scan_merge_inputs(&vec![score], 1), Ok(0));
    assert_eq!(scan_merge_inputs(&vec![sample()], 7), Ok(0));
    assert_eq!(
        scan_merge_inputs(&vec![sample(), vec![1, 2], b"FLhd".to_vec()], 2),
        Err(FlpError::MissingMagic)
    );
    assert_eq!(add_changes(5, &sample(), 2), Ok(6));
    assert_eq!(add_changes(5, &sample(), 7), Ok(5));
    assert_eq!(add_changes(5, &[1, 2], 2), Err(FlpError::MissingMagic));
}

#[test]
fn a_scan_of_joined_inputs_is_the_sum_of_both() {
    let score = file(0x10, 96, &record(0, 0, 56, 0, 100));
    let lists = [
        vec![],
        vec![sample()],
        vec![score.clone(), sample(), sample()],
        vec![sample(), b"FLhd".to_vec()],
        vec![vec![1, 2], sample()],
    ];
    for a in &lists {
        for b in &lists {
            let joined: Vec<Vec<u8>> = a.iter().chain(b).cloned().collect();
            let expected = match (scan_merge_inputs(a, 2), scan_merge_inputs(b, 2)) {
                (Err(e), _) => Err(e),
                (_, Err(e)) => Err(e),
                (Ok(m), Ok(n)) => Ok(m + n),
            };
            assert_eq!(scan_merge_inputs(&joined, 2), expected);
        }
    }
    assert_ne!(scan_merge_inputs(&lists[3], 2), scan_merge_inputs(&lists[4], 2));
}
