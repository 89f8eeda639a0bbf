use sniff::cli::{
    cli_message, cli_preset, find_mode, find_text, resolve_direction, resolve_mode, resolve_pattern, Cli,
    CliError, Direction,
};
use sniff::number::Real;
use sniff::types::{ConversionMode, ConversionPreset, FlpInfo, PatternInfo};

fn arguments(inputs: &[&'static str]) -> Cli<&'static str> {
    Cli {
        inputs: inputs.to_vec(),
        output: "out.json",
        mode: None,
        pattern: None,
        song: None,
        bpm: None,
        mult: None,
        p1: None,
        p2: None,
        gf: None,
        stage: None,
        credit: None,
        voices: false,
        trimsus: false,
        prettyprint: false,
        split: None,
    }
}

fn info(names: &[&str]) -> FlpInfo {
    FlpInfo {
        tempo: None,
        patterns: names
            .iter()
            .enumerate()
            .map(|(i, name)| PatternInfo {
                id: 10 + i as u16,
                name: (*name).to_owned(),
                note_count: 0,
                bpm_change_count: 0,
            })
            .collect(),
    }
}

#[test]
fn the_extension_decides_the_direction() {
    assert_eq!(resolve_direction(1, Some("json")), Ok(Direction::ToScore));
    assert_eq!(resolve_direction(1, Some("JSON")), Ok(Direction::ToScore));
    assert_eq!(resolve_direction(1, Some("flp")), Ok(Direction::ToChart));
    assert_eq!(resolve_direction(4, Some("fsc")), Ok(Direction::ToChart));
    assert_eq!(resolve_direction(1, None), Ok(Direction::ToChart));
    assert_eq!(resolve_direction(2, Some("json")), Err(CliError::SeveralInputs));
    assert_eq!(Direction::default(), Direction::ToChart);
}

#[test]
fn modes_by_name_and_by_default() {
    let mut cli = arguments(&["a.flp"]);
    assert_eq!(resolve_mode(&cli), Ok(ConversionMode::Single));
    cli.inputs.push("b.flp");
    assert_eq!(resolve_mode(&cli), Ok(ConversionMode::Merge));
    for (name, mode) in [
        ("single", ConversionMode::Single),
        ("MERGE", ConversionMode::Merge),
        ("Split", ConversionMode::SplitDifficulties),
        ("batch", ConversionMode::Batch),
    ] {
        cli.mode = Some(name.to_owned());
        assert_eq!(resolve_mode(&cli), Ok(mode));
    }
    cli.mode = Some("Other".to_owned());
    assert_eq!(resolve_mode(&cli), Err(CliError::UnknownMode("other".to_owned())));
    assert_eq!(find_mode("merge"), Some(ConversionMode::Merge));
    assert_eq!(find_mode("MERGE"), None);
}

#[test]
fn arguments_overlay_the_defaults() {
    let plain = cli_preset(&arguments(&["a.flp"]));
    let mut expected = ConversionPreset::default();
    expected.needs_voices = false;
    assert_eq!(plain, expected);
    let mut cli = arguments(&["a.flp"]);
    cli.song = Some("Song".to_owned());
    cli.p1 = Some("p1".to_owned());
    cli.p2 = Some("p2".to_owned());
    cli.gf = Some("g".to_owned());
    cli.stage = Some("s".to_owned());
    cli.credit = Some("c".to_owned());
    cli.bpm = Some(Real { bits: 150.0f64.to_bits() });
    cli.mult = Some(Real { bits: 2.0f64.to_bits() });
    cli.voices = true;
    cli.trimsus = true;
    cli.prettyprint = true;
    let preset = cli_preset(&cli);
    expected.song_name = "Song".to_owned();
    expected.player1 = "p1".to_owned();
    expected.player2 = "p2".to_owned();
    expected.gf_version = "g".to_owned();
    expected.stage = "s".to_owned();
    expected.song_creator = "c".to_owned();
    expected.base_bpm_override = cli.bpm;
    expected.bpm_multiplier = Real { bits: 2.0f64.to_bits() };
    expected.needs_voices = true;
    expected.trim_sustains = true;
    expected.pretty_json = true;
    assert_eq!(preset, expected);
}

#[test]
fn patterns_by_name_in_any_case() {
    let found = info(&["Intro", "LEAD", "lead"]);
    assert_eq!(resolve_pattern(&found, Some("lEaD"), 1), Ok(11));
    assert_eq!(resolve_pattern(&found, Some("intro"), 1), Ok(10));
    assert_eq!(resolve_pattern(&found, Some("intr"), 1), Err(CliError::UnknownPattern));
    assert_eq!(resolve_pattern(&found, None, 1), Ok(10));
    assert_eq!(resolve_pattern(&info(&[]), None, 1), Ok(1));
    assert_eq!(resolve_pattern(&info(&["\u{c4}"]), Some("\u{e4}"), 1), Ok(10));
}

#[test]
fn the_first_equal_text_is_found() {
    let list = vec!["a".to_owned(), "b".to_owned(), "b".to_owned()];
    assert_eq!(find_text(&list, "b"), Some(1));
    assert_eq!(find_text(&list, "c"), None);
}

#[test]
fn refused_arguments_in_words() {
    let found = info(&["Intro", "Lead"]);
    assert_eq!(
        cli_message(&CliError::SeveralInputs, "", "", &found),
        "JSON -> FSC conversion only accepts a single input file"
    );
    assert_eq!(
        cli_message(&CliError::UnknownMode("oth\"er".to_owned()), "", "", &found),
        "unknown mode \"oth\\\"er\" — accepted values: single, merge, split, batch"
    );
    assert_eq!(
        cli_message(&CliError::UnknownPattern, "Bass", "a.flp", &found),
        "no pattern named \"Bass\" found in a.flp\nAvailable patterns:\n  \"Intro\"\n  \"Lead\""
    );
}
