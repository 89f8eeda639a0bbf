//! The command line: what its arguments ask for.

use crate::number::Real;
use crate::text::{
    ascii_case_is_all_that_differs, ascii_lower, eq_ignore_ascii_case, join, joined, lowercase, put,
    quote, quoted, same_but_ascii_case, same_text, text_view, texts, to_lowercase,
};
use crate::types::{
    default_mapping, pattern_views, ConversionMode, ConversionPreset, FlpInfo, PatternView, FOUR_BITS,
    ONE_BITS,
};
use vstd::prelude::*;

verus! {

/// Which way a conversion goes.
#[derive(Clone, Copy, Debug, PartialEq, Eq, Structural)]
pub enum Direction {
    /// From projects and scores to a chart.
    ToChart,
    /// From a chart to a score.
    ToScore,
}

impl Default for Direction {
    fn default() -> (r: Self)
        ensures
            r == Direction::ToChart,
    {
        Direction::ToChart
    }
}

/// The arguments of the command line, over paths of type `P`.
pub struct Cli<P> {
    /// The input files; at least one.
    pub inputs: Vec<P>,
    /// The output file, or the output directory of a batch.
    pub output: P,
    /// The name of the mode.
    pub mode: Option<String>,
    /// The name of the pattern.
    pub pattern: Option<String>,
    pub song: Option<String>,
    /// The base tempo to use in place of the project's own.
    pub bpm: Option<Real>,
    /// The tempo multiplier.
    pub mult: Option<Real>,
    pub p1: Option<String>,
    pub p2: Option<String>,
    pub gf: Option<String>,
    pub stage: Option<String>,
    pub credit: Option<String>,
    pub voices: bool,
    pub trimsus: bool,
    pub prettyprint: bool,
    /// The number of notes from which on the output is split.
    pub split: Option<u64>,
}

/// Why the arguments cannot be followed.
#[derive(Clone, Debug, PartialEq, Eq)]
pub enum CliError {
    /// More than one chart is to be turned into a score.
    SeveralInputs,
    /// There is no mode of this name (in lower case).
    UnknownMode(String),
    /// The first input has no pattern of the given name.
    UnknownPattern,
}

/// A chart is recognised by the extension of its file, in any case.
pub open spec fn direction_of(extension: Option<Seq<char>>) -> Direction {
    match extension {
        Some(text) => if same_but_ascii_case(text, "json"@) {
            Direction::ToScore
        } else {
            Direction::ToChart
        },
        None => Direction::ToChart,
    }
}

/// Finds out which way to convert, from the number of inputs and the extension of
/// the first. Only one chart at a time can be turned into a score.
pub fn resolve_direction(input_count: usize, extension: Option<&str>) -> (r: Result<Direction, CliError>)
    ensures
        ({
            let direction = direction_of(text_view(extension));
            if direction == Direction::ToScore && input_count > 1 {
                r matches Err(CliError::SeveralInputs)
            } else {
                r matches Ok(d) && d == direction
            }
        }),
{
    let is_chart: bool = match extension {
        Some(text) => eq_ignore_ascii_case(text, "json"),
        None => false,
    };
    if !is_chart {
        Ok(Direction::ToChart)
    } else if input_count > 1 {
        Err(CliError::SeveralInputs)
    } else {
        Ok(Direction::ToScore)
    }
}

/// The mode with this name.
pub open spec fn mode_named(lower: Seq<char>) -> Option<ConversionMode> {
    if lower == "single"@ {
        Some(ConversionMode::Single)
    } else if lower == "merge"@ {
        Some(ConversionMode::Merge)
    } else if lower == "split"@ {
        Some(ConversionMode::SplitDifficulties)
    } else if lower == "batch"@ {
        Some(ConversionMode::Batch)
    } else {
        None
    }
}

/// Finds the mode with this lower-case name.
pub fn find_mode(lower: &str) -> (r: Option<ConversionMode>)
    ensures
        r == mode_named(lower@),
{
    if same_text(lower, "single") {
        Some(ConversionMode::Single)
    } else if same_text(lower, "merge") {
        Some(ConversionMode::Merge)
    } else if same_text(lower, "split") {
        Some(ConversionMode::SplitDifficulties)
    } else if same_text(lower, "batch") {
        Some(ConversionMode::Batch)
    } else {
        None
    }
}

/// Finds the mode to run: the one that is named, in any case; without a name single
/// for one input and merge for several.
pub fn resolve_mode<P>(cli: &Cli<P>) -> (r: Result<ConversionMode, CliError>)
    ensures
        match cli.mode {
            Some(name) => match mode_named(lowercase(name@)) {
                Some(mode) => r matches Ok(m) && m == mode,
                None => r matches Err(CliError::UnknownMode(lower)) && lower@ == lowercase(name@),
            },
            None => r == Ok::<ConversionMode, CliError>(
                if cli.inputs@.len() > 1 {
                    ConversionMode::Merge
                } else {
                    ConversionMode::Single
                },
            ),
        },
{
    match &cli.mode {
        Some(name) => {
            let lower: String = to_lowercase(name.as_str());
            match find_mode(lower.as_str()) {
                Some(mode) => Ok(mode),
                None => Err(CliError::UnknownMode(lower)),
            }
        },
        None => {
            if cli.inputs.len() > 1 {
                Ok(ConversionMode::Merge)
            } else {
                Ok(ConversionMode::Single)
            }
        },
    }
}

/// The given text, else the default.
pub open spec fn given_or(given: Option<String>, default: Seq<char>) -> Seq<char> {
    match given {
        Some(text) => text@,
        None => default,
    }
}

fn overlay(given: &Option<String>, default: String) -> (r: String)
    ensures
        r@ == given_or(*given, default@),
{
    match given {
        Some(text) => text.clone(),
        None => default,
    }
}

/// The settings that the arguments ask for: the defaults, with what is given in
/// their place. A voices track is there only when it is asked for.
pub fn cli_preset<P>(cli: &Cli<P>) -> (r: ConversionPreset)
    ensures
        r.song_name@ == given_or(cli.song, "untitled"@),
        r.player1@ == given_or(cli.p1, "bf"@),
        r.player2@ == given_or(cli.p2, "dad"@),
        r.gf_version@ == given_or(cli.gf, "gf"@),
        r.stage@ == given_or(cli.stage, "stage"@),
        r.song_creator@ == given_or(cli.credit, ""@),
        r.base_bpm_override == cli.bpm,
        r.bpm_multiplier == match cli.mult {
            Some(multiplier) => multiplier,
            None => Real { bits: ONE_BITS },
        },
        r.needs_voices == cli.voices,
        r.trim_sustains == cli.trimsus,
        r.pretty_json == cli.prettyprint,
        r.pattern_id == 1,
        r.decimals == 6,
        r.speed is None,
        r.sustain_threshold_steps == (Real { bits: FOUR_BITS }),
        !r.split_metadata,
        r.alt_marker_pitch == 58,
        r.mapping@ == default_mapping(),
        r.bpm_changes@.len() == 0,
{
    let base: ConversionPreset = ConversionPreset::default();
    ConversionPreset {
        song_name: overlay(&cli.song, base.song_name),
        pattern_id: base.pattern_id,
        player1: overlay(&cli.p1, base.player1),
        player2: overlay(&cli.p2, base.player2),
        gf_version: overlay(&cli.gf, base.gf_version),
        stage: overlay(&cli.stage, base.stage),
        song_creator: overlay(&cli.credit, base.song_creator),
        needs_voices: cli.voices,
        bpm_multiplier: match cli.mult {
            Some(multiplier) => multiplier,
            None => base.bpm_multiplier,
        },
        decimals: base.decimals,
        speed: base.speed,
        sustain_threshold_steps: base.sustain_threshold_steps,
        trim_sustains: cli.trimsus,
        pretty_json: cli.prettyprint,
        split_metadata: base.split_metadata,
        alt_marker_pitch: base.alt_marker_pitch,
        mapping: base.mapping,
        bpm_changes: base.bpm_changes,
        base_bpm_override: cli.bpm,
    }
}

/// The lower-case names of some patterns.
pub open spec fn lower_names(patterns: Seq<PatternView>) -> Seq<Seq<char>> {
    patterns.map_values(|p: PatternView| lowercase(p.name))
}

/// The position of the first of some texts that equals `wanted`, from `i` on.
pub open spec fn index_of_text(list: Seq<Seq<char>>, wanted: Seq<char>, i: nat) -> Option<nat>
    decreases list.len() - i,
{
    if i >= list.len() {
        None
    } else if list[i as int] == wanted {
        Some(i)
    } else {
        index_of_text(list, wanted, i + 1)
    }
}

/// Finds the first of some texts that equals `wanted`.
pub fn find_text(list: &Vec<String>, wanted: &str) -> (r: Option<usize>)
    ensures
        match index_of_text(texts(list@), wanted@, 0) {
            Some(i) => r matches Some(k) && k == i && k < list@.len(),
            None => r is None,
        },
{
    for i in 0..list.len()
        invariant
            index_of_text(texts(list@), wanted@, 0) == index_of_text(texts(list@), wanted@, i as nat),
    {
        assert(texts(list@)[i as int] == list@[i as int]@);
        if same_text(list[i].as_str(), wanted) {
            return Some(i);
        }
    }
    None
}

/// The pattern that is asked for: by its name, in any case; without a name the
/// first of the input, and `default` where that has none. `None` where there is no
/// pattern of the name.
pub open spec fn chosen_pattern(patterns: Seq<PatternView>, name: Option<Seq<char>>, default: u16) -> Option<
    u16,
> {
    match name {
        Some(text) => match index_of_text(lower_names(patterns), lowercase(text), 0) {
            Some(i) => Some(patterns[i as int].id),
            None => None,
        },
        None => if patterns.len() > 0 {
            Some(patterns[0].id)
        } else {
            Some(default)
        },
    }
}

/// Finds the pattern that is asked for.
pub fn resolve_pattern(info: &FlpInfo, name: Option<&str>, default: u16) -> (r: Result<u16, CliError>)
    ensures
        match chosen_pattern(pattern_views(info.patterns@), text_view(name), default) {
            Some(id) => r == Ok::<u16, CliError>(id),
            None => r matches Err(CliError::UnknownPattern),
        },
{
    let ghost views = pattern_views(info.patterns@);
    match name {
        None => {
            if info.patterns.len() > 0 {
                assert(views[0] == info.patterns@[0]@);
                Ok(info.patterns[0].id)
            } else {
                Ok(default)
            }
        },
        Some(text) => {
            let mut lowered: Vec<String> = Vec::new();
            for i in 0..info.patterns.len()
                invariant
                    views == pattern_views(info.patterns@),
                    texts(lowered@) =~= lower_names(views).take(i as int),
            {
                let ghost done = lowered@;
                assert(views[i as int] == info.patterns@[i as int]@);
                lowered.push(to_lowercase(info.patterns[i].name.as_str()));
                assert(texts(lowered@) =~= texts(done).push(lowered@.last()@));
            }
            assert(texts(lowered@) =~= lower_names(views));
            let wanted: String = to_lowercase(text);
            match find_text(&lowered, wanted.as_str()) {
                Some(i) => {
                    assert(lowered@.len() == info.patterns@.len()) by {
                        assert(texts(lowered@).len() == lower_names(views).len());
                    }
                    assert(views[i as int] == info.patterns@[i as int]@);
                    Ok(info.patterns[i].id)
                },
                None => Err(CliError::UnknownPattern),
            }
        },
    }
}

/// The wording of an unknown mode, whose name stands in it as `name`.
pub open spec fn unknown_mode_text(name: Seq<char>) -> Seq<char> {
    "unknown mode "@ + name + " — accepted values: single, merge, split, batch"@
}

/// Words an unknown mode; `quoted_name` is its name as it is shown.
pub fn word_unknown_mode(quoted_name: &str) -> (r: String)
    ensures
        r@ == unknown_mode_text(quoted_name@),
{
    let mut out: String = "unknown mode ".to_owned();
    put(&mut out, quoted_name);
    put(&mut out, " — accepted values: single, merge, split, batch");
    out
}

/// The lines that list the names of some patterns.
pub open spec fn pattern_lines(patterns: Seq<PatternView>) -> Seq<Seq<char>> {
    patterns.map_values(|p: PatternView| "  \""@ + p.name + "\""@)
}

/// The wording of an unknown pattern, whose name stands in it as `name`; the
/// patterns that there are follow.
pub open spec fn unknown_pattern_text(name: Seq<char>, path: Seq<char>, patterns: Seq<PatternView>) -> Seq<
    char,
> {
    "no pattern named "@ + name + " found in "@ + path + "\nAvailable patterns:\n"@ + joined(
        pattern_lines(patterns),
        "\n"@,
    )
}

/// Words an unknown pattern; `quoted_name` is its name as it is shown.
pub fn word_unknown_pattern(quoted_name: &str, path: &str, info: &FlpInfo) -> (r: String)
    ensures
        r@ == unknown_pattern_text(quoted_name@, path@, pattern_views(info.patterns@)),
{
    let ghost views = pattern_views(info.patterns@);
    let mut lines: Vec<String> = Vec::new();
    for i in 0..info.patterns.len()
        invariant
            views == pattern_views(info.patterns@),
            texts(lines@) =~= pattern_lines(views).take(i as int),
    {
        let ghost done = lines@;
        assert(views[i as int] == info.patterns@[i as int]@);
        let mut line: String = "  \"".to_owned();
        put(&mut line, info.patterns[i].name.as_str());
        put(&mut line, "\"");
        lines.push(line);
        assert(texts(lines@) =~= texts(done).push(lines@.last()@));
    }
    assert(texts(lines@) =~= pattern_lines(views));
    let mut out: String = "no pattern named ".to_owned();
    put(&mut out, quoted_name);
    put(&mut out, " found in ");
    put(&mut out, path);
    put(&mut out, "\nAvailable patterns:\n");
    put(&mut out, join(&lines, "\n").as_str());
    out
}

/// Words why the arguments cannot be followed. The name of the pattern that was
/// asked for, the path of the first input and what was found in it are only looked
/// at for an unknown pattern.
pub fn cli_message(error: &CliError, name: &str, path: &str, info: &FlpInfo) -> (r: String)
    ensures
        r@ == match *error {
            CliError::SeveralInputs => "JSON -> FSC conversion only accepts a single input file"@,
            CliError::UnknownMode(lower) => unknown_mode_text(quoted(lower@)),
            CliError::UnknownPattern => unknown_pattern_text(
                quoted(name@),
                path@,
                pattern_views(info.patterns@),
            ),
        },
{
    match error {
        CliError::SeveralInputs => "JSON -> FSC conversion only accepts a single input file".to_owned(),
        CliError::UnknownMode(lower) => word_unknown_mode(quote(lower.as_str()).as_str()),
        CliError::UnknownPattern => word_unknown_pattern(quote(name).as_str(), path, info),
    }
}

/// A file is a chart exactly when its extension spells `json` in any mixture of case;
/// nothing else, and no missing extension, makes it one.
pub proof fn json_in_any_case_is_a_chart(extension: Seq<char>)
    ensures
        direction_of(Some(extension)) == Direction::ToScore <==> {
            &&& extension.len() == 4
            &&& extension[0] == 'j' || extension[0] == 'J'
            &&& extension[1] == 's' || extension[1] == 'S'
            &&& extension[2] == 'o' || extension[2] == 'O'
            &&& extension[3] == 'n' || extension[3] == 'N'
        },
        direction_of(None) == Direction::ToChart,
{
    reveal_strlit("json");
    let json = "json"@;
    ascii_case_is_all_that_differs(extension, json);
    if extension.len() == 4 {
        lemma_letter(extension[0], json[0]);
        lemma_letter(extension[1], json[1]);
        lemma_letter(extension[2], json[2]);
        lemma_letter(extension[3], json[3]);
        assert(json[0] == 'j' && json[1] == 's' && json[2] == 'o' && json[3] == 'n');
        if direction_of(Some(extension)) == Direction::ToScore {
            assert(ascii_lower(extension[0]) == ascii_lower(json[0]));
            assert(ascii_lower(extension[1]) == ascii_lower(json[1]));
            assert(ascii_lower(extension[2]) == ascii_lower(json[2]));
            assert(ascii_lower(extension[3]) == ascii_lower(json[3]));
        }
    }
}

proof fn lemma_letter(c: char, small: char)
    requires
        'a' <= small && small <= 'z',
    ensures
        ascii_lower(c) == ascii_lower(small) <==> c == small || c as u32 + 32 == small as u32,
{
}

/// Each of the four modes has its one name, and no other name is that of a mode.
pub proof fn modes_have_their_names(lower: Seq<char>)
    ensures
        mode_named(lower) == Some(ConversionMode::Single) <==> lower == "single"@,
        mode_named(lower) == Some(ConversionMode::Merge) <==> lower == "merge"@,
        mode_named(lower) == Some(ConversionMode::SplitDifficulties) <==> lower == "split"@,
        mode_named(lower) == Some(ConversionMode::Batch) <==> lower == "batch"@,
{
    reveal_strlit("single");
    reveal_strlit("merge");
    reveal_strlit("split");
    reveal_strlit("batch");
    if lower == "merge"@ || lower == "split"@ || lower == "batch"@ {
        assert(lower[0] != 's' || lower[1] != 'i');
    }
    assert("merge"@[0] == 'm' && "split"@[0] == 's' && "batch"@[0] == 'b');
}

/// What is given takes the place of the default, whatever it is.
pub proof fn given_text_replaces_the_default(given: Option<String>, default: Seq<char>)
    ensures
        given matches Some(text) ==> given_or(given, default) == text@,
        given is None ==> given_or(given, default) == default,
{
}

proof fn lemma_first_text(list: Seq<Seq<char>>, wanted: Seq<char>, i: nat, k: nat)
    requires
        i <= k < list.len(),
        list[k as int] == wanted,
        forall|m: int| i <= m < k ==> #[trigger] list[m] != wanted,
    ensures
        index_of_text(list, wanted, i) == Some(k),
    decreases k - i,
{
    if i < k {
        assert(list[i as int] != wanted);
        lemma_first_text(list, wanted, i + 1, k);
    }
}

proof fn lemma_no_text(list: Seq<Seq<char>>, wanted: Seq<char>, i: nat)
    requires
        forall|m: int| i <= m < list.len() ==> #[trigger] list[m] != wanted,
    ensures
        index_of_text(list, wanted, i) is None,
    decreases list.len() - i,
{
    if i < list.len() {
        assert(list[i as int] != wanted);
        lemma_no_text(list, wanted, i + 1);
    }
}

/// The pattern that is asked for by name is the first whose name is the same in lower
/// case.
pub proof fn first_pattern_of_the_name_is_chosen(
    patterns: Seq<PatternView>,
    name: Seq<char>,
    default: u16,
    k: nat,
)
    requires
        k < patterns.len(),
        lowercase(patterns[k as int].name) == lowercase(name),
        forall|m: int| 0 <= m < k ==> lowercase((#[trigger] patterns[m]).name) != lowercase(name),
    ensures
        chosen_pattern(patterns, Some(name), default) == Some(patterns[k as int].id),
{
    let names = lower_names(patterns);
    assert forall|m: int| 0 <= m < k implies #[trigger] names[m] != lowercase(name) by {
        assert(names[m] == lowercase(patterns[m].name));
    }
    lemma_first_text(names, lowercase(name), 0, k);
}

/// A name that no pattern has chooses none; without a name the first pattern is chosen,
/// and the default where there is no pattern.
pub proof fn without_the_name_no_pattern_is_chosen(
    patterns: Seq<PatternView>,
    name: Seq<char>,
    default: u16,
)
    ensures
        (forall|m: int|
            0 <= m < patterns.len() ==> lowercase((#[trigger] patterns[m]).name) != lowercase(name))
            ==> chosen_pattern(patterns, Some(name), default) is None,
        patterns.len() > 0 ==> chosen_pattern(patterns, None, default) == Some(patterns[0].id),
        patterns.len() == 0 ==> chosen_pattern(patterns, None, default) == Some(default),
{
    if forall|m: int|
        0 <= m < patterns.len() ==> lowercase((#[trigger] patterns[m]).name) != lowercase(name) {
        let names = lower_names(patterns);
        assert forall|m: int| 0 <= m < names.len() implies #[trigger] names[m] != lowercase(name) by {
            assert(names[m] == lowercase(patterns[m].name));
        }
        lemma_no_text(names, lowercase(name), 0);
    }
}

/// The message on an unknown pattern lists all patterns, each on a line of its own.
pub proof fn message_lists_all_patterns(
    name: Seq<char>,
    path: Seq<char>,
    patterns: Seq<PatternView>,
)
    ensures
        unknown_pattern_text(name, path, patterns) == "no pattern named "@ + name + " found in "@ + path
            + "\nAvailable patterns:\n"@ + joined(
            patterns.map_values(|p: PatternView| "  \""@ + p.name + "\""@),
            "\n"@,
        ),
        unknown_mode_text(name) == "unknown mode "@ + name
            + " — accepted values: single, merge, split, batch"@,
{
    assert(pattern_lines(patterns) =~= patterns.map_values(
        |p: PatternView| "  \""@ + p.name + "\""@,
    ));
}

} // verus!
