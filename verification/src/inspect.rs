//! Looking at projects and scores without converting them.

use crate::bytes::FlpError;
use crate::flp::{is_fsc, is_score};
use crate::project::{counts_fit_in_file, flp_info, fsc_project, inspect_bytes, parse_fsc};
use crate::text::{
    contains_text, lowercase, occurring_means_standing_somewhere, occurs, to_lowercase,
};
use crate::types::{pattern_views, DifficultySlots, FlpInfo, PatternInfo, PatternView, Progress};
use vstd::prelude::*;

verus! {

/// What the patterns and the tempo of a project or score are.
pub open spec fn input_info(bytes: Seq<u8>) -> Result<(Option<u32>, Seq<PatternView>), FlpError> {
    if is_score(bytes) {
        match fsc_project(bytes) {
            Err(e) => Err(e),
            Ok(project) => Ok((None, project.patterns)),
        }
    } else {
        flp_info(bytes)
    }
}

/// Lists the patterns and the tempo of a project or score.
pub fn inspect(bytes: &[u8]) -> (r: Result<FlpInfo, FlpError>)
    ensures
        match input_info(bytes@) {
            Err(e) => r matches Err(f) && f == e,
            Ok((tempo, patterns)) => r matches Ok(info) && info.tempo == tempo && pattern_views(
                info.patterns@,
            ) == patterns,
        },
{
    if is_fsc(bytes) {
        let mut reports: Vec<Progress> = Vec::new();
        match parse_fsc(bytes, &mut reports) {
            Err(e) => Err(e),
            Ok(project) => Ok(FlpInfo { tempo: None, patterns: project.patterns }),
        }
    } else {
        inspect_bytes(bytes)
    }
}

/// A slot after a pattern with notes and this lower-case name: where it is still
/// free, the pattern takes it if its name contains the word of the slot.
pub open spec fn slot_after(slot: Option<u16>, id: u16, lower: Seq<char>, word: Seq<char>) -> Option<u16> {
    if slot is None && occurs(lower, word) {
        Some(id)
    } else {
        slot
    }
}

/// The slots after a pattern with notes and this lower-case name. One pattern can
/// take several slots.
pub open spec fn with_pattern(slots: DifficultySlots, id: u16, lower: Seq<char>) -> DifficultySlots {
    DifficultySlots {
        easy: slot_after(slots.easy, id, lower, "easy"@),
        normal: slot_after(slots.normal, id, lower, "normal"@),
        hard: slot_after(slots.hard, id, lower, "hard"@),
    }
}

/// Gives a pattern with notes the free slots that its lower-case name asks for.
pub fn assign_slot(slots: DifficultySlots, id: u16, lower: &str) -> (r: DifficultySlots)
    ensures
        r == with_pattern(slots, id, lower@),
{
    let mut out: DifficultySlots = slots;
    if slots.easy.is_none() && contains_text(lower, "easy") {
        out.easy = Some(id);
    }
    if slots.normal.is_none() && contains_text(lower, "normal") {
        out.normal = Some(id);
    }
    if slots.hard.is_none() && contains_text(lower, "hard") {
        out.hard = Some(id);
    }
    out
}

/// A pattern has notes, and this word in its name, whatever the case.
pub open spec fn matches_word(pattern: PatternView, word: Seq<char>) -> bool {
    pattern.note_count > 0 && occurs(lowercase(pattern.name), word)
}

/// The first of the first `n` patterns that has notes and this word in its name.
pub open spec fn first_match(patterns: Seq<PatternView>, n: nat, word: Seq<char>) -> Option<u16>
    decreases n,
{
    if n == 0 {
        None
    } else {
        match first_match(patterns, (n - 1) as nat, word) {
            Some(id) => Some(id),
            None => if matches_word(patterns[n - 1], word) {
                Some(patterns[n - 1].id)
            } else {
                None
            },
        }
    }
}

/// The slots that the first `n` patterns fill: each goes to the first pattern with
/// notes that has its word in the name.
pub open spec fn difficulty_slots(patterns: Seq<PatternView>, n: nat) -> DifficultySlots {
    DifficultySlots {
        easy: first_match(patterns, n, "easy"@),
        normal: first_match(patterns, n, "normal"@),
        hard: first_match(patterns, n, "hard"@),
    }
}

/// Finds the patterns for easy, normal and hard by their names, whatever the case.
pub fn find_difficulty_patterns(info: &FlpInfo) -> (r: DifficultySlots)
    ensures
        r == difficulty_slots(pattern_views(info.patterns@), info.patterns@.len()),
{
    let mut slots: DifficultySlots = DifficultySlots::default();
    for i in 0..info.patterns.len()
        invariant
            slots == difficulty_slots(pattern_views(info.patterns@), i as nat),
    {
        let pattern: &PatternInfo = &info.patterns[i];
        assert(pattern_views(info.patterns@)[i as int] == pattern@);
        if pattern.note_count != 0 {
            let lower: String = to_lowercase(pattern.name.as_str());
            slots = assign_slot(slots, pattern.id, lower.as_str());
        }
    }
    slots
}

/// The pattern at `i` is the first of the first `n` with notes and this word in its
/// name.
pub open spec fn is_first_match(patterns: Seq<PatternView>, n: nat, word: Seq<char>, i: int) -> bool {
    &&& 0 <= i < n
    &&& matches_word(patterns[i], word)
    &&& forall|j: int| 0 <= j < i ==> !matches_word(#[trigger] patterns[j], word)
}

/// A slot is filled by the first pattern with notes that has the word of the slot
/// in its name; it stays free exactly when there is no such pattern.
pub proof fn first_match_is_first(patterns: Seq<PatternView>, n: nat, word: Seq<char>)
    requires
        n <= patterns.len(),
    ensures
        match first_match(patterns, n, word) {
            Some(id) => exists|i: int| #[trigger]
                is_first_match(patterns, n, word, i) && patterns[i].id == id,
            None => forall|i: int| 0 <= i < n ==> !matches_word(#[trigger] patterns[i], word),
        },
    decreases n,
{
    if n > 0 {
        let m = (n - 1) as nat;
        first_match_is_first(patterns, m, word);
        match first_match(patterns, m, word) {
            Some(id) => {
                let i = choose|i: int| #[trigger]
                    is_first_match(patterns, m, word, i) && patterns[i].id == id;
                assert(is_first_match(patterns, n, word, i));
            },
            None => {
                if matches_word(patterns[n - 1], word) {
                    assert(is_first_match(patterns, n, word, n - 1));
                }
            },
        }
    }
}

/// The first pattern with this identifier.
pub open spec fn pattern_with_id(patterns: Seq<PatternView>, id: u16) -> Option<PatternView>
    decreases patterns.len(),
{
    if patterns.len() == 0 {
        None
    } else if patterns[0].id == id {
        Some(patterns[0])
    } else {
        pattern_with_id(patterns.skip(1), id)
    }
}

/// Finds the first pattern with this identifier.
pub fn find_pattern(patterns: &Vec<PatternInfo>, id: u16) -> (r: Option<&PatternInfo>)
    ensures
        match pattern_with_id(pattern_views(patterns@), id) {
            Some(pattern) => r matches Some(p) && p@ == pattern,
            None => r is None,
        },
{
    let ghost views = pattern_views(patterns@);
    assert(views.skip(0) =~= views);
    for i in 0..patterns.len()
        invariant
            views == pattern_views(patterns@),
            pattern_with_id(views, id) == pattern_with_id(views.skip(i as int), id),
    {
        assert(views.skip(i as int)[0] == patterns@[i as int]@);
        if patterns[i].id == id {
            return Some(&patterns[i]);
        }
        assert(views.skip(i as int).skip(1) =~= views.skip(i + 1));
    }
    None
}

/// The tempo-change markers of the first pattern with this identifier; zero if
/// there is no such pattern.
pub open spec fn changes_of(patterns: Seq<PatternView>, id: u16) -> nat {
    match pattern_with_id(patterns, id) {
        Some(pattern) => pattern.bpm_change_count,
        None => 0,
    }
}

/// Finds the number of tempo-change markers of a pattern.
pub fn change_count(patterns: &Vec<PatternInfo>, id: u16) -> (r: usize)
    ensures
        r == changes_of(pattern_views(patterns@), id),
{
    match find_pattern(patterns, id) {
        Some(pattern) => pattern.bpm_change_count,
        None => 0,
    }
}

/// The tempo-change markers of a pattern in the first `n` files together, or the
/// error of the first file that cannot be read.
pub open spec fn changes_in_files(files: Seq<Vec<u8>>, id: u16, n: nat) -> Result<nat, FlpError>
    decreases n,
{
    if n == 0 {
        Ok(0)
    } else {
        match changes_in_files(files, id, (n - 1) as nat) {
            Err(e) => Err(e),
            Ok(total) => match input_info(files[n - 1]@) {
                Err(e) => Err(e),
                Ok((_, patterns)) => Ok(total + changes_of(patterns, id)),
            },
        }
    }
}

/// The size of the first `n` files together.
pub open spec fn total_size(files: Seq<Vec<u8>>, n: nat) -> nat
    decreases n,
{
    if n == 0 {
        0
    } else {
        total_size(files, (n - 1) as nat) + files[n - 1]@.len()
    }
}

proof fn lemma_total_size_grows(files: Seq<Vec<u8>>, n: nat, m: nat)
    requires
        n <= m,
    ensures
        total_size(files, n) <= total_size(files, m),
    decreases m,
{
    if n < m {
        lemma_total_size_grows(files, n, (m - 1) as nat);
    }
}

proof fn lemma_changes_from(patterns: Seq<PatternView>, id: u16, bound: nat)
    requires
        forall|i: int| 0 <= i < patterns.len() ==> (#[trigger] patterns[i]).bpm_change_count <= bound,
    ensures
        changes_of(patterns, id) <= bound,
    decreases patterns.len(),
{
    if patterns.len() > 0 && patterns[0].id != id {
        lemma_changes_from(patterns.skip(1), id, bound);
    }
}

proof fn lemma_changes_fit(bytes: Seq<u8>, id: u16)
    requires
        input_info(bytes) is Ok,
    ensures
        changes_of(input_info(bytes)->Ok_0.1, id) <= bytes.len(),
{
    let patterns = input_info(bytes)->Ok_0.1;
    assert forall|i: int| 0 <= i < patterns.len() implies (#[trigger] patterns[i]).bpm_change_count
        <= bytes.len() by {
        if !is_score(bytes) {
            counts_fit_in_file(bytes, i);
        }
    }
    lemma_changes_from(patterns, id, bytes.len());
}

proof fn lemma_scan_error_stays(files: Seq<Vec<u8>>, id: u16, n: nat, m: nat)
    requires
        n <= m,
        changes_in_files(files, id, n) is Err,
    ensures
        changes_in_files(files, id, m) == changes_in_files(files, id, n),
    decreases m,
{
    if n < m {
        lemma_scan_error_stays(files, id, n, (m - 1) as nat);
    }
}

/// Adds the tempo-change markers of a pattern in one more input to a count.
pub fn add_changes(total: usize, input: &[u8], pattern_id: u16) -> (r: Result<usize, FlpError>)
    requires
        total + input@.len() <= usize::MAX,
    ensures
        match input_info(input@) {
            Err(e) => r == Err::<usize, FlpError>(e),
            Ok((_, patterns)) => r matches Ok(t) && t == total + changes_of(patterns, pattern_id),
        },
{
    match inspect(input) {
        Err(e) => Err(e),
        Ok(info) => {
            proof {
                lemma_changes_fit(input@, pattern_id);
            }
            Ok(total + change_count(&info.patterns, pattern_id))
        },
    }
}

/// Adds up the tempo-change markers of a pattern over all inputs.
pub fn scan_merge_inputs(inputs: &Vec<Vec<u8>>, pattern_id: u16) -> (r: Result<usize, FlpError>)
    requires
        total_size(inputs@, inputs@.len()) <= usize::MAX,
    ensures
        match changes_in_files(inputs@, pattern_id, inputs@.len()) {
            Err(e) => r == Err::<usize, FlpError>(e),
            Ok(total) => r matches Ok(t) && t == total,
        },
{
    let mut total: usize = 0;
    for i in 0..inputs.len()
        invariant
            total_size(inputs@, inputs@.len()) <= usize::MAX,
            changes_in_files(inputs@, pattern_id, i as nat) == Ok::<nat, FlpError>(total as nat),
            total <= total_size(inputs@, i as nat),
    {
        proof {
            lemma_total_size_grows(inputs@, (i + 1) as nat, inputs@.len());
        }
        match add_changes(total, inputs[i].as_slice(), pattern_id) {
            Err(e) => {
                proof {
                    lemma_scan_error_stays(inputs@, pattern_id, (i + 1) as nat, inputs@.len());
                }
                return Err(e);
            },
            Ok(sum) => {
                proof {
                    lemma_changes_fit(inputs@[i as int]@, pattern_id);
                }
                total = sum;
            },
        }
    }
    Ok(total)
}

/// A count over two lists of inputs, one after the other: the error of the first list,
/// else that of the second, else the sum of both counts.
pub open spec fn joined_changes(first: Result<nat, FlpError>, second: Result<nat, FlpError>) -> Result<
    nat,
    FlpError,
> {
    match (first, second) {
        (Err(e), _) => Err(e),
        (_, Err(e)) => Err(e),
        (Ok(m), Ok(n)) => Ok(m + n),
    }
}

proof fn lemma_scan_of_prefix(a: Seq<Vec<u8>>, b: Seq<Vec<u8>>, id: u16, n: nat)
    requires
        n <= a.len(),
    ensures
        changes_in_files(a + b, id, n) == changes_in_files(a, id, n),
    decreases n,
{
    if n > 0 {
        lemma_scan_of_prefix(a, b, id, (n - 1) as nat);
    }
}

proof fn lemma_scan_of_joined(a: Seq<Vec<u8>>, b: Seq<Vec<u8>>, id: u16, n: nat)
    requires
        n <= b.len(),
    ensures
        changes_in_files(a + b, id, a.len() + n) == joined_changes(
            changes_in_files(a, id, a.len()),
            changes_in_files(b, id, n),
        ),
    decreases n,
{
    if n == 0 {
        lemma_scan_of_prefix(a, b, id, a.len());
    } else {
        lemma_scan_of_joined(a, b, id, (n - 1) as nat);
        assert((a + b)[a.len() + n - 1] == b[n - 1]);
    }
}

/// Scanning two lists of inputs joined gives the error of the first list, else that of
/// the second, else the sum of both counts. Scanning no inputs gives zero.
pub proof fn scan_of_joined_inputs(a: Seq<Vec<u8>>, b: Seq<Vec<u8>>, id: u16)
    ensures
        changes_in_files(a + b, id, a.len() + b.len()) == joined_changes(
            changes_in_files(a, id, a.len()),
            changes_in_files(b, id, b.len()),
        ),
        changes_in_files(seq![], id, 0) == Ok::<nat, FlpError>(0),
{
    lemma_scan_of_joined(a, b, id, b.len());
}

/// A scan fails exactly when one of its inputs cannot be read.
pub proof fn scan_fails_with_an_input(files: Seq<Vec<u8>>, id: u16, n: nat)
    requires
        n <= files.len(),
    ensures
        changes_in_files(files, id, n) is Err <==> exists|i: int|
            0 <= i < n && input_info((#[trigger] files[i])@) is Err,
    decreases n,
{
    if n > 0 {
        scan_fails_with_an_input(files, id, (n - 1) as nat);
        if input_info(files[n - 1]@) is Err {
            assert(0 <= n - 1 < n && input_info(files[n - 1]@) is Err);
        }
    }
}

/// An input without a pattern of this identifier adds nothing to a scan.
pub proof fn missing_pattern_has_no_changes(patterns: Seq<PatternView>, id: u16)
    requires
        forall|i: int| 0 <= i < patterns.len() ==> (#[trigger] patterns[i]).id != id,
    ensures
        changes_of(patterns, id) == 0,
    decreases patterns.len(),
{
    if patterns.len() > 0 {
        missing_pattern_has_no_changes(patterns.skip(1), id);
    }
}

/// Scores hold no tempo-change markers that count: they add nothing to a scan.
pub proof fn scores_have_no_changes(bytes: Seq<u8>, id: u16)
    requires
        is_score(bytes),
        input_info(bytes) is Ok,
    ensures
        changes_of(input_info(bytes)->Ok_0.1, id) == 0,
{
    let patterns = input_info(bytes)->Ok_0.1;
    reveal_with_fuel(pattern_with_id, 2);
}

/// A pattern with notes counts for a word exactly when its name in lower case holds the
/// word, whatever stands before and behind it. A pattern without notes never counts.
pub proof fn words_count_anywhere_in_a_name(pattern: PatternView, word: Seq<char>)
    ensures
        matches_word(pattern, word) <==> pattern.note_count > 0 && exists|
            before: Seq<char>,
            after: Seq<char>,
        |
            lowercase(pattern.name) == #[trigger] (before + word + after),
{
    occurring_means_standing_somewhere(lowercase(pattern.name), word);
}

/// Each slot keeps what it holds. A free slot takes a pattern exactly when the name
/// holds the word of the slot, whatever stands before and behind it and whatever the
/// other slots hold.
pub proof fn free_slots_take_named_patterns(slots: DifficultySlots, id: u16, lower: Seq<char>)
    ensures
        slots.easy is Some ==> with_pattern(slots, id, lower).easy == slots.easy,
        slots.normal is Some ==> with_pattern(slots, id, lower).normal == slots.normal,
        slots.hard is Some ==> with_pattern(slots, id, lower).hard == slots.hard,
        slots.easy is None ==> with_pattern(slots, id, lower).easy == if exists|
            before: Seq<char>,
            after: Seq<char>,
        |
            lower == #[trigger] (before + "easy"@ + after) {
            Some(id)
        } else {
            None
        },
        slots.normal is None ==> with_pattern(slots, id, lower).normal == if exists|
            before: Seq<char>,
            after: Seq<char>,
        |
            lower == #[trigger] (before + "normal"@ + after) {
            Some(id)
        } else {
            None
        },
        slots.hard is None ==> with_pattern(slots, id, lower).hard == if exists|
            before: Seq<char>,
            after: Seq<char>,
        |
            lower == #[trigger] (before + "hard"@ + after) {
            Some(id)
        } else {
            None
        },
{
    occurring_means_standing_somewhere(lower, "easy"@);
    occurring_means_standing_somewhere(lower, "normal"@);
    occurring_means_standing_somewhere(lower, "hard"@);
}

proof fn lemma_first_match(patterns: Seq<PatternView>, n: nat, word: Seq<char>, k: int)
    requires
        0 <= k < n <= patterns.len(),
        matches_word(patterns[k], word),
        forall|m: int| 0 <= m < k ==> !matches_word(#[trigger] patterns[m], word),
    ensures
        first_match(patterns, n, word) == Some(patterns[k].id),
    decreases n,
{
    if k < n - 1 {
        lemma_first_match(patterns, (n - 1) as nat, word, k);
    } else {
        lemma_no_match(patterns, (n - 1) as nat, word);
    }
}

proof fn lemma_no_match(patterns: Seq<PatternView>, n: nat, word: Seq<char>)
    requires
        n <= patterns.len(),
        forall|m: int| 0 <= m < n ==> !matches_word(#[trigger] patterns[m], word),
    ensures
        first_match(patterns, n, word) is None,
    decreases n,
{
    if n > 0 {
        assert(!matches_word(patterns[n - 1], word));
        lemma_no_match(patterns, (n - 1) as nat, word);
    }
}

/// The name of a pattern with notes holds a word, and so does that of no pattern with
/// notes before it.
pub open spec fn first_to_hold(patterns: Seq<PatternView>, word: Seq<char>, k: int) -> bool {
    &&& 0 <= k < patterns.len()
    &&& patterns[k].note_count > 0
    &&& exists|before: Seq<char>, after: Seq<char>|
        lowercase(patterns[k].name) == #[trigger] (before + word + after)
    &&& forall|m: int, before: Seq<char>, after: Seq<char>|
        #![trigger patterns[m], before + word + after]
        0 <= m < k && patterns[m].note_count > 0 ==> lowercase(patterns[m].name) != before + word
            + after
}

proof fn lemma_first_to_hold(patterns: Seq<PatternView>, word: Seq<char>, k: int)
    requires
        first_to_hold(patterns, word, k),
    ensures
        first_match(patterns, patterns.len(), word) == Some(patterns[k].id),
{
    words_count_anywhere_in_a_name(patterns[k], word);
    assert forall|m: int| 0 <= m < k implies !matches_word(#[trigger] patterns[m], word) by {
        words_count_anywhere_in_a_name(patterns[m], word);
    }
    lemma_first_match(patterns, patterns.len(), word, k);
}

/// Each difficulty is the first pattern with notes whose name in lower case holds its
/// word.
pub proof fn difficulties_are_first_named_patterns(patterns: Seq<PatternView>, k: int)
    ensures
        first_to_hold(patterns, "easy"@, k) ==> difficulty_slots(patterns, patterns.len()).easy
            == Some(patterns[k].id),
        first_to_hold(patterns, "normal"@, k) ==> difficulty_slots(patterns, patterns.len()).normal
            == Some(patterns[k].id),
        first_to_hold(patterns, "hard"@, k) ==> difficulty_slots(patterns, patterns.len()).hard
            == Some(patterns[k].id),
{
    if first_to_hold(patterns, "easy"@, k) {
        lemma_first_to_hold(patterns, "easy"@, k);
    }
    if first_to_hold(patterns, "normal"@, k) {
        lemma_first_to_hold(patterns, "normal"@, k);
    }
    if first_to_hold(patterns, "hard"@, k) {
        lemma_first_to_hold(patterns, "hard"@, k);
    }
}

/// A slot is filled only by a pattern with notes whose name in lower case holds its word.
pub proof fn unnamed_difficulties_stay_free(patterns: Seq<PatternView>, word: Seq<char>)
    requires
        word == "easy"@ || word == "normal"@ || word == "hard"@,
        forall|m: int, before: Seq<char>, after: Seq<char>|
            #![trigger patterns[m], before + word + after]
            0 <= m < patterns.len() && patterns[m].note_count > 0 ==> lowercase(patterns[m].name)
                != before + word + after,
    ensures
        ({
            let slots = difficulty_slots(patterns, patterns.len());
            &&& word == "easy"@ ==> slots.easy is None
            &&& word == "normal"@ ==> slots.normal is None
            &&& word == "hard"@ ==> slots.hard is None
        }),
{
    assert forall|m: int| 0 <= m < patterns.len() implies !matches_word(
        #[trigger] patterns[m],
        word,
    ) by {
        words_count_anywhere_in_a_name(patterns[m], word);
    }
    lemma_no_match(patterns, patterns.len(), word);
}

/// Looking for an identifier gives the first pattern that has it, with all that is
/// known of it.
pub proof fn first_pattern_with_id_is_found(patterns: Seq<PatternView>, id: u16, k: int)
    requires
        0 <= k < patterns.len(),
        patterns[k].id == id,
        forall|m: int| 0 <= m < k ==> (#[trigger] patterns[m]).id != id,
    ensures
        pattern_with_id(patterns, id) == Some(patterns[k]),
        changes_of(patterns, id) == patterns[k].bpm_change_count,
    decreases patterns.len(),
{
    if k > 0 {
        assert(patterns[0].id != id);
        let rest = patterns.skip(1);
        assert forall|m: int| 0 <= m < k - 1 implies (#[trigger] rest[m]).id != id by {
            assert(rest[m] == patterns[m + 1]);
        }
        first_pattern_with_id_is_found(rest, id, k - 1);
    }
}

/// No pattern is found under an identifier that none has.
pub proof fn unknown_id_is_not_found(patterns: Seq<PatternView>, id: u16)
    requires
        forall|m: int| 0 <= m < patterns.len() ==> (#[trigger] patterns[m]).id != id,
    ensures
        pattern_with_id(patterns, id) is None,
    decreases patterns.len(),
{
    if patterns.len() > 0 {
        unknown_id_is_not_found(patterns.skip(1), id);
    }
}

/// Scanning one input gives the markers of the first pattern with the identifier.
pub proof fn scan_of_one_input(file: Vec<u8>, id: u16, k: int)
    requires
        input_info(file@) is Ok,
        0 <= k < input_info(file@)->Ok_0.1.len(),
        input_info(file@)->Ok_0.1[k].id == id,
        forall|m: int| 0 <= m < k ==> (#[trigger] input_info(file@)->Ok_0.1[m]).id != id,
    ensures
        changes_in_files(seq![file], id, 1) == Ok::<nat, FlpError>(
            input_info(file@)->Ok_0.1[k].bpm_change_count,
        ),
{
    reveal_with_fuel(changes_in_files, 2);
    first_pattern_with_id_is_found(input_info(file@)->Ok_0.1, id, k);
}

/// A score is listed as one pattern with the identifier 1 that has all its notes, and
/// without a tempo; a project as its own patterns.
pub proof fn listing_tells_scores_from_projects(bytes: Seq<u8>)
    ensures
        is_score(bytes) ==> match (input_info(bytes), fsc_project(bytes)) {
            (Ok((tempo, patterns)), Ok(project)) => {
                &&& tempo is None
                &&& patterns.len() == 1
                &&& patterns[0].id == 1
                &&& patterns[0].name == "Score"@
                &&& patterns[0].note_count == project.notes.len()
                &&& patterns[0].bpm_change_count == 0
            },
            (Err(e), Err(f)) => e == f,
            _ => false,
        },
        !is_score(bytes) ==> input_info(bytes) == flp_info(bytes),
{
}

} // verus!
