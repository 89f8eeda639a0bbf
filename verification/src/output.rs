//! Planning the output: which sections go to which file, and under which name.

use crate::chart::{section_views, Section, SectionView};
use crate::number::Real;
use crate::text::{
    blank, decimal, decimal_text, decimals_tell_numbers_apart, format_count, grouped, is_blank, join,
    joined, put, string_view, text_view, texts,
};
use crate::types::{ConversionMode, ConversionPreset, Stats};
use vstd::prelude::*;

verus! {

/// The number of notes in each section.
pub open spec fn note_counts(sections: Seq<SectionView>) -> Seq<nat> {
    sections.map_values(|s: SectionView| s.notes.len())
}

/// How many notes the current file has before section `i`. A file is closed
/// before the section that would take it over the threshold, unless it is still
/// without notes.
pub open spec fn load_before(counts: Seq<nat>, threshold: nat, i: nat) -> nat
    decreases i,
{
    if i == 0 {
        0
    } else {
        let before = load_before(counts, threshold, (i - 1) as nat);
        if before > 0 && before + counts[i - 1] > threshold {
            counts[i - 1]
        } else {
            before + counts[i - 1]
        }
    }
}

/// A new file starts with section `i`.
pub open spec fn starts_file(counts: Seq<nat>, threshold: nat, i: nat) -> bool {
    let load = load_before(counts, threshold, i);
    i == 0 || (load > 0 && load + counts[i as int] > threshold)
}

/// The sections among the first `n` with which a file starts.
pub open spec fn file_starts(counts: Seq<nat>, threshold: nat, n: nat) -> Seq<nat>
    decreases n,
{
    if n == 0 {
        seq![]
    } else {
        let earlier = file_starts(counts, threshold, (n - 1) as nat);
        if starts_file(counts, threshold, (n - 1) as nat) {
            earlier.push((n - 1) as nat)
        } else {
            earlier
        }
    }
}

/// Where the file with index `k` ends: where the next one starts, or with the
/// last section.
pub open spec fn file_end(starts: Seq<nat>, n: nat, k: int) -> nat {
    if k + 1 < starts.len() {
        starts[k + 1]
    } else {
        n
    }
}

/// The files: first section and number of sections of each.
pub open spec fn file_ranges(counts: Seq<nat>, threshold: Option<u64>) -> Seq<(nat, nat)> {
    match threshold {
        None => seq![(0nat, counts.len())],
        Some(t) => {
            let starts = file_starts(counts, t as nat, counts.len());
            Seq::new(
                starts.len(),
                |k: int| (starts[k], (file_end(starts, counts.len(), k) - starts[k]) as nat),
            )
        },
    }
}

/// Those of the first `n` sections that alone have more notes than a file should.
pub open spec fn oversized_sections(counts: Seq<nat>, threshold: nat, n: nat) -> Seq<nat>
    decreases n,
{
    if n == 0 {
        seq![]
    } else {
        let earlier = oversized_sections(counts, threshold, (n - 1) as nat);
        if counts[n - 1] > threshold {
            earlier.push((n - 1) as nat)
        } else {
            earlier
        }
    }
}

/// All sections that alone have more notes than a file should.
pub open spec fn all_oversized(counts: Seq<nat>, threshold: Option<u64>) -> Seq<nat> {
    match threshold {
        None => seq![],
        Some(t) => oversized_sections(counts, t as nat, counts.len()),
    }
}

/// How the sections are spread over files.
#[derive(Clone, Debug, PartialEq, Eq)]
pub struct SplitPlan {
    /// First section and number of sections of each file.
    pub ranges: Vec<(usize, usize)>,
    /// Sections that alone exceed the threshold.
    pub oversized: Vec<usize>,
}

/// Ranges as natural numbers.
pub open spec fn range_views(ranges: Seq<(usize, usize)>) -> Seq<(nat, nat)> {
    ranges.map_values(|r: (usize, usize)| (r.0 as nat, r.1 as nat))
}

/// Indices as natural numbers.
pub open spec fn index_views(indices: Seq<usize>) -> Seq<nat> {
    indices.map_values(|i: usize| i as nat)
}

/// Spreads the sections over files: all in one without a threshold, else a new
/// file before the section that would exceed it.
pub fn plan_split(sections: &Vec<Section>, threshold: Option<u64>) -> (r: SplitPlan)
    ensures
        range_views(r.ranges@) == file_ranges(note_counts(section_views(sections@)), threshold),
        index_views(r.oversized@) == all_oversized(note_counts(section_views(sections@)), threshold),
{
    let ghost counts = note_counts(section_views(sections@));
    let total: usize = sections.len();
    let mut ranges: Vec<(usize, usize)> = Vec::new();
    let mut oversized: Vec<usize> = Vec::new();
    match threshold {
        None => {
            ranges.push((0, total));
            assert(range_views(ranges@) =~= file_ranges(counts, threshold));
            assert(index_views(oversized@) =~= seq![]);
        },
        Some(limit) => {
            let mut start: usize = 0;
            let mut load: u64 = 0;
            let ghost t = limit as nat;
            assert(index_views(oversized@) =~= seq![]);
            for i in 0..total
                invariant
                    counts == note_counts(section_views(sections@)),
                    total == sections@.len() == counts.len(),
                    t == limit,
                    load == load_before(counts, t, i as nat),
                    i == 0 ==> start == 0,
                    i > 0 ==> file_starts(counts, t, i as nat).len() == ranges@.len() + 1,
                    i > 0 ==> start == file_starts(counts, t, i as nat).last(),
                    i == 0 ==> ranges@.len() == 0,
                    start <= i,
                    forall|k: int|
                        0 <= k < ranges@.len() ==> #[trigger] range_views(ranges@)[k] == (
                            file_starts(counts, t, i as nat)[k],
                            (file_starts(counts, t, i as nat)[k + 1] - file_starts(
                                counts,
                                t,
                                i as nat,
                            )[k]) as nat,
                        ),
                    index_views(oversized@) == oversized_sections(counts, t, i as nat),
            {
                let ghost before = file_starts(counts, t, i as nat);
                let ghost after = file_starts(counts, t, (i + 1) as nat);
                let ghost earlier = ranges@;
                let ghost listed = oversized@;
                assert(counts[i as int] == sections@[i as int].notes@.len());
                let n: u64 = sections[i].notes.len() as u64;
                if load > 0 && (load > limit || n > limit - load) {
                    assert(starts_file(counts, t, i as nat));
                    ranges.push((start, i - start));
                    start = i;
                    load = 0;
                }
                if n > limit {
                    oversized.push(i);
                }
                load += n;
                proof {
                    if n > limit {
                        assert(index_views(oversized@) =~= index_views(listed).push(i as nat));
                    }
                    assert forall|k: int| 0 <= k < ranges@.len() implies #[trigger] range_views(
                        ranges@,
                    )[k] == (after[k], (after[k + 1] - after[k]) as nat) by {
                        if k < earlier.len() {
                            assert(range_views(earlier)[k] == range_views(ranges@)[k]);
                        }
                    }
                }
            }
            proof {
                let starts = file_starts(counts, t, total as nat);
                assert(forall|k: int|
                    0 <= k < ranges@.len() ==> #[trigger] range_views(ranges@)[k] == file_ranges(
                        counts,
                        threshold,
                    )[k]);
            }
            if total > 0 {
                let ghost earlier = ranges@;
                proof {
                    lemma_last_start_within(counts, t, total as nat);
                }
                ranges.push((start, total - start));
                assert(range_views(ranges@) =~= file_ranges(counts, threshold)) by {
                    assert forall|k: int| 0 <= k < ranges@.len() implies range_views(ranges@)[k]
                        == file_ranges(counts, threshold)[k] by {
                        if k < earlier.len() {
                            assert(range_views(earlier)[k] == range_views(ranges@)[k]);
                        }
                    }
                }
            } else {
                assert(range_views(ranges@) =~= file_ranges(counts, threshold));
            }
        },
    }
    SplitPlan { ranges, oversized }
}

/// Strictly increasing, and below `n`.
pub open spec fn increasing_below(s: Seq<nat>, n: nat) -> bool {
    &&& forall|k: int| 0 <= k < s.len() ==> #[trigger] s[k] < n
    &&& forall|k: int, m: int| 0 <= k < m < s.len() ==> #[trigger] s[k] < #[trigger] s[m]
}

/// The starts of files increase, begin with the first section and stay below `n`.
proof fn lemma_starts_increase(counts: Seq<nat>, threshold: nat, n: nat)
    ensures
        n > 0 ==> file_starts(counts, threshold, n).len() > 0 && file_starts(counts, threshold, n)[0]
            == 0,
        increasing_below(file_starts(counts, threshold, n), n),
    decreases n,
{
    if n > 0 {
        lemma_starts_increase(counts, threshold, (n - 1) as nat);
        let earlier = file_starts(counts, threshold, (n - 1) as nat);
        let starts = file_starts(counts, threshold, n);
        if n > 1 {
            assert(starts[0] == earlier[0]);
        }
    }
}

proof fn lemma_last_start_within(counts: Seq<nat>, threshold: nat, n: nat)
    requires
        n > 0,
    ensures
        file_starts(counts, threshold, n).len() > 0,
        file_starts(counts, threshold, n).last() < n,
{
    lemma_starts_increase(counts, threshold, n);
}

/// The files follow one another without gap or overlap, from the first section to
/// the last: every section is written, and written once.
pub proof fn files_cover_all_sections(counts: Seq<nat>, threshold: Option<u64>)
    ensures
        counts.len() > 0 ==> file_ranges(counts, threshold).len() > 0,
        file_ranges(counts, threshold).len() > 0 ==> file_ranges(counts, threshold)[0].0 == 0,
        forall|k: int|
            #![trigger file_ranges(counts, threshold)[k]]
            0 <= k < file_ranges(counts, threshold).len() ==> {
                let ranges = file_ranges(counts, threshold);
                &&& ranges[k].0 + ranges[k].1 == if k + 1 < ranges.len() {
                    ranges[k + 1].0
                } else {
                    counts.len()
                }
                &&& threshold is Some ==> ranges[k].1 > 0
            },
{
    if let Some(t) = threshold {
        lemma_starts_increase(counts, t as nat, counts.len());
        let starts = file_starts(counts, t as nat, counts.len());
        assert forall|k: int| 0 <= k < starts.len() implies #[trigger] starts[k] < file_end(
            starts,
            counts.len(),
            k,
        ) by {
            if k + 1 < starts.len() {
                assert(starts[k] < starts[k + 1]);
            }
        }
        assert forall|k: int|
            #![trigger file_ranges(counts, threshold)[k]]
            0 <= k < starts.len() implies file_ranges(counts, threshold)[k].1 > 0 && file_ranges(
            counts,
            threshold,
        )[k].0 + file_ranges(counts, threshold)[k].1 == file_end(starts, counts.len(), k) by {
            assert(starts[k] < file_end(starts, counts.len(), k));
        }
    }
}

/// The number of notes in the sections `a` to `b`.
pub open spec fn range_notes(counts: Seq<nat>, a: nat, b: nat) -> nat
    decreases b - a,
{
    if b <= a {
        0
    } else {
        range_notes(counts, a, (b - 1) as nat) + counts[b - 1]
    }
}

/// One section alone exceeds the threshold, and the others in the range have no
/// notes.
pub open spec fn lone_oversized(counts: Seq<nat>, threshold: nat, a: nat, b: nat) -> bool {
    exists|i: int|
        a <= i < b && #[trigger] counts[i] > threshold && forall|j: int|
            a <= j < b && j != i ==> #[trigger] counts[j] == 0
}

proof fn lemma_starts_are_listed(counts: Seq<nat>, threshold: nat, n: nat, j: nat)
    requires
        j < n,
    ensures
        starts_file(counts, threshold, j) <==> file_starts(counts, threshold, n).contains(j),
    decreases n,
{
    let earlier = file_starts(counts, threshold, (n - 1) as nat);
    let starts = file_starts(counts, threshold, n);
    if j == n - 1 {
        lemma_starts_increase(counts, threshold, (n - 1) as nat);
        if starts_file(counts, threshold, j) {
            assert(starts[starts.len() - 1] == j);
        }
    } else {
        lemma_starts_are_listed(counts, threshold, (n - 1) as nat, j);
        if earlier.contains(j) {
            let k = choose|k: int| 0 <= k < earlier.len() && earlier[k] == j;
            assert(starts[k] == j);
        }
        if starts.contains(j) {
            let k = choose|k: int| 0 <= k < starts.len() && starts[k] == j;
            if k < earlier.len() {
                assert(earlier[k] == j);
            }
        }
    }
}

proof fn lemma_no_notes(counts: Seq<nat>, a: nat, b: nat)
    requires
        range_notes(counts, a, b) == 0,
    ensures
        forall|j: int| a <= j < b ==> #[trigger] counts[j] == 0,
    decreases b - a,
{
    if a < b {
        lemma_no_notes(counts, a, (b - 1) as nat);
    }
}

/// As long as no new file starts, the load is what the file holds, and that is
/// within the threshold or a lone oversized section.
proof fn lemma_load_is_sum(counts: Seq<nat>, threshold: nat, a: nat, b: nat)
    requires
        a < b <= counts.len(),
        starts_file(counts, threshold, a),
        forall|j: nat| a < j < b ==> !#[trigger] starts_file(counts, threshold, j),
    ensures
        load_before(counts, threshold, b) == range_notes(counts, a, b),
        range_notes(counts, a, b) <= threshold || lone_oversized(counts, threshold, a, b),
    decreases b - a,
{
    let last = (b - 1) as nat;
    if last == a {
        assert(range_notes(counts, a, a) == 0);
        if counts[a as int] > threshold {
            assert(lone_oversized(counts, threshold, a, b));
        }
    } else {
        lemma_load_is_sum(counts, threshold, a, last);
        assert(!starts_file(counts, threshold, last));
        if load_before(counts, threshold, last) == 0 {
            lemma_no_notes(counts, a, last);
            if counts[last as int] > threshold {
                assert(lone_oversized(counts, threshold, a, b));
            }
        }
    }
}

/// No file has more notes than the threshold allows, except one that holds a
/// single section with notes, and that section alone exceeds the threshold.
pub proof fn files_respect_threshold(counts: Seq<nat>, threshold: u64, k: int)
    requires
        0 <= k < file_ranges(counts, Some(threshold)).len(),
    ensures
        ({
            let (start, len) = file_ranges(counts, Some(threshold))[k];
            range_notes(counts, start, start + len) <= threshold || lone_oversized(
                counts,
                threshold as nat,
                start,
                start + len,
            )
        }),
{
    let t = threshold as nat;
    let n = counts.len();
    let starts = file_starts(counts, t, n);
    files_cover_all_sections(counts, Some(threshold));
    lemma_starts_increase(counts, t, n);
    let a = starts[k];
    let b = file_end(starts, n, k);
    assert(file_ranges(counts, Some(threshold))[k] == (a, (b - a) as nat));
    lemma_starts_are_listed(counts, t, n, a);
    if k + 1 < starts.len() {
        assert(starts[k + 1] < n);
    }
    assert forall|j: nat| a < j < b implies !#[trigger] starts_file(counts, t, j) by {
        lemma_no_start_within(counts, threshold, k, j);
    }
    lemma_load_is_sum(counts, t, a, b);
}

/// "s" where there is not exactly one.
pub open spec fn plural(n: nat) -> Seq<char> {
    if n == 1 {
        ""@
    } else {
        "s"@
    }
}

/// Numbers in decimal notation.
pub open spec fn decimals(numbers: Seq<nat>) -> Seq<Seq<char>> {
    numbers.map_values(|n: nat| decimal(n))
}

/// The warning about oversized sections; none where there are none.
pub open spec fn oversized_text(oversized: Seq<nat>) -> Seq<char> {
    if oversized.len() == 0 {
        seq![]
    } else {
        " Warning: "@ + decimal(oversized.len()) + " section"@ + plural(oversized.len())
            + " exceeded the split threshold and could not be split (section"@ + plural(
            oversized.len(),
        ) + " "@ + joined(decimals(oversized), ", "@) + ")."@
    }
}

pub(crate) fn plural_text(n: usize) -> (r: &'static str)
    ensures
        r@ == plural(n as nat),
{
    if n == 1 {
        ""
    } else {
        "s"
    }
}

/// Words the warning about oversized sections.
pub fn oversized_warning(oversized: &Vec<usize>) -> (r: String)
    ensures
        r@ == oversized_text(index_views(oversized@)),
{
    if oversized.len() == 0 {
        return String::new();
    }
    let mut numbers: Vec<String> = Vec::new();
    for i in 0..oversized.len()
        invariant
            texts(numbers@) =~= decimals(index_views(oversized@)).take(i as int),
    {
        let ghost done = numbers@;
        numbers.push(decimal_text(oversized[i] as u64));
        assert(texts(numbers@) =~= texts(done).push(decimal(oversized@[i as int] as nat)));
    }
    assert(texts(numbers@) =~= decimals(index_views(oversized@)));
    let mut out: String = " Warning: ".to_owned();
    put(&mut out, decimal_text(oversized.len() as u64).as_str());
    put(&mut out, " section");
    put(&mut out, plural_text(oversized.len()));
    put(&mut out, " exceeded the split threshold and could not be split (section");
    put(&mut out, plural_text(oversized.len()));
    put(&mut out, " ");
    put(&mut out, join(&numbers, ", ").as_str());
    put(&mut out, ").");
    out
}

/// What distinguishes the file with this index: nothing for the first, then
/// "_2", "_3" and so on.
pub open spec fn split_suffix(index: nat) -> Seq<char> {
    if index == 0 {
        seq![]
    } else {
        "_"@ + decimal(index + 1)
    }
}

/// A file name of the output.
pub open spec fn file_name(
    stem: Seq<char>,
    part: Seq<char>,
    difficulty: Seq<char>,
    index: nat,
    extension: Seq<char>,
) -> Seq<char> {
    stem + part + difficulty + split_suffix(index) + "."@ + extension
}

/// Makes a file name of the output: stem, part of the chart, difficulty, number
/// of the file, extension.
fn make_file_name(stem: &str, part: &str, difficulty: &str, index: usize, extension: &str) -> (r: String)
    requires
        index < usize::MAX,
    ensures
        r@ == file_name(stem@, part@, difficulty@, index as nat, extension@),
{
    let mut out: String = stem.to_owned();
    put(&mut out, part);
    put(&mut out, difficulty);
    if index > 0 {
        put(&mut out, "_");
        put(&mut out, decimal_text(index as u64 + 1).as_str());
        assert(out@ =~= stem@ + part@ + difficulty@ + split_suffix(index as nat));
    } else {
        assert(out@ =~= stem@ + part@ + difficulty@ + split_suffix(0));
    }
    put(&mut out, ".");
    put(&mut out, extension);
    out
}

/// The names of the files for one part of the sections.
#[derive(Clone, Debug, PartialEq, Eq)]
pub enum FileNames {
    /// Notes and metadata in one file.
    Combined(String),
    /// A file for the notes and one for the metadata.
    Separate { chart: String, metadata: String },
}

/// Names the files for the part of the sections with this index.
pub fn output_names(
    stem: &str,
    difficulty: &str,
    index: usize,
    extension: &str,
    split_metadata: bool,
) -> (r: FileNames)
    requires
        index < usize::MAX,
    ensures
        match r {
            FileNames::Combined(name) => !split_metadata && name@ == file_name(
                stem@,
                seq![],
                difficulty@,
                index as nat,
                extension@,
            ),
            FileNames::Separate { chart, metadata } => split_metadata && chart@ == file_name(
                stem@,
                "-chart"@,
                difficulty@,
                index as nat,
                extension@,
            ) && metadata@ == file_name(
                stem@,
                "-metadata"@,
                difficulty@,
                index as nat,
                extension@,
            ),
        },
{
    if split_metadata {
        FileNames::Separate {
            chart: make_file_name(stem, "-chart", difficulty, index, extension),
            metadata: make_file_name(stem, "-metadata", difficulty, index, extension),
        }
    } else {
        proof {
            reveal_strlit("");
            assert(""@ =~= seq![]);
        }
        FileNames::Combined(make_file_name(stem, "", difficulty, index, extension))
    }
}

/// Sums up a chart that was written. The duration is for the caller to set.
pub fn chart_stats(notes: usize, sections: usize, plan: &SplitPlan, split_metadata: bool) -> (r: Stats)
    requires
        2 * plan.ranges@.len() <= usize::MAX,
    ensures
        r.notes@ == grouped(notes as nat),
        r.sections@ == grouped(sections as nat),
        r.time == (Real { bits: 0 }),
        r.files == if split_metadata {
            2 * plan.ranges@.len()
        } else {
            plan.ranges@.len()
        },
        r.warnings@ == oversized_text(index_views(plan.oversized@)),
{
    Stats {
        notes: format_count(notes as u64),
        sections: format_count(sections as u64),
        time: Real::zero(),
        files: if split_metadata {
            plan.ranges.len() * 2
        } else {
            plan.ranges.len()
        },
        warnings: oversized_warning(&plan.oversized),
    }
}

/// The song name: the one of the preset unless that is blank, else the stem of
/// the input file, else "untitled".
pub open spec fn song_name(preset_name: Seq<char>, stem: Option<Seq<char>>) -> Seq<char> {
    if !blank(preset_name) {
        preset_name
    } else {
        match stem {
            Some(s) => s,
            None => "untitled"@,
        }
    }
}

/// Picks the song name.
pub fn song_name_from(preset: &ConversionPreset, stem: Option<&str>) -> (r: String)
    ensures
        r@ == song_name(preset.song_name@, text_view(stem)),
{
    if is_blank(preset.song_name.as_str()) {
        match stem {
            Some(s) => s.to_owned(),
            None => "untitled".to_owned(),
        }
    } else {
        preset.song_name.clone()
    }
}

/// The most decimal places that times are rounded to.
pub const MAX_DECIMALS: u8 = 13;

/// The number of decimal places that times are rounded to.
pub fn decimal_places(preset: &ConversionPreset) -> (r: u8)
    ensures
        r == if preset.decimals <= MAX_DECIMALS {
            preset.decimals
        } else {
            MAX_DECIMALS
        },
        r <= 13,
        preset.decimals <= 13 ==> r == preset.decimals,
        preset.decimals > 13 ==> r == 13,
{
    if preset.decimals <= MAX_DECIMALS {
        preset.decimals
    } else {
        MAX_DECIMALS
    }
}

/// The number of notes in the first `n` of some ranges.
pub open spec fn notes_in_ranges(counts: Seq<nat>, ranges: Seq<(nat, nat)>, n: nat) -> nat
    decreases n,
{
    if n == 0 {
        0
    } else {
        let (start, len) = ranges[n - 1];
        notes_in_ranges(counts, ranges, (n - 1) as nat) + range_notes(counts, start, start + len)
    }
}

pub(crate) proof fn lemma_range_notes_split(counts: Seq<nat>, a: nat, b: nat, c: nat)
    requires
        a <= b <= c,
    ensures
        range_notes(counts, a, c) == range_notes(counts, a, b) + range_notes(counts, b, c),
    decreases c - b,
{
    if b < c {
        lemma_range_notes_split(counts, a, b, (c - 1) as nat);
    }
}

proof fn lemma_notes_in_ranges(counts: Seq<nat>, threshold: Option<u64>, n: nat)
    requires
        0 < n <= file_ranges(counts, threshold).len(),
    ensures
        ({
            let (start, len) = file_ranges(counts, threshold)[n - 1];
            notes_in_ranges(counts, file_ranges(counts, threshold), n) == range_notes(
                counts,
                0,
                start + len,
            )
        }),
    decreases n,
{
    files_cover_all_sections(counts, threshold);
    let ranges = file_ranges(counts, threshold);
    let (start, len) = ranges[n - 1];
    if n > 1 {
        lemma_notes_in_ranges(counts, threshold, (n - 1) as nat);
        assert(ranges[n - 2].0 + ranges[n - 2].1 == ranges[n - 1].0);
    } else {
        assert(range_notes(counts, 0, 0) == 0);
        reveal_with_fuel(notes_in_ranges, 2);
    }
    lemma_range_notes_split(counts, 0, start, start + len);
}

/// The files together hold every note once.
pub proof fn files_hold_all_notes(counts: Seq<nat>, threshold: Option<u64>)
    ensures
        notes_in_ranges(
            counts,
            file_ranges(counts, threshold),
            file_ranges(counts, threshold).len(),
        ) == range_notes(counts, 0, counts.len()),
{
    files_cover_all_sections(counts, threshold);
    let ranges = file_ranges(counts, threshold);
    if ranges.len() > 0 {
        lemma_notes_in_ranges(counts, threshold, ranges.len());
        let last = ranges[ranges.len() - 1];
        assert(last.0 + last.1 == counts.len());
    } else {
        assert(range_notes(counts, 0, 0) == 0);
    }
}

proof fn lemma_no_start_within(counts: Seq<nat>, threshold: u64, k: int, j: nat)
    requires
        0 <= k < file_starts(counts, threshold as nat, counts.len()).len(),
        file_starts(counts, threshold as nat, counts.len())[k] < j < file_end(
            file_starts(counts, threshold as nat, counts.len()),
            counts.len(),
            k,
        ),
    ensures
        !starts_file(counts, threshold as nat, j),
{
    let t = threshold as nat;
    let n = counts.len();
    let starts = file_starts(counts, t, n);
    lemma_starts_increase(counts, t, n);
    if k + 1 < starts.len() {
        assert(starts[k + 1] < n);
    }
    lemma_starts_are_listed(counts, t, n, j);
    if starts.contains(j) {
        let m = choose|m: int| 0 <= m < starts.len() && starts[m] == j;
        if m < k {
            assert(starts[m] < starts[k]);
        }
        if k + 1 < m {
            assert(starts[k + 1] < starts[m]);
        }
    }
}

proof fn lemma_load_covers(counts: Seq<nat>, threshold: nat, i: nat)
    requires
        i < counts.len(),
    ensures
        load_before(counts, threshold, i + 1) >= counts[i as int],
{
}

/// A section that alone exceeds the threshold is the last one of its file.
pub proof fn oversized_section_ends_its_file(counts: Seq<nat>, threshold: u64, k: int, i: nat)
    requires
        0 <= k < file_ranges(counts, Some(threshold)).len(),
        ({
            let (start, len) = file_ranges(counts, Some(threshold))[k];
            start <= i < start + len
        }),
        counts[i as int] > threshold,
    ensures
        ({
            let (start, len) = file_ranges(counts, Some(threshold))[k];
            i + 1 == start + len
        }),
{
    let t = threshold as nat;
    let n = counts.len();
    let starts = file_starts(counts, t, n);
    files_cover_all_sections(counts, Some(threshold));
    lemma_starts_increase(counts, t, n);
    assert(file_ranges(counts, Some(threshold))[k].0 == starts[k]);
    if k + 1 < starts.len() {
        assert(starts[k + 1] < n);
        assert(file_ranges(counts, Some(threshold))[k + 1].0 == starts[k + 1]);
    }
    if i + 1 < file_end(starts, n, k) {
        lemma_load_covers(counts, t, i);
        assert(starts_file(counts, t, i + 1));
        lemma_no_start_within(counts, threshold, k, i + 1);
    }
}

/// A file is closed only when it has to be: together with the section that follows
/// it, it has more notes than the threshold allows.
pub proof fn next_section_would_exceed(counts: Seq<nat>, threshold: u64, k: int)
    requires
        0 <= k,
        k + 1 < file_ranges(counts, Some(threshold)).len(),
    ensures
        ({
            let (start, len) = file_ranges(counts, Some(threshold))[k];
            &&& start + len < counts.len()
            &&& range_notes(counts, start, start + len) > 0
            &&& range_notes(counts, start, start + len) + counts[(start + len) as int] > threshold
        }),
{
    let t = threshold as nat;
    let n = counts.len();
    let starts = file_starts(counts, t, n);
    files_cover_all_sections(counts, Some(threshold));
    lemma_starts_increase(counts, t, n);
    let a = starts[k];
    let b = starts[k + 1];
    assert(a < b < n);
    assert(file_ranges(counts, Some(threshold))[k] == (a, (b - a) as nat));
    lemma_starts_are_listed(counts, t, n, a);
    lemma_starts_are_listed(counts, t, n, b);
    assert forall|j: nat| a < j < b implies !#[trigger] starts_file(counts, t, j) by {
        lemma_no_start_within(counts, threshold, k, j);
    }
    lemma_load_is_sum(counts, t, a, b);
}

/// A division of the sections into files, given by the first section of each: the
/// files follow one another from the first section on, none is empty, and none has
/// more notes than the threshold allows.
pub open spec fn is_division(counts: Seq<nat>, threshold: nat, cuts: Seq<nat>) -> bool {
    &&& increasing_below(cuts, counts.len())
    &&& counts.len() > 0 ==> cuts.len() > 0 && cuts[0] == 0
    &&& forall|k: int|
        0 <= k < cuts.len() ==> #[trigger] range_notes(
            counts,
            cuts[k],
            file_end(cuts, counts.len(), k),
        ) <= threshold
}

/// File by file, the plan comes at least as far as any other division.
proof fn lemma_plan_stays_ahead(counts: Seq<nat>, threshold: u64, cuts: Seq<nat>, k: int)
    requires
        is_division(counts, threshold as nat, cuts),
        0 <= k < cuts.len(),
        k < file_ranges(counts, Some(threshold)).len(),
    ensures
        cuts[k] <= file_ranges(counts, Some(threshold))[k].0,
    decreases k,
{
    let ranges = file_ranges(counts, Some(threshold));
    files_cover_all_sections(counts, Some(threshold));
    if k > 0 {
        lemma_plan_stays_ahead(counts, threshold, cuts, k - 1);
        let (start, len) = ranges[k - 1];
        let next = start + len;
        assert(next == ranges[k].0);
        if next < cuts[k] {
            lemma_longer_run_exceeds(counts, threshold, k - 1, cuts[k - 1], cuts[k]);
            assert(file_end(cuts, counts.len(), k - 1) == cuts[k]);
        }
    }
}

/// Sections that hold a whole file of the plan and the section behind it exceed the
/// threshold.
proof fn lemma_longer_run_exceeds(counts: Seq<nat>, threshold: u64, k: int, a: nat, b: nat)
    requires
        0 <= k,
        k + 1 < file_ranges(counts, Some(threshold)).len(),
        a <= file_ranges(counts, Some(threshold))[k].0,
        file_ranges(counts, Some(threshold))[k].0 + file_ranges(counts, Some(threshold))[k].1 < b
            <= counts.len(),
    ensures
        range_notes(counts, a, b) > threshold,
{
    let (start, len) = file_ranges(counts, Some(threshold))[k];
    let next = start + len;
    next_section_would_exceed(counts, threshold, k);
    lemma_range_notes_split(counts, a, start, b);
    lemma_range_notes_split(counts, start, next, b);
    lemma_range_notes_split(counts, next, next + 1, b);
    reveal_with_fuel(range_notes, 2);
    assert(range_notes(counts, next, next + 1) == counts[next as int]);
}

/// The number of files is the least possible: no division of the sections that keeps
/// every file within the threshold has fewer.
pub proof fn files_are_fewest(counts: Seq<nat>, threshold: u64, cuts: Seq<nat>)
    requires
        is_division(counts, threshold as nat, cuts),
    ensures
        file_ranges(counts, Some(threshold)).len() <= cuts.len(),
{
    let ranges = file_ranges(counts, Some(threshold));
    files_cover_all_sections(counts, Some(threshold));
    if cuts.len() < ranges.len() {
        assert(counts.len() > 0) by {
            lemma_starts_increase(counts, threshold as nat, counts.len());
            assert(file_starts(counts, threshold as nat, counts.len())[0] < counts.len());
        }
        let last = cuts.len() - 1;
        lemma_plan_stays_ahead(counts, threshold, cuts, last);
        next_section_would_exceed(counts, threshold, last);
        lemma_longer_run_exceeds(counts, threshold, last, cuts[last], counts.len());
        assert(file_end(cuts, counts.len(), last) == counts.len());
    }
}

/// Where no section alone exceeds the threshold, the files of the plan keep within
/// it, and there is nothing to warn of.
pub proof fn plan_is_division(counts: Seq<nat>, threshold: u64)
    requires
        forall|i: int| 0 <= i < counts.len() ==> #[trigger] counts[i] <= threshold,
    ensures
        is_division(
            counts,
            threshold as nat,
            file_ranges(counts, Some(threshold)).map_values(|r: (nat, nat)| r.0),
        ),
        all_oversized(counts, Some(threshold)).len() == 0,
        oversized_text(all_oversized(counts, Some(threshold))) == Seq::<char>::empty(),
{
    let t = threshold as nat;
    let n = counts.len();
    let starts = file_starts(counts, t, n);
    let ranges = file_ranges(counts, Some(threshold));
    let cuts = ranges.map_values(|r: (nat, nat)| r.0);
    assert(cuts =~= starts);
    lemma_starts_increase(counts, t, n);
    assert forall|k: int| 0 <= k < cuts.len() implies #[trigger] range_notes(
        counts,
        cuts[k],
        file_end(cuts, n, k),
    ) <= t by {
        files_respect_threshold(counts, threshold, k);
        files_cover_all_sections(counts, Some(threshold));
        let (start, len) = ranges[k];
        if k + 1 < starts.len() {
            assert(ranges[k + 1].0 == starts[k + 1]);
        }
        assert(start + len == file_end(cuts, n, k));
        assert(start + len <= n);
    }
    lemma_none_oversized(counts, t, n);
}

proof fn lemma_none_oversized(counts: Seq<nat>, threshold: nat, n: nat)
    requires
        n <= counts.len(),
        forall|i: int| 0 <= i < counts.len() ==> #[trigger] counts[i] <= threshold,
    ensures
        oversized_sections(counts, threshold, n).len() == 0,
    decreases n,
{
    if n > 0 {
        lemma_none_oversized(counts, threshold, (n - 1) as nat);
    }
}

/// The name that the file names of a chart are made from: where there is one chart
/// for all inputs, that is chosen with the output (`None`). Else it is the stem of
/// the input ("chart" where it has none) with the extension of the output ("json"
/// where it has none, and always in a batch, whose output is a directory).
pub open spec fn base_file_name(
    mode: ConversionMode,
    stem: Option<Seq<char>>,
    extension: Option<Seq<char>>,
) -> Option<Seq<char>> {
    let first = match stem {
        Some(text) => text,
        None => "chart"@,
    };
    match (mode, extension) {
        (ConversionMode::Single, _) => None,
        (ConversionMode::Merge, _) => None,
        (ConversionMode::SplitDifficulties, Some(text)) => Some(first + "."@ + text),
        _ => Some(first + "."@ + "json"@),
    }
}

/// Makes the name that the file names of a chart are made from.
pub fn base_name(mode: ConversionMode, stem: Option<&str>, extension: Option<&str>) -> (r: Option<String>)
    ensures
        string_view(r) == base_file_name(mode, text_view(stem), text_view(extension)),
{
    let mut out: String = match stem {
        Some(text) => text.to_owned(),
        None => "chart".to_owned(),
    };
    put(&mut out, ".");
    match mode {
        ConversionMode::Single | ConversionMode::Merge => None,
        ConversionMode::SplitDifficulties => {
            match extension {
                Some(text) => put(&mut out, text),
                None => put(&mut out, "json"),
            }
            Some(out)
        },
        ConversionMode::Batch => {
            put(&mut out, "json");
            Some(out)
        },
    }
}

/// Without a threshold all sections go to one file, and none is listed as too large.
pub proof fn one_file_without_a_threshold(counts: Seq<nat>)
    ensures
        file_ranges(counts, None).len() == 1,
        file_ranges(counts, None)[0] == (0nat, counts.len()),
        all_oversized(counts, None).len() == 0,
{
}

/// The notes of a run of sections are those of its sections added up.
pub proof fn notes_of_sections_add_up(counts: Seq<nat>, a: nat, b: nat)
    requires
        a <= b <= counts.len(),
    ensures
        range_notes(counts, a, b) == counts.subrange(a as int, b as int).fold_left(
            0nat,
            |sum: nat, n: nat| sum + n,
        ),
    decreases b - a,
{
    let run = counts.subrange(a as int, b as int);
    if a < b {
        notes_of_sections_add_up(counts, a, (b - 1) as nat);
        assert(run.drop_last() =~= counts.subrange(a as int, b - 1));
    }
}

/// The count of a section is the number of its notes.
pub proof fn sections_are_counted_by_their_notes(sections: Seq<SectionView>, i: int)
    requires
        0 <= i < sections.len(),
    ensures
        note_counts(sections).len() == sections.len(),
        note_counts(sections)[i] == sections[i].notes.len(),
{
}

/// The sections with more notes than the threshold are listed, each once and in order,
/// and no others.
pub proof fn oversized_sections_are_listed(counts: Seq<nat>, threshold: u64, i: nat)
    requires
        i < counts.len(),
    ensures
        all_oversized(counts, Some(threshold)).contains(i) <==> counts[i as int] > threshold,
        forall|k: int, m: int|
            0 <= k < m < all_oversized(counts, Some(threshold)).len() ==> #[trigger] all_oversized(
                counts,
                Some(threshold),
            )[k] < #[trigger] all_oversized(counts, Some(threshold))[m],
{
    lemma_oversized_listed(counts, threshold as nat, counts.len(), i);
}

proof fn lemma_oversized_listed(counts: Seq<nat>, threshold: nat, n: nat, i: nat)
    requires
        n <= counts.len(),
    ensures
        oversized_sections(counts, threshold, n).contains(i) <==> i < n && counts[i as int]
            > threshold,
        increasing_below(oversized_sections(counts, threshold, n), n),
    decreases n,
{
    if n > 0 {
        let earlier = oversized_sections(counts, threshold, (n - 1) as nat);
        let now = oversized_sections(counts, threshold, n);
        lemma_oversized_listed(counts, threshold, (n - 1) as nat, i);
        if earlier.contains(i) {
            let k = choose|k: int| 0 <= k < earlier.len() && earlier[k] == i;
            assert(now[k] == i);
        }
        if now.contains(i) {
            let k = choose|k: int| 0 <= k < now.len() && now[k] == i;
            if k < earlier.len() {
                assert(earlier[k] == i);
            }
        }
        if counts[n - 1] > threshold {
            assert(now[now.len() - 1] == n - 1);
        }
    }
}

/// The files of a chart have different names: the first is named without a number, every
/// later one with its own.
pub proof fn files_have_different_names(
    stem: Seq<char>,
    part: Seq<char>,
    difficulty: Seq<char>,
    i: nat,
    j: nat,
    extension: Seq<char>,
)
    ensures
        file_name(stem, part, difficulty, 0, extension) == stem + part + difficulty + "."@ + extension,
        i > 0 ==> file_name(stem, part, difficulty, i, extension) == stem + part + difficulty + "_"@
            + decimal(i + 1) + "."@ + extension,
        i != j ==> file_name(stem, part, difficulty, i, extension) != file_name(
            stem,
            part,
            difficulty,
            j,
            extension,
        ),
{
    let front = stem + part + difficulty;
    let back = "."@ + extension;
    reveal_strlit("_");
    assert(file_name(stem, part, difficulty, 0, extension) =~= front + "."@ + extension);
    if i > 0 {
        assert(file_name(stem, part, difficulty, i, extension) =~= front + "_"@ + decimal(i + 1)
            + "."@ + extension);
    }
    let a = file_name(stem, part, difficulty, i, extension);
    let b = file_name(stem, part, difficulty, j, extension);
    assert(a =~= front + split_suffix(i) + back);
    assert(b =~= front + split_suffix(j) + back);
    if a == b {
        let m = front.len() as int;
        let n = a.len() - back.len();
        assert(a.subrange(m, n) =~= split_suffix(i));
        assert(b.subrange(m, n) =~= split_suffix(j));
        decimals_tell_numbers_apart(i + 1, j + 1);
        if i > 0 && j > 0 {
            assert(split_suffix(i).skip(1) =~= decimal(i + 1));
            assert(split_suffix(j).skip(1) =~= decimal(j + 1));
        }
    }
}

/// The name of the song is that of the settings unless that is blank, then that of the
/// file, and `untitled` without either.
pub proof fn song_is_named_by_settings_then_file(preset_name: Seq<char>, stem: Option<Seq<char>>)
    ensures
        !blank(preset_name) ==> song_name(preset_name, stem) == preset_name,
        blank(preset_name) && stem is Some ==> song_name(preset_name, stem) == stem->0,
        blank(preset_name) && stem is None ==> song_name(preset_name, stem) == "untitled"@,
{
}

/// Single and merged charts go to the output itself. Difficulties are named after the
/// input with the extension of the output, the charts of a batch after their inputs with
/// the extension `json`.
pub proof fn outputs_are_named_by_mode(stem: Option<Seq<char>>, extension: Option<Seq<char>>)
    ensures
        base_file_name(ConversionMode::Single, stem, extension) is None,
        base_file_name(ConversionMode::Merge, stem, extension) is None,
        stem matches Some(name) ==> base_file_name(ConversionMode::Batch, stem, extension) == Some(
            name + "."@ + "json"@,
        ),
        stem is None ==> base_file_name(ConversionMode::Batch, stem, extension) == Some(
            "chart"@ + "."@ + "json"@,
        ),
        (stem is Some && extension is Some) ==> base_file_name(
            ConversionMode::SplitDifficulties,
            stem,
            extension,
        ) == Some(stem->0 + "."@ + extension->0),
        (stem is Some && extension is None) ==> base_file_name(
            ConversionMode::SplitDifficulties,
            stem,
            extension,
        ) == Some(stem->0 + "."@ + "json"@),
        (stem is None && extension is Some) ==> base_file_name(
            ConversionMode::SplitDifficulties,
            stem,
            extension,
        ) == Some("chart"@ + "."@ + extension->0),
        (stem is None && extension is None) ==> base_file_name(
            ConversionMode::SplitDifficulties,
            stem,
            extension,
        ) == Some("chart"@ + "."@ + "json"@),
{
}

/// One of a thing is told without the plural `s`, any other number with it.
pub proof fn plurals_end_in_s(n: nat)
    ensures
        plural(n) == "s"@ <==> n != 1,
        n == 1 ==> plural(n) == ""@,
{
    reveal_strlit("s");
    reveal_strlit("");
    assert("s"@.len() == 1);
    assert(""@.len() == 0);
}

/// The warning names every section that is too large, and is empty without one.
pub proof fn warning_names_oversized_sections(oversized: Seq<nat>)
    ensures
        oversized.len() == 0 ==> oversized_text(oversized) == Seq::<char>::empty(),
        oversized.len() == 1 ==> oversized_text(oversized) == " Warning: "@ + decimal(1)
            + " section"@ + ""@
            + " exceeded the split threshold and could not be split (section"@ + ""@ + " "@
            + decimal(oversized[0]) + ")."@,
        oversized.len() > 1 ==> oversized_text(oversized) == " Warning: "@ + decimal(
            oversized.len(),
        ) + " section"@ + "s"@
            + " exceeded the split threshold and could not be split (section"@ + "s"@ + " "@ + joined(
            oversized.map_values(|n: nat| decimal(n)),
            ", "@,
        ) + ")."@,
{
    if oversized.len() == 1 {
        assert(decimals(oversized) =~= seq![decimal(oversized[0])]);
    }
    if oversized.len() > 1 {
        assert(decimals(oversized) =~= oversized.map_values(|n: nat| decimal(n)));
    }
}

/// What is seen of ranges and positions is their numbers.
pub proof fn views_show_whole_plans(ranges: Seq<(usize, usize)>, indices: Seq<usize>)
    ensures
        range_views(ranges).len() == ranges.len(),
        forall|i: int|
            0 <= i < ranges.len() ==> #[trigger] range_views(ranges)[i] == (
                ranges[i].0 as nat,
                ranges[i].1 as nat,
            ),
        index_views(indices).len() == indices.len(),
        forall|i: int| 0 <= i < indices.len() ==> #[trigger] index_views(indices)[i] == indices[i],
{
}

} // verus!
