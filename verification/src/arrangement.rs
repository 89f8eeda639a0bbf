//! Bringing a chart into the form in which it is written: sorted sections, spread
//! over files.

use crate::chart::{
    notes_sorted, section_views, sort_section, sorted_means_by_position_and_lane, ChartNote, Section,
    SectionView,
};
use crate::grouping::{note_bag, note_sum};
use crate::output::{
    all_oversized, file_ranges, files_cover_all_sections, index_views, lemma_range_notes_split, note_counts,
    plan_split, range_notes, range_views, SplitPlan,
};
use crate::pipeline::Chart;
use crate::report::SECTION_BATCH;
use crate::types::Progress;
use vstd::prelude::*;

verus! {

/// A chart that can be written.
#[derive(Clone, Debug, PartialEq, Eq)]
pub struct Arrangement {
    /// The sections, each with its notes sorted.
    pub sections: Vec<Section>,
    /// How the sections are spread over files.
    pub plan: SplitPlan,
    /// Number of notes of each file.
    pub file_notes: Vec<usize>,
    /// Number of notes of all files together.
    pub written: usize,
}

/// `after` is `before` with its notes sorted.
pub open spec fn section_sorted(before: SectionView, after: SectionView) -> bool {
    &&& after == (SectionView { notes: after.notes, ..before })
    &&& notes_sorted(after.notes, before.must_hit_section)
    &&& after.notes.to_multiset() == before.notes.to_multiset()
}

/// The sections of `after` are those of `before`, each with its notes sorted.
pub open spec fn all_sorted(before: Seq<SectionView>, after: Seq<SectionView>) -> bool {
    &&& after.len() == before.len()
    &&& forall|i: int| 0 <= i < before.len() ==> section_sorted(before[i], #[trigger] after[i])
}

/// The reports on sorting the first `n` sections: one after every batch of sections
/// and one after the last, none where there are no notes.
pub open spec fn sorting_reports(counts: Seq<nat>, total: nat, n: nat) -> Seq<Progress>
    decreases n,
{
    if n == 0 {
        seq![]
    } else {
        let earlier = sorting_reports(counts, total, (n - 1) as nat);
        if total > 0 && (n % (SECTION_BATCH as nat) == 0 || n == counts.len()) {
            earlier.push(
                Progress::Notes { done: range_notes(counts, 0, n) as usize, total: total as usize },
            )
        } else {
            earlier
        }
    }
}

proof fn lemma_sum_is_range(sections: Seq<SectionView>, n: nat)
    requires
        n <= sections.len(),
    ensures
        note_sum(sections, n) == range_notes(note_counts(sections), 0, n),
    decreases n,
{
    if n > 0 {
        lemma_sum_is_range(sections, (n - 1) as nat);
        assert(note_counts(sections)[n - 1] == sections[n - 1].notes.len());
    }
}

proof fn lemma_part_of_range(counts: Seq<nat>, a: nat, b: nat, c: nat)
    requires
        a <= b <= c,
    ensures
        range_notes(counts, a, b) <= range_notes(counts, 0, c),
{
    lemma_range_notes_split(counts, 0, a, c);
    lemma_range_notes_split(counts, a, b, c);
}

/// Sorting changes no number of notes.
proof fn lemma_sorted_counts(before: Seq<SectionView>, after: Seq<SectionView>)
    requires
        all_sorted(before, after),
    ensures
        note_counts(after) == note_counts(before),
{
    broadcast use vstd::seq_lib::group_to_multiset_ensures;

    assert forall|i: int| 0 <= i < before.len() implies note_counts(after)[i] == note_counts(before)[i] by {
        assert(section_sorted(before[i], after[i]));
        assert(after[i].notes.to_multiset().len() == before[i].notes.to_multiset().len());
    }
    assert(note_counts(after) =~= note_counts(before));
}

/// Sorting the sections of a chart keeps every note of the chart.
pub proof fn sorting_keeps_all_notes(before: Seq<SectionView>, after: Seq<SectionView>, n: nat)
    requires
        all_sorted(before, after),
        n <= before.len(),
    ensures
        note_bag(after, n) == note_bag(before, n),
    decreases n,
{
    if n > 0 {
        sorting_keeps_all_notes(before, after, (n - 1) as nat);
        assert(section_sorted(before[n - 1], after[n - 1]));
    }
}

/// Counts the notes of each file of a plan.
fn count_file_notes(
    sections: &Vec<Section>,
    plan: &SplitPlan,
    Ghost(threshold): Ghost<Option<u64>>,
) -> (r: Vec<usize>)
    requires
        range_views(plan.ranges@) == file_ranges(note_counts(section_views(sections@)), threshold),
        note_sum(section_views(sections@), sections@.len()) <= usize::MAX,
    ensures
        r@.len() == plan.ranges@.len(),
        forall|k: int|
            0 <= k < r@.len() ==> #[trigger] r@[k] == range_notes(
                note_counts(section_views(sections@)),
                range_views(plan.ranges@)[k].0,
                range_views(plan.ranges@)[k].0 + range_views(plan.ranges@)[k].1,
            ),
{
    let ghost views = section_views(sections@);
    let ghost counts = note_counts(views);
    let ghost ranges = range_views(plan.ranges@);
    proof {
        lemma_sum_is_range(views, views.len());
        files_cover_all_sections(counts, threshold);
    }
    let mut out: Vec<usize> = Vec::new();
    for k in 0..plan.ranges.len()
        invariant
            views == section_views(sections@),
            counts == note_counts(views),
            counts.len() == sections@.len() == sections.len(),
            ranges == range_views(plan.ranges@),
            ranges == file_ranges(counts, threshold),
            range_notes(counts, 0, counts.len()) <= usize::MAX,
            out@.len() == k,
            forall|j: int|
                0 <= j < out@.len() ==> #[trigger] out@[j] == range_notes(
                    counts,
                    ranges[j].0,
                    ranges[j].0 + ranges[j].1,
                ),
    {
        let (start, len) = plan.ranges[k];
        proof {
            assert(ranges[k as int] == (start as nat, len as nat));
            lemma_file_within(counts, threshold, k as int);
        }
        let mut notes: usize = 0;
        let end: usize = start + len;
        for i in start..end
            invariant
                views == section_views(sections@),
                counts == note_counts(views),
                counts.len() == sections@.len(),
                end <= sections@.len(),
                start <= i <= end,
                range_notes(counts, 0, counts.len()) <= usize::MAX,
                notes == range_notes(counts, start as nat, i as nat),
        {
            proof {
                assert(counts[i as int] == sections@[i as int].notes@.len());
                lemma_part_of_range(counts, start as nat, (i + 1) as nat, counts.len());
            }
            notes += sections[i].notes.len();
        }
        out.push(notes);
    }
    out
}

/// A file of a plan lies within the sections.
proof fn lemma_file_within(counts: Seq<nat>, threshold: Option<u64>, k: int)
    requires
        0 <= k < file_ranges(counts, threshold).len(),
    ensures
        file_ranges(counts, threshold)[k].0 + file_ranges(counts, threshold)[k].1 <= counts.len(),
    decreases file_ranges(counts, threshold).len() - k,
{
    files_cover_all_sections(counts, threshold);
    let ranges = file_ranges(counts, threshold);
    if k + 1 < ranges.len() {
        lemma_file_within(counts, threshold, k + 1);
        assert(ranges[k].0 + ranges[k].1 == ranges[k + 1].0);
    }
}

/// Sorts the notes of every section of a chart and spreads the sections over files.
/// Progress reports go to `log`.
pub fn arrange(chart: Chart, threshold: Option<u64>, log: &mut Vec<Progress>) -> (r: Arrangement)
    requires
        chart.well_formed(),
    ensures
        all_sorted(section_views(chart.sections@), section_views(r.sections@)),
        ({
            let counts = note_counts(section_views(chart.sections@));
            let ranges = file_ranges(counts, threshold);
            &&& note_counts(section_views(r.sections@)) == counts
            &&& range_views(r.plan.ranges@) == ranges
            &&& index_views(r.plan.oversized@) == all_oversized(counts, threshold)
            &&& r.file_notes@.len() == ranges.len()
            &&& forall|k: int|
                0 <= k < ranges.len() ==> #[trigger] r.file_notes@[k] == range_notes(
                    counts,
                    ranges[k].0,
                    ranges[k].0 + ranges[k].1,
                )
            &&& r.written == chart.written
            &&& final(log)@ == old(log)@.push(Progress::Stage("Sorting sections")) + sorting_reports(
                counts,
                chart.written as nat,
                counts.len(),
            )
        }),
{
    let ghost before = section_views(chart.sections@);
    let ghost counts = note_counts(before);
    let written: usize = chart.written;
    let ghost unsorted = chart.sections@;
    let mut sections: Vec<Section> = chart.sections;
    let count: usize = sections.len();
    log.push(Progress::Stage("Sorting sections"));
    let ghost begun = log@;
    let mut done: usize = 0;
    proof {
        lemma_sum_is_range(before, before.len());
        assert(log@ =~= begun + sorting_reports(counts, written as nat, 0));
    }
    for i in 0..count
        invariant
            before == section_views(unsorted),
            counts == note_counts(before),
            count == sections@.len() == unsorted.len() == counts.len(),
            written == range_notes(counts, 0, counts.len()),
            done == range_notes(counts, 0, i as nat),
            forall|j: int| 0 <= j < i ==> section_sorted(before[j], (#[trigger] sections@[j])@),
            forall|j: int| i <= j < count ==> #[trigger] sections@[j] == unsorted[j],
            log@ == begun + sorting_reports(counts, written as nat, i as nat),
    {
        proof {
            assert(before[i as int] == unsorted[i as int]@);
            assert(counts[i as int] == before[i as int].notes.len());
            lemma_part_of_range(counts, 0, (i + 1) as nat, counts.len());
        }
        done += sections[i].notes.len();
        sort_section(&mut sections[i]);
        if written > 0 && ((i + 1) % SECTION_BATCH == 0 || i + 1 == count) {
            log.push(Progress::Notes { done, total: written });
        }
        assert(log@ =~= begun + sorting_reports(counts, written as nat, (i + 1) as nat));
    }
    proof {
        let after = section_views(sections@);
        assert forall|i: int| 0 <= i < before.len() implies section_sorted(
            before[i],
            #[trigger] after[i],
        ) by {
            assert(after[i] == sections@[i]@);
        }
        lemma_sorted_counts(before, after);
        lemma_sum_is_range(after, after.len());
    }
    let plan: SplitPlan = plan_split(&sections, threshold);
    let file_notes: Vec<usize> = count_file_notes(&sections, &plan, Ghost(threshold));
    Arrangement { sections, plan, file_notes, written }
}

/// Arranging a chart changes nothing of a section but the order of its notes: each note
/// stands in it as often as before, by position and then by lane number.
pub proof fn arranging_changes_only_the_order(
    before: Seq<SectionView>,
    after: Seq<SectionView>,
    i: int,
)
    requires
        all_sorted(before, after),
        0 <= i < before.len(),
    ensures
        after.len() == before.len(),
        after[i].alt == before[i].alt,
        after[i].bpm_change == before[i].bpm_change,
        after[i].alt_anim == before[i].alt_anim,
        after[i].must_hit_marker == before[i].must_hit_marker,
        after[i].must_hit_section == before[i].must_hit_section,
        after[i].base_tempo == before[i].base_tempo,
        after[i].notes.len() == before[i].notes.len(),
        forall|note: ChartNote|
            #[trigger] after[i].notes.to_multiset().count(note)
                == before[i].notes.to_multiset().count(note),
        forall|j: int, k: int|
            #![trigger after[i].notes[j], after[i].notes[k]]
            0 <= j < k < after[i].notes.len() ==> {
                let a = after[i].notes[j];
                let b = after[i].notes[k];
                let first = before[i].must_hit_section;
                &&& a.position <= b.position
                &&& a.position == b.position ==> (a.direction + if a.player == first {
                    0int
                } else {
                    4int
                }) % 256 <= (b.direction + if b.player == first {
                    0int
                } else {
                    4int
                }) % 256
            },
{
    broadcast use vstd::seq_lib::group_to_multiset_ensures;

    assert(section_sorted(before[i], after[i]));
    assert(after[i].notes.to_multiset().len() == before[i].notes.to_multiset().len());
    sorted_means_by_position_and_lane(after[i].notes, before[i].must_hit_section);
}

/// Sorting is reported after every 256 sections and after the last, with the notes done so
/// far; not at all where there are no notes.
pub proof fn sorting_is_reported_in_batches(counts: Seq<nat>, total: nat, n: nat)
    requires
        n < counts.len(),
    ensures
        sorting_reports(counts, total, 0).len() == 0,
        total > 0 && ((n + 1) % 256 == 0 || n + 1 == counts.len()) ==> sorting_reports(
            counts,
            total,
            n + 1,
        ) == sorting_reports(counts, total, n).push(
            Progress::Notes {
                done: range_notes(counts, 0, n + 1) as usize,
                total: total as usize,
            },
        ),
        !(total > 0 && ((n + 1) % 256 == 0 || n + 1 == counts.len())) ==> sorting_reports(
            counts,
            total,
            n + 1,
        ) == sorting_reports(counts, total, n),
{
}

} // verus!
