//! Whole runs of a conversion, from the first input to the end, and what they come
//! to in each mode.

use crate::bytes::FlpError;
use crate::conversion::{
    after_read, after_written, fresh, input_turn, job_turn, planned_jobs, ChartTaskView,
    ConversionView, StatsView, StepView, TotalsView,
};
use crate::flp::is_score;
use crate::inspect::{difficulty_slots, input_info};
use crate::pipeline::{
    batch_input_is_single_conversion, batch_name, batch_pattern, chart_input,
    difficulties_have_notes, difficulty_is_single_conversion, filled_slots, merged, merged_inputs,
    one_job_per_slot, single_chart_input, split_chart_input, with_pattern_id, ChartInputView,
    ConvertError, MergeView, SplitJob,
};
use crate::report::skipped_text;
use crate::text::quoted;
use crate::types::{ConversionMode, ConversionPreset};
use vstd::prelude::*;

verus! {

/// An input file.
pub struct InputFile {
    pub bytes: Seq<u8>,
    pub file_name: Option<Seq<char>>,
    /// What the file is called in warnings.
    pub stem: Seq<char>,
}

/// What a run comes to.
#[verifier::ext_equal]
pub struct Course {
    /// The charts that are made, in order.
    pub charts: Seq<ChartTaskView>,
    /// What is told at the end, or the error; `None` for a run that is not over.
    pub end: Option<Result<StatsView, ConvertError>>,
}

/// The run from a given step on, over at most `fuel` steps. The files are read as
/// they are asked for, and `told` says of each chart what is told of it once it is
/// written.
pub open spec fn course(
    c: ConversionView,
    step: Result<StepView, ConvertError>,
    files: Seq<InputFile>,
    told: spec_fn(ChartTaskView) -> StatsView,
    preset: ConversionPreset,
    fuel: nat,
) -> Course
    decreases fuel,
{
    match step {
        Err(e) => Course { charts: seq![], end: Some(Err(e)) },
        Ok(StepView::Done(stats)) => Course { charts: seq![], end: Some(Ok(stats)) },
        Ok(StepView::Read(i)) => if fuel == 0 {
            Course { charts: seq![], end: None }
        } else {
            let file = files[i as int];
            let (next, state) = after_read(c, file.bytes, file.file_name, preset);
            course(state, next, files, told, preset, (fuel - 1) as nat)
        },
        Ok(StepView::Chart(task)) => if fuel == 0 {
            Course { charts: seq![], end: None }
        } else {
            let stem = files[task.source as int].stem;
            let (next, state) = after_written(c, told(task), stem, preset);
            let rest = course(state, next, files, told, preset, (fuel - 1) as nat);
            Course { charts: seq![task] + rest.charts, end: rest.end }
        },
    }
}

/// A whole run: from the first input on, with as many steps as there can be.
pub open spec fn run(
    mode: ConversionMode,
    files: Seq<InputFile>,
    told: spec_fn(ChartTaskView) -> StatsView,
    preset: ConversionPreset,
) -> Course {
    course(
        fresh(mode, files.len()),
        Ok(StepView::Read(0)),
        files,
        told,
        preset,
        2 * files.len() + 4,
    )
}

/// A single conversion makes one chart and tells what is told of it; where the input
/// cannot be converted, it fails with that error and makes none.
pub proof fn single_run(
    file: InputFile,
    told: spec_fn(ChartTaskView) -> StatsView,
    preset: ConversionPreset,
)
    ensures
        run(ConversionMode::Single, seq![file], told, preset) == match single_chart_input(
            file.bytes,
            preset,
        ) {
            Ok(input) => {
                let task = ChartTaskView { input, source: 0, suffix: "" };
                Course { charts: seq![task], end: Some(Ok(told(task))) }
            },
            Err(e) => Course { charts: seq![], end: Some(Err(e)) },
        },
{
    reveal_with_fuel(course, 3);
}

/// The name of the pattern that a batch converts, as it is known before input `i`.
pub open spec fn known_name(files: Seq<InputFile>, preset: ConversionPreset, i: nat) -> Option<Seq<char>>
    decreases i,
{
    if i == 0 {
        None
    } else {
        batch_name(
            files[i - 1].bytes,
            known_name(files, preset, (i - 1) as nat),
            preset.pattern_id,
        )
    }
}

/// What a single conversion of input `i` of a batch is made from, with the pattern
/// that the batch takes there selected.
pub open spec fn item_input(files: Seq<InputFile>, preset: ConversionPreset, i: nat) -> Result<
    ChartInputView,
    ConvertError,
> {
    let bytes = files[i as int].bytes;
    let id = batch_pattern(bytes, known_name(files, preset, i), preset.pattern_id);
    single_chart_input(bytes, with_pattern_id(preset, id))
}

/// The charts of the inputs of a batch from `i` on: one for each that has notes, up to
/// the first that cannot be converted.
pub open spec fn item_charts(files: Seq<InputFile>, preset: ConversionPreset, i: nat) -> Seq<ChartTaskView>
    decreases files.len() - i,
{
    if i >= files.len() {
        seq![]
    } else {
        let rest = item_charts(files, preset, i + 1);
        match item_input(files, preset, i) {
            Ok(input) => seq![ChartTaskView { input, source: i, suffix: "" }] + rest,
            Err(ConvertError::NoNotes) => rest,
            Err(_) => seq![],
        }
    }
}

/// The error of the first input of a batch from `i` on that has notes and cannot be
/// converted.
pub open spec fn item_error(files: Seq<InputFile>, preset: ConversionPreset, i: nat) -> Option<
    ConvertError,
>
    decreases files.len() - i,
{
    if i >= files.len() {
        None
    } else {
        match item_input(files, preset, i) {
            Ok(_) | Err(ConvertError::NoNotes) => item_error(files, preset, i + 1),
            Err(e) => Some(e),
        }
    }
}

/// How a run ends: with an error, or with what the totals tell.
pub open spec fn run_end(error: Option<ConvertError>, totals: TotalsView) -> Option<
    Result<StatsView, ConvertError>,
> {
    match error {
        Some(e) => Some(Err(e)),
        None => Some(Ok(totals.told())),
    }
}

/// The totals over some charts, each with the name of its input.
pub open spec fn totals_of(
    totals: TotalsView,
    charts: Seq<ChartTaskView>,
    files: Seq<InputFile>,
    told: spec_fn(ChartTaskView) -> StatsView,
) -> TotalsView
    decreases charts.len(),
{
    if charts.len() == 0 {
        totals
    } else {
        let first = charts[0];
        totals_of(
            totals.with(told(first), Some(files[first.source as int].stem)),
            charts.skip(1),
            files,
            told,
        )
    }
}

/// No totals yet.
pub open spec fn no_totals() -> TotalsView {
    TotalsView { notes: 0, sections: 0, files: 0, warnings: seq![] }
}

/// An input of a batch is charted, passed over or refused.
proof fn lemma_batch_item(c: ConversionView, files: Seq<InputFile>, preset: ConversionPreset)
    requires
        c.mode == ConversionMode::Batch,
        c.at < files.len(),
        c.name == known_name(files, preset, c.at),
    ensures
        ({
            let file = files[c.at as int];
            let known = ConversionView { name: known_name(files, preset, c.at + 1), ..c };
            let turn = after_read(c, file.bytes, file.file_name, preset);
            match item_input(files, preset, c.at) {
                Ok(input) => turn == (
                    Ok::<StepView, ConvertError>(
                        StepView::Chart(ChartTaskView { input, source: c.at, suffix: "" }),
                    ),
                    known,
                ),
                Err(ConvertError::NoNotes) => turn == input_turn(known),
                Err(e) => turn == (Err::<StepView, ConvertError>(e), known),
            }
        }),
{
    batch_input_is_single_conversion(files[c.at as int].bytes, c.name, preset);
}

proof fn lemma_batch_course(
    c: ConversionView,
    files: Seq<InputFile>,
    told: spec_fn(ChartTaskView) -> StatsView,
    preset: ConversionPreset,
    fuel: nat,
)
    requires
        c.mode == ConversionMode::Batch,
        c.count == files.len(),
        c.at < c.count,
        c.name == known_name(files, preset, c.at),
        fuel >= 2 * (c.count - c.at),
    ensures
        ({
            let charts = item_charts(files, preset, c.at);
            course(c, Ok(StepView::Read(c.at)), files, told, preset, fuel) == (Course {
                charts,
                end: run_end(
                    item_error(files, preset, c.at),
                    totals_of(c.totals, charts, files, told),
                ),
            })
        }),
    decreases c.count - c.at, 1int,
{
    let i = c.at;
    let file = files[i as int];
    let charts = item_charts(files, preset, i);
    let rest = item_charts(files, preset, i + 1);
    let known = ConversionView { name: known_name(files, preset, i + 1), ..c };
    lemma_batch_item(c, files, preset);
    if let Ok(input) = item_input(files, preset, i) {
        let task = ChartTaskView { input, source: i, suffix: "" };
        let charted = ConversionView {
            totals: c.totals.with(told(task), Some(file.stem)),
            ..known
        };
        assert(charts =~= seq![task] + rest);
        assert(charts.skip(1) =~= rest);
        assert(after_written(known, told(task), file.stem, preset) == input_turn(charted));
        lemma_next_item(charted, files, told, preset, (fuel - 2) as nat);
        let after = course(
            input_turn(charted).1,
            input_turn(charted).0,
            files,
            told,
            preset,
            (fuel - 2) as nat,
        );
        assert(course(
            known,
            Ok(StepView::Chart(task)),
            files,
            told,
            preset,
            (fuel - 1) as nat,
        ) == (Course { charts: seq![task] + after.charts, end: after.end }));
    } else if item_input(files, preset, i) == Err::<ChartInputView, ConvertError>(
        ConvertError::NoNotes,
    ) {
        assert(charts == rest);
        lemma_next_item(known, files, told, preset, (fuel - 1) as nat);
    } else {
        reveal_with_fuel(course, 2);
        assert(charts =~= seq![]);
    }
}

/// The rest of a batch behind input `c.at`.
proof fn lemma_next_item(
    c: ConversionView,
    files: Seq<InputFile>,
    told: spec_fn(ChartTaskView) -> StatsView,
    preset: ConversionPreset,
    fuel: nat,
)
    requires
        c.mode == ConversionMode::Batch,
        c.count == files.len(),
        c.at < c.count,
        c.name == known_name(files, preset, c.at + 1),
        fuel >= 2 * (c.count - c.at - 1),
    ensures
        ({
            let charts = item_charts(files, preset, c.at + 1);
            course(input_turn(c).1, input_turn(c).0, files, told, preset, fuel) == (Course {
                charts,
                end: run_end(
                    item_error(files, preset, c.at + 1),
                    totals_of(c.totals, charts, files, told),
                ),
            })
        }),
    decreases c.count - c.at, 0int,
{
    if c.at + 1 < c.count {
        lemma_batch_course(input_turn(c).1, files, told, preset, fuel);
    } else {
        assert(item_charts(files, preset, c.at + 1) =~= seq![]);
    }
}

/// A batch gives, input by input, what single conversions give: one chart for each
/// input that has notes, in order, made from what a single conversion of that input
/// is made from. Inputs without notes are passed over. The first input that has notes
/// and cannot be converted ends the batch with its error; otherwise the sums over the
/// charts are told at the end.
pub proof fn batch_runs_single_conversions(
    files: Seq<InputFile>,
    told: spec_fn(ChartTaskView) -> StatsView,
    preset: ConversionPreset,
)
    requires
        files.len() > 0,
    ensures
        ({
            let charts = item_charts(files, preset, 0);
            run(ConversionMode::Batch, files, told, preset) == (Course {
                charts,
                end: run_end(
                    item_error(files, preset, 0),
                    totals_of(no_totals(), charts, files, told),
                ),
            })
        }),
{
    lemma_batch_course(
        fresh(ConversionMode::Batch, files.len()),
        files,
        told,
        preset,
        2 * files.len() + 4,
    );
}

/// Where every chart is written to one file, there are as many files as charts.
pub proof fn one_file_per_chart(
    totals: TotalsView,
    charts: Seq<ChartTaskView>,
    files: Seq<InputFile>,
    told: spec_fn(ChartTaskView) -> StatsView,
)
    requires
        forall|task: ChartTaskView| (#[trigger] told(task)).files == 1,
    ensures
        totals_of(totals, charts, files, told).files == totals.files + charts.len(),
        totals_of(totals, charts, files, told).told().files == totals.files + charts.len(),
    decreases charts.len(),
{
    if charts.len() > 0 {
        one_file_per_chart(
            totals.with(told(charts[0]), Some(files[charts[0].source as int].stem)),
            charts.skip(1),
            files,
            told,
        );
    }
}

/// The inputs by their bytes and file names.
pub open spec fn named_inputs(files: Seq<InputFile>) -> Seq<(Seq<u8>, Option<Seq<char>>)> {
    files.map_values(|file: InputFile| (file.bytes, file.file_name))
}

/// What a merge comes to once all inputs were read.
pub open spec fn merge_course(
    merge: Result<MergeView, FlpError>,
    told: spec_fn(ChartTaskView) -> StatsView,
    preset: ConversionPreset,
) -> Course {
    match merge {
        Err(e) => Course { charts: seq![], end: Some(Err(ConvertError::Flp(e))) },
        Ok(merge) => match chart_input(
            merge.notes,
            merge.ppq,
            merge.tempo,
            preset.base_bpm_override,
            ConvertError::NoMergedNotes,
            ConvertError::NoMergedTempo,
        ) {
            Err(e) => Course { charts: seq![], end: Some(Err(e)) },
            Ok(input) => {
                let task = ChartTaskView { input, source: 0, suffix: "" };
                let stats = told(task);
                let name = match merge.target {
                    Some(name) => name,
                    None => ""@,
                };
                let skipped = skipped_text(merge.skipped, quoted(name));
                Course {
                    charts: seq![task],
                    end: Some(Ok(StatsView { warnings: stats.warnings + skipped, ..stats })),
                }
            },
        },
    }
}

/// Once an input cannot be read, the merge has failed.
proof fn lemma_merge_failed(inputs: Seq<(Seq<u8>, Option<Seq<char>>)>, id: u16, k: nat, n: nat)
    requires
        k <= n,
        merged_inputs(inputs, id, k) is Err,
    ensures
        merged_inputs(inputs, id, n) == merged_inputs(inputs, id, k),
    decreases n - k,
{
    if k < n {
        lemma_merge_failed(inputs, id, k, (n - 1) as nat);
    }
}

proof fn lemma_merge_course(
    c: ConversionView,
    files: Seq<InputFile>,
    told: spec_fn(ChartTaskView) -> StatsView,
    preset: ConversionPreset,
    fuel: nat,
)
    requires
        c.mode == ConversionMode::Merge,
        c.count == files.len(),
        c.at < c.count,
        merged_inputs(named_inputs(files), preset.pattern_id, c.at) == Ok::<MergeView, FlpError>(
            c.merge,
        ),
        fuel > c.count - c.at,
    ensures
        course(c, Ok(StepView::Read(c.at)), files, told, preset, fuel) == merge_course(
            merged_inputs(named_inputs(files), preset.pattern_id, c.count),
            told,
            preset,
        ),
    decreases c.count - c.at,
{
    let inputs = named_inputs(files);
    let file = files[c.at as int];
    let (step, state) = after_read(c, file.bytes, file.file_name, preset);
    assert(inputs[c.at as int] == (file.bytes, file.file_name));
    assert(merged_inputs(inputs, preset.pattern_id, c.at + 1) == merged(
        c.merge,
        file.bytes,
        file.file_name,
        preset.pattern_id,
    ));
    if merged_inputs(inputs, preset.pattern_id, c.at + 1) is Err {
        lemma_merge_failed(inputs, preset.pattern_id, c.at + 1, c.count);
        reveal_with_fuel(course, 2);
    } else if c.at + 1 < c.count {
        lemma_merge_course(state, files, told, preset, (fuel - 1) as nat);
    } else {
        lemma_merge_end(c, files, told, preset, fuel);
    }
}

/// The last input of a merge leads to its chart, and that to the end.
proof fn lemma_merge_end(
    c: ConversionView,
    files: Seq<InputFile>,
    told: spec_fn(ChartTaskView) -> StatsView,
    preset: ConversionPreset,
    fuel: nat,
)
    requires
        c.mode == ConversionMode::Merge,
        c.at + 1 == c.count == files.len(),
        fuel >= 2,
        ({
            let file = files[c.at as int];
            merged(c.merge, file.bytes, file.file_name, preset.pattern_id) is Ok
        }),
    ensures
        ({
            let file = files[c.at as int];
            course(c, Ok(StepView::Read(c.at)), files, told, preset, fuel) == merge_course(
                merged(c.merge, file.bytes, file.file_name, preset.pattern_id),
                told,
                preset,
            )
        }),
{
    let file = files[c.at as int];
    let merge = merged(c.merge, file.bytes, file.file_name, preset.pattern_id)->Ok_0;
    let (step, state) = after_read(c, file.bytes, file.file_name, preset);
    let input = chart_input(
        merge.notes,
        merge.ppq,
        merge.tempo,
        preset.base_bpm_override,
        ConvertError::NoMergedNotes,
        ConvertError::NoMergedTempo,
    );
    if let Ok(made) = input {
        let task = ChartTaskView { input: made, source: 0, suffix: "" };
        assert(step == Ok::<StepView, ConvertError>(StepView::Chart(task)));
        let (last, end) = after_written(state, told(task), files[0].stem, preset);
        let rest = course(end, last, files, told, preset, (fuel - 2) as nat);
        assert(rest.charts =~= seq![]);
        assert(seq![task] + rest.charts =~= seq![task]);
        assert(course(state, step, files, told, preset, (fuel - 1) as nat) == (Course {
            charts: seq![task],
            end: rest.end,
        }));
    } else {
        assert(step == Err::<StepView, ConvertError>(input->Err_0));
        assert(course(state, step, files, told, preset, (fuel - 1) as nat) == (Course {
            charts: seq![],
            end: Some(Err(input->Err_0)),
        }));
    }
    assert(course(c, Ok(StepView::Read(c.at)), files, told, preset, fuel) == course(
        state,
        step,
        files,
        told,
        preset,
        (fuel - 1) as nat,
    ));
}

/// A merge makes one chart, from the notes of all inputs; what is told of it also
/// names the inputs that were skipped. An input that cannot be read ends the merge
/// with its error.
pub proof fn merge_run(
    files: Seq<InputFile>,
    told: spec_fn(ChartTaskView) -> StatsView,
    preset: ConversionPreset,
)
    requires
        files.len() > 0,
    ensures
        run(ConversionMode::Merge, files, told, preset) == merge_course(
            merged_inputs(named_inputs(files), preset.pattern_id, files.len()),
            told,
            preset,
        ),
{
    lemma_merge_course(
        fresh(ConversionMode::Merge, files.len()),
        files,
        told,
        preset,
        2 * files.len() + 4,
    );
}

/// What a single conversion of the pattern of a difficulty is made from; a missing
/// tempo is worded as that of a project.
pub open spec fn job_input(bytes: Seq<u8>, job: SplitJob, preset: ConversionPreset) -> Result<
    ChartInputView,
    ConvertError,
> {
    match single_chart_input(bytes, with_pattern_id(preset, job.pattern_id)) {
        Err(ConvertError::NoTempo) => Err(ConvertError::NoProjectTempo),
        input => input,
    }
}

/// The charts of the difficulties from `k` on, each under its suffix, up to the first
/// that cannot be converted.
pub open spec fn job_charts(bytes: Seq<u8>, jobs: Seq<SplitJob>, preset: ConversionPreset, k: nat) -> Seq<
    ChartTaskView,
>
    decreases jobs.len() - k,
{
    if k >= jobs.len() {
        seq![]
    } else {
        match job_input(bytes, jobs[k as int], preset) {
            Ok(input) => seq![ChartTaskView { input, source: 0, suffix: jobs[k as int].suffix }]
                + job_charts(bytes, jobs, preset, k + 1),
            Err(_) => seq![],
        }
    }
}

/// The error of the first difficulty from `k` on that cannot be converted.
pub open spec fn job_error(bytes: Seq<u8>, jobs: Seq<SplitJob>, preset: ConversionPreset, k: nat) -> Option<
    ConvertError,
>
    decreases jobs.len() - k,
{
    if k >= jobs.len() {
        None
    } else {
        match job_input(bytes, jobs[k as int], preset) {
            Ok(_) => job_error(bytes, jobs, preset, k + 1),
            Err(e) => Some(e),
        }
    }
}

/// Where no difficulty fails, each has its chart.
proof fn lemma_all_jobs(bytes: Seq<u8>, jobs: Seq<SplitJob>, preset: ConversionPreset, k: nat)
    requires
        k <= jobs.len(),
        job_error(bytes, jobs, preset, k) is None,
    ensures
        job_charts(bytes, jobs, preset, k).len() == jobs.len() - k,
    decreases jobs.len() - k,
{
    if k < jobs.len() {
        lemma_all_jobs(bytes, jobs, preset, k + 1);
    }
}

/// The totals over the charts of difficulties.
pub open spec fn job_totals(
    totals: TotalsView,
    charts: Seq<ChartTaskView>,
    told: spec_fn(ChartTaskView) -> StatsView,
) -> TotalsView
    decreases charts.len(),
{
    if charts.len() == 0 {
        totals
    } else {
        job_totals(totals.with(told(charts[0]), None), charts.skip(1), told)
    }
}

proof fn lemma_split_course(
    c: ConversionView,
    files: Seq<InputFile>,
    told: spec_fn(ChartTaskView) -> StatsView,
    preset: ConversionPreset,
    fuel: nat,
)
    requires
        c.mode == ConversionMode::SplitDifficulties,
        c.job <= c.jobs.len(),
        fuel >= c.jobs.len() - c.job,
        forall|k: int|
            0 <= k < c.jobs.len() ==> split_chart_input(
                c.file,
                (#[trigger] c.jobs[k]).pattern_id,
                preset,
            ) == job_input(c.file, c.jobs[k], preset),
    ensures
        ({
            let charts = job_charts(c.file, c.jobs, preset, c.job);
            let (step, state) = job_turn(c, preset);
            course(state, step, files, told, preset, fuel) == (Course {
                charts,
                end: run_end(
                    job_error(c.file, c.jobs, preset, c.job),
                    job_totals(c.totals, charts, told),
                ),
            })
        }),
    decreases c.jobs.len() - c.job,
{
    let charts = job_charts(c.file, c.jobs, preset, c.job);
    let (step, state) = job_turn(c, preset);
    if c.job < c.jobs.len() {
        let job = c.jobs[c.job as int];
        assert(split_chart_input(c.file, job.pattern_id, preset) == job_input(c.file, job, preset));
        if let Ok(input) = job_input(c.file, job, preset) {
            let task = ChartTaskView { input, source: 0, suffix: job.suffix };
            let done = ConversionView {
                totals: c.totals.with(told(task), None),
                job: c.job + 1,
                ..c
            };
            lemma_split_course(done, files, told, preset, (fuel - 1) as nat);
            let rest = job_charts(c.file, c.jobs, preset, c.job + 1);
            assert(charts =~= seq![task] + rest);
            assert(charts.skip(1) =~= rest);
            assert(after_written(state, told(task), files[0].stem, preset) == job_turn(done, preset));
        }
    }
}

/// Every difficulty of a project is written as a single conversion of its pattern
/// writes it: one chart for each slot that is filled, in the order easy, normal,
/// hard. The first difficulty that cannot be converted ends the run with its error;
/// otherwise the sums over the charts are told at the end.
pub proof fn split_runs_single_conversions(
    file: InputFile,
    told: spec_fn(ChartTaskView) -> StatsView,
    preset: ConversionPreset,
)
    requires
        !is_score(file.bytes),
    ensures
        match planned_jobs(file.bytes) {
            Err(e) => run(ConversionMode::SplitDifficulties, seq![file], told, preset) == (Course {
                charts: seq![],
                end: Some(Err(e)),
            }),
            Ok(jobs) => {
                let patterns = input_info(file.bytes)->Ok_0.1;
                let charts = job_charts(file.bytes, jobs, preset, 0);
                let error = job_error(file.bytes, jobs, preset, 0);
                &&& run(ConversionMode::SplitDifficulties, seq![file], told, preset) == (Course {
                    charts,
                    end: run_end(error, job_totals(no_totals(), charts, told)),
                })
                &&& error is None ==> charts.len() == filled_slots(
                    difficulty_slots(patterns, patterns.len()),
                )
            },
        },
{
    if let Ok(jobs) = planned_jobs(file.bytes) {
        let patterns = input_info(file.bytes)->Ok_0.1;
        one_job_per_slot(difficulty_slots(patterns, patterns.len()));
        assert forall|k: int| 0 <= k < jobs.len() implies split_chart_input(
            file.bytes,
            (#[trigger] jobs[k]).pattern_id,
            preset,
        ) == job_input(file.bytes, jobs[k], preset) by {
            difficulties_have_notes(file.bytes, k, preset);
            difficulty_is_single_conversion(file.bytes, jobs[k].pattern_id, preset);
        }
        let begun = fresh(ConversionMode::SplitDifficulties, 1);
        let planned = ConversionView { file: file.bytes, jobs, job: 0, ..begun };
        lemma_split_course(planned, seq![file], told, preset, 5);
        assert(after_read(begun, file.bytes, file.file_name, preset) == job_turn(planned, preset));
        if job_error(file.bytes, jobs, preset, 0) is None {
            lemma_all_jobs(file.bytes, jobs, preset, 0);
        }
    } else {
        reveal_with_fuel(course, 2);
    }
}

/// Where every chart is written to one file, there are as many files as difficulties.
pub proof fn one_file_per_difficulty(
    totals: TotalsView,
    charts: Seq<ChartTaskView>,
    told: spec_fn(ChartTaskView) -> StatsView,
)
    requires
        forall|task: ChartTaskView| (#[trigger] told(task)).files == 1,
    ensures
        job_totals(totals, charts, told).told().files == totals.files + charts.len(),
    decreases charts.len(),
{
    if charts.len() > 0 {
        one_file_per_difficulty(totals.with(told(charts[0]), None), charts.skip(1), told);
    }
}

/// Without a difficulty nothing is written, and the run fails.
pub proof fn no_difficulty_no_chart(
    file: InputFile,
    told: spec_fn(ChartTaskView) -> StatsView,
    preset: ConversionPreset,
)
    requires
        input_info(file.bytes) is Ok,
        filled_slots(
            difficulty_slots(
                input_info(file.bytes)->Ok_0.1,
                input_info(file.bytes)->Ok_0.1.len(),
            ),
        ) == 0,
    ensures
        run(ConversionMode::SplitDifficulties, seq![file], told, preset) == (Course {
            charts: seq![],
            end: Some(Err(ConvertError::NoDifficulty)),
        }),
{
    let patterns = input_info(file.bytes)->Ok_0.1;
    one_job_per_slot(difficulty_slots(patterns, patterns.len()));
    reveal_with_fuel(course, 2);
}

} // verus!
