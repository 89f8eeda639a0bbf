//! What is told of a conversion: progress while sections are written, totals over
//! several charts, warnings, and the closing line.

use crate::number::Real;
use crate::output::{plural, plural_text};
use crate::text::{
    count_value, decimal, decimal_text, format_count, grouped, grouped_count_is_read_back, join,
    joined, other_texts_are_no_counts, parse_count, plain_counts_are_read_back, put, quote, quoted,
    text_view, texts,
};
use crate::types::{Progress, Stats, PROGRESS_BATCH};
use vstd::prelude::*;

verus! {

/// Sections that are sorted or rendered at once.
pub const SECTION_BATCH: usize = 256;

/// The report after a batch of sections: how many of all notes are done. There is
/// none where there are no notes.
pub fn batch_report(done: usize, total: usize) -> (r: Option<Progress>)
    ensures
        r == if total > 0 {
            Some(Progress::Notes { done, total })
        } else {
            None
        },
{
    if total > 0 {
        Some(Progress::Notes { done, total })
    } else {
        None
    }
}

/// Progress while sections are written one by one.
#[derive(Clone, Copy, Debug, PartialEq, Eq, Structural)]
pub struct WriteProgress {
    /// Notes written so far.
    pub done: usize,
    /// Notes written at the last report.
    pub reported: usize,
}

impl WriteProgress {
    /// No more was reported than was written.
    pub open spec fn well_formed(self) -> bool {
        self.reported <= self.done
    }

    /// Before the first section.
    pub fn new() -> (r: WriteProgress)
        ensures
            r == (WriteProgress { done: 0, reported: 0 }),
            r.well_formed(),
    {
        WriteProgress { done: 0, reported: 0 }
    }

    /// Counts a section of so many notes. A report is due when a whole batch of
    /// notes was written since the last one, and after the last section; none
    /// where there are no notes at all.
    pub fn section_written(&mut self, notes: usize, last: bool, total: usize) -> (r: Option<Progress>)
        requires
            old(self).well_formed(),
            old(self).done + notes <= usize::MAX,
        ensures
            final(self).well_formed(),
            final(self).done == old(self).done + notes,
            r is Some <==> total > 0 && (last || final(self).done - old(self).reported >= 65536),
            r is Some ==> final(self).reported == final(self).done,
            r is None ==> final(self).reported == old(self).reported,
            ({
                let due = total > 0 && (final(self).done - old(self).reported >= PROGRESS_BATCH || last);
                &&& r == if due {
                    Some(Progress::Notes { done: final(self).done, total })
                } else {
                    None
                }
                &&& final(self).reported == if due {
                    final(self).done
                } else {
                    old(self).reported
                }
            }),
    {
        self.done = self.done + notes;
        if total > 0 && (self.done - self.reported >= PROGRESS_BATCH || last) {
            self.reported = self.done;
            Some(Progress::Notes { done: self.done, total })
        } else {
            None
        }
    }
}

/// The warning about inputs without a pattern of the right name, which stands in
/// it as `name`; none where there are none.
pub open spec fn skipped_text(skipped: Seq<Seq<char>>, name: Seq<char>) -> Seq<char> {
    if skipped.len() == 0 {
        seq![]
    } else {
        " Warning: "@ + decimal(skipped.len()) + " file"@ + plural(skipped.len())
            + " skipped (no pattern named "@ + name + "): "@ + joined(skipped, ", "@) + "."@
    }
}

/// Words the warning about skipped inputs; `quoted_name` is the name of the
/// pattern as it is shown.
pub fn word_skipped(skipped: &Vec<String>, quoted_name: &str) -> (r: String)
    ensures
        r@ == skipped_text(texts(skipped@), quoted_name@),
{
    if skipped.len() == 0 {
        return String::new();
    }
    let mut out: String = " Warning: ".to_owned();
    put(&mut out, decimal_text(skipped.len() as u64).as_str());
    put(&mut out, " file");
    put(&mut out, plural_text(skipped.len()));
    put(&mut out, " skipped (no pattern named ");
    put(&mut out, quoted_name);
    put(&mut out, "): ");
    put(&mut out, join(skipped, ", ").as_str());
    put(&mut out, ".");
    out
}

/// Words the warning about skipped inputs, with the name of the pattern in quotes.
pub fn skipped_warning(skipped: &Vec<String>, name: &str) -> (r: String)
    ensures
        r@ == skipped_text(texts(skipped@), quoted(name@)),
{
    word_skipped(skipped, quote(name).as_str())
}

/// Adds the warning about skipped inputs to what is told of a merged chart.
pub fn merge_stats(stats: Stats, skipped: &Vec<String>, name: &str) -> (r: Stats)
    ensures
        r.notes@ == stats.notes@,
        r.sections@ == stats.sections@,
        r.time == stats.time,
        r.files == stats.files,
        r.warnings@ == stats.warnings@ + skipped_text(texts(skipped@), quoted(name@)),
{
    let mut warnings: String = stats.warnings;
    put(&mut warnings, skipped_warning(skipped, name).as_str());
    Stats { notes: stats.notes, sections: stats.sections, time: stats.time, files: stats.files, warnings }
}

/// The number in a count of [`Stats`]; zero where there is none.
pub open spec fn counted(text: Seq<char>) -> u64 {
    match count_value(text) {
        Some(n) => n,
        None => 0,
    }
}

fn read_count(text: &str) -> (r: u64)
    ensures
        r == counted(text@),
{
    match parse_count(text) {
        Some(n) => n,
        None => 0,
    }
}

/// Totals over several charts.
pub struct Totals {
    pub notes: u64,
    pub sections: u64,
    pub files: usize,
    pub warnings: String,
}

/// What the warnings of a chart add to those of all: nothing where there are none,
/// else the label and the warnings. Charts without a label add the warnings alone.
pub open spec fn labelled(label: Option<Seq<char>>, warnings: Seq<char>) -> Seq<char> {
    match label {
        None => warnings,
        Some(text) => if warnings.len() == 0 {
            seq![]
        } else {
            text + ": "@ + warnings
        },
    }
}

impl Totals {
    /// Before the first chart.
    pub fn new() -> (r: Totals)
        ensures
            r.notes == 0,
            r.sections == 0,
            r.files == 0,
            r.warnings@ == Seq::<char>::empty(),
    {
        Totals { notes: 0, sections: 0, files: 0, warnings: String::new() }
    }

    /// The totals can take in one more chart.
    pub open spec fn fits(&self, stats: Stats) -> bool {
        &&& self.notes + counted(stats.notes@) <= u64::MAX
        &&& self.sections + counted(stats.sections@) <= u64::MAX
        &&& self.files + stats.files <= usize::MAX
    }

    /// Whether the totals can take in one more chart.
    pub fn can_add(&self, stats: &Stats) -> (r: bool)
        ensures
            r == self.fits(*stats),
    {
        read_count(stats.notes.as_str()) <= u64::MAX - self.notes && read_count(
            stats.sections.as_str(),
        ) <= u64::MAX - self.sections && stats.files <= usize::MAX - self.files
    }

    /// Takes in one more chart.
    pub fn add(&mut self, stats: &Stats, label: Option<&str>)
        requires
            old(self).fits(*stats),
        ensures
            final(self).notes == old(self).notes + counted(stats.notes@),
            final(self).sections == old(self).sections + counted(stats.sections@),
            final(self).files == old(self).files + stats.files,
            final(self).warnings@ == old(self).warnings@ + labelled(text_view(label), stats.warnings@),
    {
        self.notes = self.notes + read_count(stats.notes.as_str());
        self.sections = self.sections + read_count(stats.sections.as_str());
        self.files = self.files + stats.files;
        match label {
            None => put(&mut self.warnings, stats.warnings.as_str()),
            Some(text) => {
                if stats.warnings.as_str().unicode_len() > 0 {
                    put(&mut self.warnings, text);
                    put(&mut self.warnings, ": ");
                    put(&mut self.warnings, stats.warnings.as_str());
                }
            },
        }
        assert(self.warnings@ =~= old(self).warnings@ + labelled(text_view(label), stats.warnings@));
    }

    /// What is told of all charts together. The duration is for the caller to set.
    pub fn stats(&self) -> (r: Stats)
        ensures
            r.notes@ == grouped(self.notes as nat),
            r.sections@ == grouped(self.sections as nat),
            r.time == (Real { bits: 0 }),
            r.files == self.files,
            r.warnings@ == self.warnings@,
    {
        Stats {
            notes: format_count(self.notes),
            sections: format_count(self.sections),
            time: Real::zero(),
            files: self.files,
            warnings: self.warnings.clone(),
        }
    }
}

/// How the closing line mentions the files: only where there are several.
pub open spec fn files_text(files: nat) -> Seq<char> {
    if files > 1 {
        " across "@ + decimal(files) + " files"@
    } else {
        seq![]
    }
}

/// The closing line of a conversion. The output and the duration are given as they
/// are shown.
pub open spec fn closing_line(
    notes: Seq<char>,
    sections: Seq<char>,
    output: Seq<char>,
    files: nat,
    time: Seq<char>,
    warnings: Seq<char>,
) -> Seq<char> {
    "Wrote "@ + notes + " notes in "@ + sections + " sections to "@ + output + files_text(files) + " in "@
        + time + " ms"@ + warnings
}

/// Words the closing line of a conversion.
pub fn summary(stats: &Stats, output: &str, time: &str) -> (r: String)
    ensures
        r@ == closing_line(
            stats.notes@,
            stats.sections@,
            output@,
            stats.files as nat,
            time@,
            stats.warnings@,
        ),
{
    let mut out: String = "Wrote ".to_owned();
    put(&mut out, stats.notes.as_str());
    put(&mut out, " notes in ");
    put(&mut out, stats.sections.as_str());
    put(&mut out, " sections to ");
    put(&mut out, output);
    let ghost begun = out@;
    if stats.files > 1 {
        put(&mut out, " across ");
        put(&mut out, decimal_text(stats.files as u64).as_str());
        put(&mut out, " files");
    }
    assert(out@ =~= begun + files_text(stats.files as nat));
    put(&mut out, " in ");
    put(&mut out, time);
    put(&mut out, " ms");
    put(&mut out, stats.warnings.as_str());
    out
}

/// A count that was told is counted with its full value.
pub proof fn told_counts_are_counted(n: u64)
    ensures
        counted(grouped(n as nat)) == n,
        counted(decimal(n as nat)) == n,
{
    grouped_count_is_read_back(n);
    plain_counts_are_read_back(n);
}

/// A text that is no count counts as nothing.
pub proof fn other_texts_count_as_nothing(text: Seq<char>, i: int)
    requires
        0 <= i < text.len(),
        !('0' <= text[i] && text[i] <= '9') && text[i] != ',' && text[i] != '+',
    ensures
        counted(text) == 0,
{
    other_texts_are_no_counts(text, i);
}

/// Warnings are told with the name of their input, if it has one; where there are none,
/// nothing is told.
pub proof fn warnings_are_labelled(label: Seq<char>, warnings: Seq<char>)
    ensures
        labelled(None, warnings) == warnings,
        labelled(Some(label), Seq::<char>::empty()) == Seq::<char>::empty(),
        warnings.len() > 0 ==> labelled(Some(label), warnings) == label + ": "@ + warnings,
{
}

/// The warning on skipped inputs names each of them and the pattern, and is empty where
/// none was skipped.
pub proof fn skipped_inputs_are_named(skipped: Seq<Seq<char>>, name: Seq<char>)
    ensures
        skipped.len() == 0 ==> skipped_text(skipped, name) == Seq::<char>::empty(),
        skipped.len() == 1 ==> skipped_text(skipped, name) == " Warning: "@ + decimal(1) + " file"@
            + ""@ + " skipped (no pattern named "@ + name + "): "@ + skipped[0] + "."@,
        skipped.len() > 1 ==> skipped_text(skipped, name) == " Warning: "@ + decimal(skipped.len())
            + " file"@ + "s"@ + " skipped (no pattern named "@ + name + "): "@ + joined(
            skipped,
            ", "@,
        ) + "."@,
{
}

/// The closing line tells notes, sections, output, time and warnings; the number of files
/// only where there are several.
pub proof fn closing_line_tells_everything(
    notes: Seq<char>,
    sections: Seq<char>,
    output: Seq<char>,
    files: nat,
    time: Seq<char>,
    warnings: Seq<char>,
)
    ensures
        files <= 1 ==> closing_line(notes, sections, output, files, time, warnings) == "Wrote "@
            + notes + " notes in "@ + sections + " sections to "@ + output + seq![] + " in "@ + time
            + " ms"@ + warnings,
        files > 1 ==> closing_line(notes, sections, output, files, time, warnings) == "Wrote "@ + notes
            + " notes in "@ + sections + " sections to "@ + output + (" across "@ + decimal(files)
            + " files"@) + " in "@ + time + " ms"@ + warnings,
{
}

/// Totals can take a chart exactly when none of the sums grows beyond its number.
pub proof fn totals_fit_their_numbers(totals: Totals, stats: Stats, notes: u64, sections: u64)
    requires
        stats.notes@ == grouped(notes as nat),
        stats.sections@ == grouped(sections as nat),
    ensures
        totals.fits(stats) <==> totals.notes + notes <= 0xffff_ffff_ffff_ffff && totals.sections
            + sections <= 0xffff_ffff_ffff_ffff && totals.files + stats.files <= usize::MAX,
{
    told_counts_are_counted(notes);
    told_counts_are_counted(sections);
}

} // verus!
