//! The wording of errors.

use crate::bytes::FlpError;
use crate::chart::TimingError;
use crate::fsc_export::ExportError;
use crate::pipeline::ConvertError;
use crate::text::{decimal, decimal_text, put};
use vstd::prelude::*;

verus! {

/// The wording of a read error.
pub open spec fn flp_error_text(error: FlpError) -> Seq<char> {
    match error {
        FlpError::MissingMagic => "not an FL Studio project (missing FLhd)"@,
        FlpError::HeaderLength(len) => "unsupported FLP header length "@ + decimal(len as nat),
        FlpError::Truncated => "truncated FLP"@,
        FlpError::OffsetOverflow => "FLP offset overflow"@,
        FlpError::DataLengthOverflow => "FLdt length overflow"@,
        FlpError::InvalidVarint => "invalid FLP variable-length integer"@,
        FlpError::NotesLength(len) => "pattern-note payload has invalid length "@ + decimal(len as nat),
        FlpError::PatternMissing(id) => "pattern "@ + decimal(id as nat)
            + " does not exist in this FLP — pick one from the pattern list"@,
    }
}

impl FlpError {
    /// Words a read error.
    pub fn message(&self) -> (r: String)
        ensures
            r@ == flp_error_text(*self),
    {
        match *self {
            FlpError::MissingMagic => "not an FL Studio project (missing FLhd)".to_owned(),
            FlpError::HeaderLength(len) => {
                let mut out: String = "unsupported FLP header length ".to_owned();
                put(&mut out, decimal_text(len as u64).as_str());
                out
            },
            FlpError::Truncated => "truncated FLP".to_owned(),
            FlpError::OffsetOverflow => "FLP offset overflow".to_owned(),
            FlpError::DataLengthOverflow => "FLdt length overflow".to_owned(),
            FlpError::InvalidVarint => "invalid FLP variable-length integer".to_owned(),
            FlpError::NotesLength(len) => {
                let mut out: String = "pattern-note payload has invalid length ".to_owned();
                put(&mut out, decimal_text(len as u64).as_str());
                out
            },
            FlpError::PatternMissing(id) => {
                let mut out: String = "pattern ".to_owned();
                put(&mut out, decimal_text(id as u64).as_str());
                put(&mut out, " does not exist in this FLP — pick one from the pattern list");
                out
            },
        }
    }
}

/// The wording of an error in the list of tempos. `value` is the bad entry as it
/// is shown.
pub open spec fn timing_error_text(error: TimingError, value: Seq<char>) -> Seq<char> {
    match error {
        TimingError::NotEnoughTempos { section, entries } =>
            "not enough BPM values in bpm_changes list: pitch-56 marker in section "@ + decimal(
            section as nat,
        ) + " has no corresponding entry (list has "@ + decimal(entries as nat) + " entr"@ + if entries
            == 1 {
            "y"@
        } else {
            "ies"@
        } + ")"@,
        TimingError::InvalidTempo { index } => "bpm_changes["@ + decimal(index as nat) + "] = "@ + value
            + " is not a valid BPM (must be a positive finite number)"@,
    }
}

impl TimingError {
    /// Words an error in the list of tempos; `value` is the bad entry as it is
    /// shown.
    pub fn message(&self, value: &str) -> (r: String)
        ensures
            r@ == timing_error_text(*self, value@),
    {
        match *self {
            TimingError::NotEnoughTempos { section, entries } => {
                let mut out: String =
                    "not enough BPM values in bpm_changes list: pitch-56 marker in section ".to_owned();
                put(&mut out, decimal_text(section as u64).as_str());
                put(&mut out, " has no corresponding entry (list has ");
                put(&mut out, decimal_text(entries as u64).as_str());
                put(&mut out, " entr");
                if entries == 1 {
                    put(&mut out, "y");
                } else {
                    put(&mut out, "ies");
                }
                put(&mut out, ")");
                out
            },
            TimingError::InvalidTempo { index } => {
                let mut out: String = "bpm_changes[".to_owned();
                put(&mut out, decimal_text(index as u64).as_str());
                put(&mut out, "] = ");
                put(&mut out, value);
                put(&mut out, " is not a valid BPM (must be a positive finite number)");
                out
            },
        }
    }
}

/// The wording of a conversion error. `value` is the entry of the list of tempos
/// that the error is about, as it is shown.
pub open spec fn convert_error_text(error: ConvertError, value: Seq<char>) -> Seq<char> {
    match error {
        ConvertError::InvalidMultiplier => "BPM multiplier must be a positive number"@,
        ConvertError::Flp(e) => flp_error_text(e),
        ConvertError::NoNotes => "The pattern you selected doesn't have any notes."@,
        ConvertError::NoMergedNotes =>
            "No notes found across all input FLPs/FSCs for the selected pattern."@,
        ConvertError::NoTempo =>
            "FSC has no tempo event — enable 'Override starting BPM' and set a BPM"@,
        ConvertError::NoMergedTempo =>
            "No tempo event found — enable 'Override starting BPM' and set a BPM"@,
        ConvertError::NoProjectTempo => "FLP does not contain a tempo event"@,
        ConvertError::ZeroPpq => "FLP has PPQ 0"@,
        ConvertError::NoDifficulty =>
            "No easy, normal, or hard patterns with notes found in this FLP."@,
        ConvertError::Timing(e) => timing_error_text(e, value),
    }
}

impl ConvertError {
    /// Words a conversion error; `value` is the entry of the list of tempos that it
    /// is about, as it is shown.
    pub fn message(&self, value: &str) -> (r: String)
        ensures
            r@ == convert_error_text(*self, value@),
    {
        match *self {
            ConvertError::InvalidMultiplier => "BPM multiplier must be a positive number".to_owned(),
            ConvertError::Flp(e) => e.message(),
            ConvertError::NoNotes => "The pattern you selected doesn't have any notes.".to_owned(),
            ConvertError::NoMergedNotes => {
                "No notes found across all input FLPs/FSCs for the selected pattern.".to_owned()
            },
            ConvertError::NoTempo => {
                "FSC has no tempo event — enable 'Override starting BPM' and set a BPM".to_owned()
            },
            ConvertError::NoMergedTempo => {
                "No tempo event found — enable 'Override starting BPM' and set a BPM".to_owned()
            },
            ConvertError::NoProjectTempo => "FLP does not contain a tempo event".to_owned(),
            ConvertError::ZeroPpq => "FLP has PPQ 0".to_owned(),
            ConvertError::NoDifficulty => {
                "No easy, normal, or hard patterns with notes found in this FLP.".to_owned()
            },
            ConvertError::Timing(e) => e.message(value),
        }
    }
}

/// The wording of an error for one input of a batch: missing ticks are reported
/// with the path, which stands in it as `path`.
pub open spec fn batch_error_text(error: ConvertError, value: Seq<char>, path: Seq<char>) -> Seq<char> {
    match error {
        ConvertError::ZeroPpq => "FLP has PPQ 0 ("@ + path + ")"@,
        _ => convert_error_text(error, value),
    }
}

/// Words an error for one input of a batch.
pub fn batch_message(error: &ConvertError, value: &str, path: &str) -> (r: String)
    ensures
        r@ == batch_error_text(*error, value@, path@),
{
    match *error {
        ConvertError::ZeroPpq => {
            let mut out: String = "FLP has PPQ 0 (".to_owned();
            put(&mut out, path);
            put(&mut out, ")");
            out
        },
        _ => error.message(value),
    }
}

impl ExportError {
    /// Words an error of the export; `bpm` is the tempo of the chart as it is shown.
    pub fn message(&self, bpm: &str) -> (r: String)
        ensures
            r@ == match *self {
                ExportError::InvalidBpm => "chart JSON has invalid BPM: "@ + bpm@,
            },
    {
        match *self {
            ExportError::InvalidBpm => {
                let mut out: String = "chart JSON has invalid BPM: ".to_owned();
                put(&mut out, bpm);
                out
            },
        }
    }
}

/// Errors that are about a number or a pattern tell it.
pub proof fn messages_tell_their_numbers(a: usize, b: usize, id: u16, len: u32, value: Seq<char>)
    ensures
        flp_error_text(FlpError::HeaderLength(len)) == "unsupported FLP header length "@ + decimal(
            len as nat,
        ),
        flp_error_text(FlpError::NotesLength(a)) == "pattern-note payload has invalid length "@
            + decimal(a as nat),
        flp_error_text(FlpError::PatternMissing(id)) == "pattern "@ + decimal(id as nat)
            + " does not exist in this FLP — pick one from the pattern list"@,
        timing_error_text(TimingError::InvalidTempo { index: a }, value) == "bpm_changes["@ + decimal(
            a as nat,
        ) + "] = "@ + value + " is not a valid BPM (must be a positive finite number)"@,
        b != 1 ==> timing_error_text(TimingError::NotEnoughTempos { section: a, entries: b }, value)
            == "not enough BPM values in bpm_changes list: pitch-56 marker in section "@ + decimal(
            a as nat,
        ) + " has no corresponding entry (list has "@ + decimal(b as nat) + " entr"@ + "ies"@ + ")"@,
        timing_error_text(TimingError::NotEnoughTempos { section: a, entries: 1 }, value)
            == "not enough BPM values in bpm_changes list: pitch-56 marker in section "@ + decimal(
            a as nat,
        ) + " has no corresponding entry (list has "@ + decimal(1) + " entr"@ + "y"@ + ")"@,
{
}

/// An error of an input or of the tempos is worded as it is, in a batch too; there only a
/// file without ticks is told with its path.
pub proof fn wrapped_errors_keep_their_words(
    error: ConvertError,
    e: FlpError,
    t: TimingError,
    value: Seq<char>,
    path: Seq<char>,
)
    ensures
        convert_error_text(ConvertError::Flp(e), value) == flp_error_text(e),
        convert_error_text(ConvertError::Timing(t), value) == timing_error_text(t, value),
        error != ConvertError::ZeroPpq ==> batch_error_text(error, value, path)
            == convert_error_text(error, value),
        batch_error_text(ConvertError::ZeroPpq, value, path) == "FLP has PPQ 0 ("@ + path + ")"@,
{
}

} // verus!
