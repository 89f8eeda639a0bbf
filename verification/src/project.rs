//! What a project or score holds: patterns, tempo and notes.

use crate::bytes::{le32, shortage, varint, varint_limit, FlpError};
use crate::flp::{
    data_chunk_is_found, decode_fl_text, event_bytes, event_is_read_back,
    files_open_with_header_and_data, find_data, fl_text, format_field_tells_scores, has_own_number,
    is_fsc, is_score, layout, next_event, open_flp, parse_notes, payload_notes, records_are_notes,
    EventReader, EventView, FlEvent, FlNote, EVENT_FINE_TEMPO, EVENT_NEW_PATTERN,
    EVENT_PATTERN_NAME, EVENT_PATTERN_NOTES, HEADER_END, NOTE_RECORD_SIZE, PITCH_BPM_CHANGE,
};
use crate::text::{blank, decimal, decimal_text, is_blank, put};
use crate::types::{item_reports, pattern_views, FlpInfo, PatternInfo, PatternView, Progress};
use vstd::prelude::*;
use vstd::slice::slice_subrange;

verus! {

/// What was read from a project or score.
#[derive(Clone, Debug, PartialEq, Eq)]
pub struct Project {
    /// Ticks per quarter note.
    pub ppq: u16,
    /// Tempo in thousandths of a beat per minute.
    pub tempo: Option<u32>,
    /// The notes of the selected pattern, in file order.
    pub notes: Vec<FlNote>,
    /// All patterns, in the order of their first mention.
    pub patterns: Vec<PatternInfo>,
}

/// A project as mathematical values.
#[verifier::ext_equal]
pub struct ProjectView {
    pub ppq: u16,
    pub tempo: Option<u32>,
    pub notes: Seq<FlNote>,
    pub patterns: Seq<PatternView>,
}

impl View for Project {
    type V = ProjectView;

    open spec fn view(&self) -> ProjectView {
        ProjectView {
            ppq: self.ppq,
            tempo: self.tempo,
            notes: self.notes@,
            patterns: pattern_views(self.patterns@),
        }
    }
}

proof fn lemma_varint_advances(data: Seq<u8>, at: int, left: nat)
    requires
        0 <= at,
    ensures
        at <= varint(data, at, left).1,
        varint(data, at, left).0 is Ok ==> at < varint(data, at, left).1 <= data.len(),
    decreases left,
{
    if left > 0 && shortage(data.len(), at, 1) is None && data[at] >= 128 {
        lemma_varint_advances(data, at + 1, (left - 1) as nat);
    }
}

/// An event ends behind its start and within the file.
pub proof fn event_advances(bytes: Seq<u8>, at: int, end: int)
    requires
        0 <= at,
    ensures
        next_event(bytes, at, end).0 matches Ok(Some(_)) ==> at < next_event(bytes, at, end).1
            <= bytes.len(),
        next_event(bytes, at, end).0 matches Ok(Some(EventView::Data(_, p))) ==> p.len()
            <= next_event(bytes, at, end).1 - at,
{
    lemma_varint_advances(bytes, at + 1, varint_limit());
}

/// All events from `at` on, up to the end of the stream or to the first error,
/// and that error.
pub open spec fn stream(bytes: Seq<u8>, at: nat, end: int) -> (Seq<EventView>, Option<FlpError>)
    decreases bytes.len() - at,
    via stream_decreases
{
    match next_event(bytes, at as int, end) {
        (Ok(None), _) => (seq![], None),
        (Err(e), _) => (seq![], Some(e)),
        (Ok(Some(event)), stop) => {
            let (rest, error) = stream(bytes, stop as nat, end);
            (seq![event] + rest, error)
        },
    }
}

#[via_fn]
proof fn stream_decreases(bytes: Seq<u8>, at: nat, end: int) {
    event_advances(bytes, at as int, end);
}

/// The pattern that was last started by some events.
pub open spec fn current_pattern(events: Seq<EventView>) -> Option<u16>
    decreases events.len(),
{
    if events.len() == 0 {
        None
    } else {
        match events.last() {
            EventView::Word(EVENT_NEW_PATTERN, id) => Some(id),
            _ => current_pattern(events.drop_last()),
        }
    }
}

/// The patterns that some events start, in the order of their first mention.
pub open spec fn pattern_order(events: Seq<EventView>) -> Seq<u16>
    decreases events.len(),
{
    if events.len() == 0 {
        seq![]
    } else {
        let earlier = pattern_order(events.drop_last());
        match events.last() {
            EventView::Word(EVENT_NEW_PATTERN, id) => if earlier.contains(id) {
                earlier
            } else {
                earlier.push(id)
            },
            _ => earlier,
        }
    }
}

/// The payload of the last event, if that is of this kind and comes while the
/// pattern `id` is current.
pub open spec fn last_payload(events: Seq<EventView>, kind: u8, id: u16) -> Option<Seq<u8>> {
    match events.last() {
        EventView::Data(k, payload) => if k == kind && current_pattern(events.drop_last()) == Some(id) {
            Some(payload)
        } else {
            None
        },
        _ => None,
    }
}

/// The name last given to a pattern, leaving out blank names.
pub open spec fn given_name(events: Seq<EventView>, id: u16) -> Option<Seq<char>>
    decreases events.len(),
{
    if events.len() == 0 {
        None
    } else {
        let earlier = given_name(events.drop_last(), id);
        match last_payload(events, EVENT_PATTERN_NAME, id) {
            Some(payload) => if blank(fl_text(payload)) {
                earlier
            } else {
                Some(fl_text(payload))
            },
            None => earlier,
        }
    }
}

/// The name of a pattern without a name of its own.
pub open spec fn fallback_name(id: u16) -> Seq<char> {
    "Pattern "@ + decimal(id as nat)
}

/// The number of note records of a pattern.
pub open spec fn note_total(events: Seq<EventView>, id: u16) -> nat
    decreases events.len(),
{
    if events.len() == 0 {
        0
    } else {
        note_total(events.drop_last(), id) + match last_payload(events, EVENT_PATTERN_NOTES, id) {
            Some(payload) => payload.len() / (NOTE_RECORD_SIZE as nat),
            None => 0,
        }
    }
}

/// How many of the first `count` records of a block are tempo-change markers.
pub open spec fn markers_among(payload: Seq<u8>, count: nat) -> nat
    decreases count,
{
    if count == 0 {
        0
    } else {
        markers_among(payload, (count - 1) as nat) + if payload[(count - 1) * NOTE_RECORD_SIZE + 12]
            == PITCH_BPM_CHANGE {
            1nat
        } else {
            0nat
        }
    }
}

/// The number of tempo-change markers of a pattern.
pub open spec fn marker_total(events: Seq<EventView>, id: u16) -> nat
    decreases events.len(),
{
    if events.len() == 0 {
        0
    } else {
        marker_total(events.drop_last(), id) + match last_payload(events, EVENT_PATTERN_NOTES, id) {
            Some(payload) => markers_among(payload, payload.len() / (NOTE_RECORD_SIZE as nat)),
            None => 0,
        }
    }
}

/// The tempo that was set last.
pub open spec fn tempo_of(events: Seq<EventView>) -> Option<u32>
    decreases events.len(),
{
    if events.len() == 0 {
        None
    } else {
        match events.last() {
            EventView::Dword(EVENT_FINE_TEMPO, value) => Some(value),
            _ => tempo_of(events.drop_last()),
        }
    }
}

/// The pattern `id` as the events describe it.
pub open spec fn pattern_of(events: Seq<EventView>, id: u16) -> PatternView {
    PatternView {
        id,
        name: match given_name(events, id) {
            Some(name) => name,
            None => fallback_name(id),
        },
        note_count: note_total(events, id),
        bpm_change_count: marker_total(events, id),
    }
}

/// All patterns that the events describe.
pub open spec fn patterns_of(events: Seq<EventView>) -> Seq<PatternView> {
    pattern_order(events).map_values(|id: u16| pattern_of(events, id))
}

/// The notes of a pattern.
pub open spec fn notes_of(events: Seq<EventView>, id: u16) -> Seq<FlNote>
    decreases events.len(),
{
    if events.len() == 0 {
        seq![]
    } else {
        notes_of(events.drop_last(), id) + match last_payload(events, EVENT_PATTERN_NOTES, id) {
            Some(payload) => payload_notes(payload),
            None => seq![],
        }
    }
}

/// The error of the first block of the pattern that is not a whole number of
/// records.
pub open spec fn block_error(events: Seq<EventView>, id: u16) -> Option<FlpError>
    decreases events.len(),
{
    if events.len() == 0 {
        None
    } else {
        match block_error(events.drop_last(), id) {
            Some(e) => Some(e),
            None => match last_payload(events, EVENT_PATTERN_NOTES, id) {
                Some(payload) => if payload.len() % (NOTE_RECORD_SIZE as nat) != 0 {
                    Some(FlpError::NotesLength(payload.len() as usize))
                } else {
                    None
                },
                None => None,
            },
        }
    }
}

/// The progress reports on the blocks of a pattern, up to the first bad block.
pub open spec fn block_reports(events: Seq<EventView>, id: u16) -> Seq<Progress>
    decreases events.len(),
{
    if events.len() == 0 {
        seq![]
    } else {
        let earlier = block_reports(events.drop_last(), id);
        match last_payload(events, EVENT_PATTERN_NOTES, id) {
            Some(payload) => if block_error(events, id) is Some {
                earlier
            } else {
                let count = payload.len() / (NOTE_RECORD_SIZE as nat);
                earlier + item_reports(count, count)
            },
            None => earlier,
        }
    }
}

/// The first error of the blocks of the selected pattern, if one is selected.
pub open spec fn selected_error(events: Seq<EventView>, selected: Option<u16>) -> Option<FlpError> {
    match selected {
        Some(id) => block_error(events, id),
        None => None,
    }
}

/// The notes of the selected pattern, if one is selected.
pub open spec fn selected_notes(events: Seq<EventView>, selected: Option<u16>) -> Seq<FlNote> {
    match selected {
        Some(id) => notes_of(events, id),
        None => seq![],
    }
}

/// The progress reports on the selected pattern, if one is selected.
pub open spec fn selected_reports(events: Seq<EventView>, selected: Option<u16>) -> Seq<Progress> {
    match selected {
        Some(id) => block_reports(events, id),
        None => seq![],
    }
}

/// What a project file holds, with the notes of the selected pattern. A bad
/// block of that pattern comes before any error behind it in the stream, and
/// both before the absence of the pattern.
pub open spec fn flp_project(bytes: Seq<u8>, selected: Option<u16>) -> Result<ProjectView, FlpError> {
    match layout(bytes) {
        Err(e) => Err(e),
        Ok((ppq, start, end)) => {
            let (events, tail) = stream(bytes, start as nat, end);
            match (selected_error(events, selected), tail, selected) {
                (Some(e), _, _) => Err(e),
                (None, Some(e), _) => Err(e),
                (None, None, selection) => if selection is Some && !pattern_order(events).contains(
                    selection->0,
                ) {
                    Err(FlpError::PatternMissing(selection->0))
                } else {
                    Ok(
                        ProjectView {
                            ppq,
                            tempo: tempo_of(events),
                            notes: selected_notes(events, selection),
                            patterns: patterns_of(events),
                        },
                    )
                },
            }
        },
    }
}

/// The progress reports that reading a project file gives.
pub open spec fn flp_reports(bytes: Seq<u8>, selected: Option<u16>) -> Seq<Progress> {
    match layout(bytes) {
        Err(_) => seq![],
        Ok((_, start, end)) => selected_reports(stream(bytes, start as nat, end).0, selected),
    }
}

/// What is known of a pattern while the events are read.
struct PatternEntry {
    id: u16,
    name: Option<String>,
    note_count: usize,
    bpm_change_count: usize,
}

impl PatternEntry {
    spec fn shows(self, events: Seq<EventView>) -> bool {
        &&& match self.name {
            Some(name) => given_name(events, self.id) == Some(name@),
            None => given_name(events, self.id) is None,
        }
        &&& self.note_count == note_total(events, self.id)
        &&& self.bpm_change_count == marker_total(events, self.id)
    }
}

/// What is known of all patterns while the events are read.
struct PatternScan {
    entries: Vec<PatternEntry>,
    /// Index of the current pattern.
    current: Option<usize>,
    tempo: Option<u32>,
}

/// The number of payload bytes of some events.
spec fn payload_bytes(events: Seq<EventView>) -> nat
    decreases events.len(),
{
    if events.len() == 0 {
        0
    } else {
        payload_bytes(events.drop_last()) + match events.last() {
            EventView::Data(_, payload) => payload.len(),
            _ => 0,
        }
    }
}

proof fn lemma_markers_bound(payload: Seq<u8>, count: nat)
    ensures
        markers_among(payload, count) <= count,
    decreases count,
{
    if count > 0 {
        lemma_markers_bound(payload, (count - 1) as nat);
    }
}

proof fn lemma_totals_bound(events: Seq<EventView>, id: u16)
    ensures
        note_total(events, id) <= payload_bytes(events),
        marker_total(events, id) <= note_total(events, id),
    decreases events.len(),
{
    if events.len() > 0 {
        lemma_totals_bound(events.drop_last(), id);
        if let Some(payload) = last_payload(events, EVENT_PATTERN_NOTES, id) {
            lemma_markers_bound(payload, payload.len() / (NOTE_RECORD_SIZE as nat));
        }
    }
}

/// Counts the tempo-change markers of a block.
fn count_markers(payload: &[u8]) -> (r: usize)
    ensures
        r == markers_among(payload@, payload@.len() / (NOTE_RECORD_SIZE as nat)),
{
    let total: usize = payload.len() / NOTE_RECORD_SIZE;
    let mut found: usize = 0;
    for index in 0..total
        invariant
            total == payload@.len() / (NOTE_RECORD_SIZE as nat),
            payload@.len() == payload.len(),
            found == markers_among(payload@, index as nat),
            found <= index,
    {
        if payload[index * NOTE_RECORD_SIZE + 12] == PITCH_BPM_CHANGE {
            found += 1;
        }
    }
    found
}

impl PatternScan {
    /// The scan shows exactly what `events` describe.
    spec fn shows(self, events: Seq<EventView>) -> bool {
        &&& pattern_order(events) =~= self.entries@.map_values(|e: PatternEntry| e.id)
        &&& pattern_order(events).no_duplicates()
        &&& forall|i: int| 0 <= i < self.entries@.len() ==> (#[trigger] self.entries@[i]).shows(events)
        &&& match self.current {
            None => current_pattern(events) is None,
            Some(i) => i < self.entries@.len() && current_pattern(events) == Some(
                self.entries@[i as int].id,
            ),
        }
        &&& self.tempo == tempo_of(events)
    }

    fn new() -> (r: PatternScan)
        ensures
            r.shows(seq![]),
    {
        PatternScan { entries: Vec::new(), current: None, tempo: None }
    }

    /// The index of a pattern, if it was mentioned.
    fn find(&self, id: u16) -> (r: Option<usize>)
        ensures
            match r {
                Some(i) => i < self.entries@.len() && self.entries@[i as int].id == id,
                None => forall|i: int|
                    0 <= i < self.entries@.len() ==> (#[trigger] self.entries@[i]).id != id,
            },
    {
        for i in 0..self.entries.len()
            invariant
                forall|j: int| 0 <= j < i ==> (#[trigger] self.entries@[j]).id != id,
        {
            if self.entries[i].id == id {
                return Some(i);
            }
        }
        None
    }

    /// An event that neither starts a pattern nor sets the tempo leaves all but
    /// the entry at `changed` as it was.
    proof fn lemma_rest_unchanged(
        self,
        old_scan: PatternScan,
        events: Seq<EventView>,
        event: EventView,
        changed: usize,
    )
        requires
            old_scan.shows(events),
            event is Data,
            old_scan.current == Some(changed),
            changed < old_scan.entries@.len(),
            self.current == old_scan.current,
            self.tempo == old_scan.tempo,
            self.entries@.len() == old_scan.entries@.len(),
            self.entries@[changed as int].id == old_scan.entries@[changed as int].id,
            self.entries@[changed as int].shows(events.push(event)),
            forall|j: int|
                0 <= j < self.entries@.len() && j != changed ==> self.entries@[j]
                    == old_scan.entries@[j],
        ensures
            self.shows(events.push(event)),
    {
        let longer = events.push(event);
        assert(longer.drop_last() =~= events);
        let order = pattern_order(events);
        assert(pattern_order(longer) == order);
        assert(order[changed as int] == old_scan.entries@[changed as int].id);
        assert forall|j: int| 0 <= j < self.entries@.len() implies (#[trigger] self.entries@[j]).shows(
            longer,
        ) by {
            if j != changed {
                assert(old_scan.entries@[j].shows(events));
                assert(order[j] != order[changed as int]);
                assert(order[j] == self.entries@[j].id);
            }
        }
        assert(self.entries@.map_values(|e: PatternEntry| e.id) =~= order);
    }

    /// Starts or resumes a pattern.
    fn start(&mut self, id: u16, Ghost(events): Ghost<Seq<EventView>>)
        requires
            old(self).shows(events),
        ensures
            final(self).shows(events.push(EventView::Word(EVENT_NEW_PATTERN, id))),
    {
        let ghost longer = events.push(EventView::Word(EVENT_NEW_PATTERN, id));
        let ghost before = *self;
        proof {
            assert(longer.drop_last() =~= events);
            assert(forall|i: int|
                0 <= i < before.entries@.len() ==> pattern_order(events)[i] == (
                #[trigger] before.entries@[i]).id);
        }
        match self.find(id) {
            Some(i) => {
                assert(pattern_order(events)[i as int] == id);
                self.current = Some(i);
            },
            None => {
                let entry: PatternEntry = PatternEntry {
                    id,
                    name: None,
                    note_count: 0,
                    bpm_change_count: 0,
                };
                self.current = Some(self.entries.len());
                self.entries.push(entry);
                proof {
                    assert(!pattern_order(events).contains(id));
                    lemma_unmentioned(events, id);
                }
            },
        }
        proof {
            assert forall|j: int| 0 <= j < self.entries@.len() implies (
            #[trigger] self.entries@[j]).shows(longer) by {
                if j < before.entries@.len() {
                    assert(before.entries@[j].shows(events));
                }
            }
            assert(self.entries@.map_values(|e: PatternEntry| e.id) =~= pattern_order(longer));
        }
    }

    /// Names the current pattern, unless the name is blank.
    fn name(&mut self, payload: &[u8], Ghost(events): Ghost<Seq<EventView>>)
        requires
            old(self).shows(events),
        ensures
            final(self).shows(events.push(EventView::Data(EVENT_PATTERN_NAME, payload@))),
    {
        let ghost event = EventView::Data(EVENT_PATTERN_NAME, payload@);
        let ghost before = *self;
        assert(events.push(event).drop_last() =~= events);
        match self.current {
            Some(i) => {
                let name: String = decode_fl_text(payload);
                let ghost entry = self.entries@[i as int];
                assert(entry.shows(events));
                if !is_blank(name.as_str()) {
                    self.entries[i].name = Some(name);
                }
                proof {
                    self.lemma_rest_unchanged(before, events, event, i);
                }
            },
            None => {
                proof {
                    self.lemma_no_pattern(events, event);
                }
            },
        }
    }

    /// Counts the notes and markers of a block of the current pattern.
    fn count(&mut self, payload: &[u8], Ghost(events): Ghost<Seq<EventView>>)
        requires
            old(self).shows(events),
            payload_bytes(events.push(EventView::Data(EVENT_PATTERN_NOTES, payload@))) <= usize::MAX,
        ensures
            final(self).shows(events.push(EventView::Data(EVENT_PATTERN_NOTES, payload@))),
    {
        let ghost event = EventView::Data(EVENT_PATTERN_NOTES, payload@);
        let ghost longer = events.push(event);
        let ghost before = *self;
        assert(longer.drop_last() =~= events);
        match self.current {
            Some(i) => {
                proof {
                    let entry = self.entries@[i as int];
                    assert(entry.shows(events));
                    lemma_totals_bound(longer, entry.id);
                }
                let total: usize = payload.len() / NOTE_RECORD_SIZE;
                let markers: usize = count_markers(payload);
                let notes: usize = self.entries[i].note_count + total;
                let changes: usize = self.entries[i].bpm_change_count + markers;
                self.entries[i].note_count = notes;
                self.entries[i].bpm_change_count = changes;
                proof {
                    self.lemma_rest_unchanged(before, events, event, i);
                }
            },
            None => {
                proof {
                    self.lemma_no_pattern(events, event);
                }
            },
        }
    }

    /// Without a current pattern, payloads change nothing.
    proof fn lemma_no_pattern(self, events: Seq<EventView>, event: EventView)
        requires
            self.shows(events),
            event is Data,
            self.current is None,
        ensures
            self.shows(events.push(event)),
    {
        let longer = events.push(event);
        assert(longer.drop_last() =~= events);
        assert forall|j: int| 0 <= j < self.entries@.len() implies (#[trigger] self.entries@[j]).shows(
            longer,
        ) by {
            assert(self.entries@[j].shows(events));
        }
    }

    /// Takes in one more event.
    fn step(&mut self, event: &FlEvent<'_>, Ghost(events): Ghost<Seq<EventView>>)
        requires
            old(self).shows(events),
            payload_bytes(events.push(event@)) <= usize::MAX,
        ensures
            final(self).shows(events.push(event@)),
    {
        let ghost longer = events.push(event@);
        let ghost before = *self;
        proof {
            assert(longer.drop_last() =~= events);
            assert(longer.last() == event@);
        }
        match *event {
            FlEvent::Word(kind, id) => {
                if kind == EVENT_NEW_PATTERN {
                    self.start(id, Ghost(events));
                    return;
                }
            },
            FlEvent::Dword(kind, value) => {
                if kind == EVENT_FINE_TEMPO {
                    self.tempo = Some(value);
                }
            },
            FlEvent::Data(kind, payload) => {
                if kind == EVENT_PATTERN_NAME {
                    self.name(payload, Ghost(events));
                    return;
                }
                if kind == EVENT_PATTERN_NOTES {
                    self.count(payload, Ghost(events));
                    return;
                }
            },
            FlEvent::Byte(_, _) => {},
        }
        assert forall|j: int| 0 <= j < self.entries@.len() implies (#[trigger] self.entries@[j]).shows(
            longer,
        ) by {
            assert(before.entries@[j].shows(events));
        }
    }

    /// The patterns that were found.
    fn patterns(&self, Ghost(events): Ghost<Seq<EventView>>) -> (r: Vec<PatternInfo>)
        requires
            self.shows(events),
        ensures
            pattern_views(r@) == patterns_of(events),
    {
        let mut out: Vec<PatternInfo> = Vec::new();
        for i in 0..self.entries.len()
            invariant
                self.shows(events),
                pattern_views(out@) =~= patterns_of(events).take(i as int),
        {
            let entry: &PatternEntry = &self.entries[i];
            let name: String = match &entry.name {
                Some(given) => given.clone(),
                None => {
                    let mut made: String = "Pattern ".to_owned();
                    put(&mut made, decimal_text(entry.id as u64).as_str());
                    made
                },
            };
            let ghost done = out@;
            out.push(
                PatternInfo {
                    id: entry.id,
                    name,
                    note_count: entry.note_count,
                    bpm_change_count: entry.bpm_change_count,
                },
            );
            proof {
                assert(self.entries@[i as int].shows(events));
                assert(pattern_order(events)[i as int] == entry.id);
                assert(out@.last()@ =~= pattern_of(events, entry.id));
                assert(pattern_views(out@) =~= pattern_views(done).push(out@.last()@));
                assert(patterns_of(events).take(i + 1) =~= patterns_of(events).take(i as int).push(
                    pattern_of(events, entry.id),
                ));
            }
        }
        assert(patterns_of(events).take(self.entries@.len() as int) =~= patterns_of(events));
        out
    }
}

/// Nothing is said of a pattern that was never started.
proof fn lemma_unmentioned(events: Seq<EventView>, id: u16)
    requires
        !pattern_order(events).contains(id),
    ensures
        given_name(events, id) is None,
        note_total(events, id) == 0,
        marker_total(events, id) == 0,
        current_pattern(events) != Some(id),
    decreases events.len(),
{
    if events.len() > 0 {
        let before = events.drop_last();
        let earlier = pattern_order(before);
        if earlier.contains(id) {
            let k = choose|k: int| 0 <= k < earlier.len() && earlier[k] == id;
            assert(pattern_order(events)[k] == id);
        }
        lemma_unmentioned(before, id);
        if let EventView::Word(EVENT_NEW_PATTERN, started) = events.last() {
            assert(pattern_order(events).contains(started)) by {
                if !earlier.contains(started) {
                    assert(pattern_order(events)[earlier.len() as int] == started);
                }
            }
        }
    }
}

/// Once a block of the pattern is bad, later events change neither the error nor
/// the reports.
proof fn lemma_error_stays(events: Seq<EventView>, later: Seq<EventView>, id: u16)
    requires
        block_error(events, id) is Some,
    ensures
        block_error(events + later, id) == block_error(events, id),
        block_reports(events + later, id) == block_reports(events, id),
    decreases later.len(),
{
    if later.len() == 0 {
        assert(events + later =~= events);
    } else {
        lemma_error_stays(events, later.drop_last(), id);
        assert((events + later).drop_last() =~= events + later.drop_last());
    }
}

/// Reads a project. All patterns are listed; with a selected pattern its notes
/// are read too, and the pattern has to exist. Progress reports go to `log`.
pub fn parse_flp(bytes: &[u8], selected: Option<u16>, log: &mut Vec<Progress>) -> (r: Result<
    Project,
    FlpError,
>)
    ensures
        final(log)@ == old(log)@ + flp_reports(bytes@, selected),
        match flp_project(bytes@, selected) {
            Err(e) => r matches Err(f) && f == e,
            Ok(project) => r matches Ok(p) && p@ == project,
        },
{
    let opened: Result<(u16, EventReader<'_>), FlpError> = open_flp(bytes);
    let (ppq, mut reader) = match opened {
        Err(e) => {
            assert(log@ =~= old(log)@ + flp_reports(bytes@, selected));
            return Err(e);
        },
        Ok(pair) => pair,
    };
    let mut scan: PatternScan = PatternScan::new();
    let mut notes: Vec<FlNote> = Vec::new();
    let ghost start = reader.at as nat;
    let ghost end = reader.end as int;
    let ghost (all, tail) = stream(bytes@, start, end);
    let ghost mut seen: Seq<EventView> = seq![];
    proof {
        assert(all =~= seen + stream(bytes@, start, end).0);
        assert(log@ =~= old(log)@ + selected_reports(seen, selected));
        assert(notes@ =~= selected_notes(seen, selected));
    }
    loop
        invariant
            layout(bytes@) == Ok::<(u16, int, int), FlpError>((ppq, start as int, end)),
            reader.bytes@ == bytes@,
            reader.end == end,
            start <= reader.at <= bytes@.len() == bytes.len(),
            (all, tail) == stream(bytes@, start, end),
            all == seen + stream(bytes@, reader.at as nat, end).0,
            tail == stream(bytes@, reader.at as nat, end).1,
            scan.shows(seen),
            payload_bytes(seen) <= reader.at,
            notes@ == selected_notes(seen, selected),
            selected_error(seen, selected) is None,
            log@ == old(log)@ + selected_reports(seen, selected),
        ensures
            all == seen,
            tail is None,
        decreases bytes@.len() - reader.at,
    {
        let ghost at = reader.at as nat;
        proof {
            event_advances(bytes@, at as int, end);
        }
        match reader.next() {
            Err(e) => {
                assert(all =~= seen);
                return Err(e);
            },
            Ok(None) => {
                assert(all =~= seen);
                break;
            },
            Ok(Some(event)) => {
                let ghost before = seen;
                let ghost rest = stream(bytes@, reader.at as nat, end).0;
                proof {
                    seen = seen.push(event@);
                    assert(seen.drop_last() =~= before);
                    assert(all =~= seen + rest);
                }
                if let FlEvent::Data(kind, payload) = event {
                    if kind == EVENT_PATTERN_NOTES {
                        if let (Some(i), Some(id)) = (scan.current, selected) {
                            if scan.entries[i].id == id {
                                match parse_notes(payload, &mut notes, log) {
                                    Err(e) => {
                                        proof {
                                            lemma_error_stays(seen, rest, id);
                                        }
                                        return Err(e);
                                    },
                                    Ok(_) => {},
                                }
                            }
                        }
                    }
                }
                scan.step(&event, Ghost(before));
                proof {
                    assert(notes@ =~= selected_notes(seen, selected));
                    assert(log@ =~= old(log)@ + selected_reports(seen, selected));
                }
            },
        }
    }
    if let Some(id) = selected {
        match scan.find(id) {
            None => {
                assert(!pattern_order(seen).contains(id));
                return Err(FlpError::PatternMissing(id));
            },
            Some(i) => {
                assert(pattern_order(seen)[i as int] == id);
            },
        }
    }
    let patterns: Vec<PatternInfo> = scan.patterns(Ghost(seen));
    Ok(Project { ppq, tempo: scan.tempo, notes, patterns })
}

/// What the patterns and the tempo of a project file are.
pub open spec fn flp_info(bytes: Seq<u8>) -> Result<(Option<u32>, Seq<PatternView>), FlpError> {
    match layout(bytes) {
        Err(e) => Err(e),
        Ok((_, start, end)) => {
            let (events, tail) = stream(bytes, start as nat, end);
            match tail {
                Some(e) => Err(e),
                None => Ok((tempo_of(events), patterns_of(events))),
            }
        },
    }
}

/// Lists the patterns and the tempo of a project without reading its notes.
pub fn inspect_bytes(bytes: &[u8]) -> (r: Result<FlpInfo, FlpError>)
    ensures
        match flp_info(bytes@) {
            Err(e) => r matches Err(f) && f == e,
            Ok((tempo, patterns)) => r matches Ok(info) && info.tempo == tempo && pattern_views(
                info.patterns@,
            ) == patterns,
        },
{
    let mut reports: Vec<Progress> = Vec::new();
    match parse_flp(bytes, None, &mut reports) {
        Err(e) => Err(e),
        Ok(project) => Ok(FlpInfo { tempo: project.tempo, patterns: project.patterns }),
    }
}

/// The only pattern of a score with this many notes.
pub open spec fn score_pattern(note_count: nat) -> PatternView {
    PatternView { id: 1, name: "Score"@, note_count, bpm_change_count: 0 }
}

/// What a score file holds: its data are note records and nothing else.
pub open spec fn fsc_project(bytes: Seq<u8>) -> Result<ProjectView, FlpError> {
    match layout(bytes) {
        Err(e) => Err(e),
        Ok((ppq, start, end)) => {
            let payload = bytes.subrange(start, end);
            if payload.len() % (NOTE_RECORD_SIZE as nat) != 0 {
                Err(FlpError::NotesLength(payload.len() as usize))
            } else {
                let notes = payload_notes(payload);
                Ok(
                    ProjectView {
                        ppq,
                        tempo: None,
                        notes,
                        patterns: seq![score_pattern(notes.len())],
                    },
                )
            }
        },
    }
}

/// The progress reports that reading a score file gives.
pub open spec fn fsc_reports(bytes: Seq<u8>) -> Seq<Progress> {
    match fsc_project(bytes) {
        Err(_) => seq![],
        Ok(project) => item_reports(project.notes.len(), project.notes.len()),
    }
}

/// Reads a score. It has no tempo, and one pattern that holds all notes.
pub fn parse_fsc(bytes: &[u8], log: &mut Vec<Progress>) -> (r: Result<Project, FlpError>)
    ensures
        final(log)@ == old(log)@ + fsc_reports(bytes@),
        match fsc_project(bytes@) {
            Err(e) => r matches Err(f) && f == e,
            Ok(project) => r matches Ok(p) && p@ == project,
        },
{
    assert(log@ =~= old(log)@ + seq![]);
    let (ppq, reader) = open_flp(bytes)?;
    let payload: &[u8] = slice_subrange(reader.bytes, reader.at, reader.end);
    let mut notes: Vec<FlNote> = Vec::new();
    parse_notes(payload, &mut notes, log)?;
    let note_count: usize = notes.len();
    let score: PatternInfo = PatternInfo {
        id: 1,
        name: "Score".to_owned(),
        note_count,
        bpm_change_count: 0,
    };
    let mut patterns: Vec<PatternInfo> = Vec::new();
    patterns.push(score);
    proof {
        assert(notes@ =~= payload_notes(payload@));
        assert(pattern_views(patterns@) =~= seq![score_pattern(note_count as nat)]);
    }
    Ok(Project { ppq, tempo: None, notes, patterns })
}

/// What a project or score holds, with the notes of the pattern `id`.
pub open spec fn input_project(bytes: Seq<u8>, id: u16) -> Result<ProjectView, FlpError> {
    if is_score(bytes) {
        fsc_project(bytes)
    } else {
        flp_project(bytes, Some(id))
    }
}

/// The progress reports that reading a project or score gives.
pub open spec fn input_reports(bytes: Seq<u8>, id: u16) -> Seq<Progress> {
    if is_score(bytes) {
        fsc_reports(bytes)
    } else {
        flp_reports(bytes, Some(id))
    }
}

/// Reads a project or score, whichever the bytes hold.
pub fn parse_input(bytes: &[u8], id: u16, log: &mut Vec<Progress>) -> (r: Result<Project, FlpError>)
    ensures
        final(log)@ == old(log)@ + input_reports(bytes@, id),
        match input_project(bytes@, id) {
            Err(e) => r matches Err(f) && f == e,
            Ok(project) => r matches Ok(p) && p@ == project,
        },
{
    if is_fsc(bytes) {
        parse_fsc(bytes, log)
    } else {
        parse_flp(bytes, Some(id), log)
    }
}

/// Every pattern is listed once.
pub proof fn patterns_are_distinct(events: Seq<EventView>)
    ensures
        pattern_order(events).no_duplicates(),
    decreases events.len(),
{
    if events.len() > 0 {
        patterns_are_distinct(events.drop_last());
    }
}

/// The patterns that are listed of a project have different identifiers.
pub proof fn listed_patterns_are_distinct(bytes: Seq<u8>, i: int, j: int)
    requires
        flp_info(bytes) is Ok,
        0 <= i < flp_info(bytes)->Ok_0.1.len(),
        0 <= j < flp_info(bytes)->Ok_0.1.len(),
        flp_info(bytes)->Ok_0.1[i].id == flp_info(bytes)->Ok_0.1[j].id,
    ensures
        i == j,
{
    let (_, start, end) = layout(bytes)->Ok_0;
    let events = stream(bytes, start as nat, end).0;
    patterns_are_distinct(events);
    assert(pattern_order(events)[i] == flp_info(bytes)->Ok_0.1[i].id);
    assert(pattern_order(events)[j] == flp_info(bytes)->Ok_0.1[j].id);
}

/// Reading the notes of a pattern lists the same patterns and the same tempo as
/// looking at the file without reading notes.
pub proof fn parsing_agrees_with_inspection(bytes: Seq<u8>, selected: Option<u16>)
    requires
        flp_project(bytes, selected) is Ok,
    ensures
        flp_info(bytes) == Ok::<(Option<u32>, Seq<PatternView>), FlpError>(
            (flp_project(bytes, selected)->Ok_0.tempo, flp_project(bytes, selected)->Ok_0.patterns),
        ),
{
}

proof fn lemma_note_total(events: Seq<EventView>, id: u16)
    ensures
        notes_of(events, id).len() == note_total(events, id),
    decreases events.len(),
{
    if events.len() > 0 {
        lemma_note_total(events.drop_last(), id);
    }
}

/// The note count that is listed for a pattern is the number of notes that
/// reading the pattern gives.
pub proof fn listed_count_is_number_of_notes(bytes: Seq<u8>, id: u16)
    requires
        flp_project(bytes, Some(id)) is Ok,
    ensures
        exists|i: int|
            #![trigger flp_project(bytes, Some(id))->Ok_0.patterns[i]]
            {
                let project = flp_project(bytes, Some(id))->Ok_0;
                &&& 0 <= i < project.patterns.len()
                &&& project.patterns[i].id == id
                &&& project.patterns[i].note_count == project.notes.len()
            },
{
    let (ppq, start, end) = layout(bytes)->Ok_0;
    let events = stream(bytes, start as nat, end).0;
    let project = flp_project(bytes, Some(id))->Ok_0;
    lemma_note_total(events, id);
    let i = choose|i: int| 0 <= i < pattern_order(events).len() && pattern_order(events)[i] == id;
    assert(project.patterns[i].id == id);
}

/// A tempo-change marker is a note: no pattern has more markers than notes.
pub proof fn markers_are_notes(events: Seq<EventView>, id: u16)
    ensures
        marker_total(events, id) <= note_total(events, id),
{
    lemma_totals_bound(events, id);
}

proof fn lemma_payload_bytes_front(event: EventView, rest: Seq<EventView>)
    ensures
        payload_bytes(seq![event] + rest) == payload_bytes(seq![event]) + payload_bytes(rest),
    decreases rest.len(),
{
    let all = seq![event] + rest;
    if rest.len() == 0 {
        assert(all =~= seq![event]);
    } else {
        lemma_payload_bytes_front(event, rest.drop_last());
        assert(all.drop_last() =~= seq![event] + rest.drop_last());
    }
}

proof fn lemma_payload_within_file(bytes: Seq<u8>, at: nat, end: int)
    requires
        at <= bytes.len(),
    ensures
        payload_bytes(stream(bytes, at, end).0) <= bytes.len() - at,
    decreases bytes.len() - at,
{
    event_advances(bytes, at as int, end);
    if let (Ok(Some(event)), stop) = next_event(bytes, at as int, end) {
        lemma_payload_within_file(bytes, stop as nat, end);
        lemma_payload_bytes_front(event, stream(bytes, stop as nat, end).0);
        assert(seq![event].drop_last() =~= seq![]);
        reveal_with_fuel(payload_bytes, 2);
    }
}

proof fn lemma_data_starts_within(bytes: Seq<u8>, at: int)
    requires
        0 <= at,
    ensures
        find_data(bytes, at) matches Ok((start, end)) ==> 0 <= start <= end <= bytes.len(),
    decreases bytes.len() - at,
{
    if shortage(bytes.len(), at, 4) is None && shortage(bytes.len(), at + 4, 4) is None {
        let len = le32(bytes, at + 4) as int;
        if shortage(bytes.len(), at + 8, len) is None {
            lemma_data_starts_within(bytes, at + 8 + len);
        }
    }
}

/// The counts that are listed for a pattern are no larger than the file.
pub proof fn counts_fit_in_file(bytes: Seq<u8>, i: int)
    requires
        flp_info(bytes) is Ok,
        0 <= i < flp_info(bytes)->Ok_0.1.len(),
    ensures
        flp_info(bytes)->Ok_0.1[i].bpm_change_count <= flp_info(bytes)->Ok_0.1[i].note_count
            <= bytes.len(),
{
    let (_, start, end) = layout(bytes)->Ok_0;
    let events = stream(bytes, start as nat, end).0;
    lemma_data_starts_within(bytes, HEADER_END as int);
    lemma_payload_within_file(bytes, start as nat, end);
    lemma_totals_bound(events, pattern_order(events)[i]);
}

/// Reading a project without a selection lists what looking at it lists, and takes no
/// notes.
pub proof fn listing_reads_what_inspection_lists(bytes: Seq<u8>)
    ensures
        match (flp_info(bytes), flp_project(bytes, None)) {
            (Ok((tempo, patterns)), Ok(project)) => {
                &&& project.tempo == tempo
                &&& project.patterns == patterns
                &&& project.notes.len() == 0
            },
            (Err(e), Err(f)) => e == f,
            _ => false,
        },
{
}

/// The bytes of some events, one after the other.
pub open spec fn events_bytes(events: Seq<EventView>) -> Seq<u8>
    decreases events.len(),
{
    if events.len() == 0 {
        seq![]
    } else {
        event_bytes(events[0]) + events_bytes(events.skip(1))
    }
}

/// Events that are written one after the other are read back, all of them and in order.
pub proof fn events_are_read_back(before: Seq<u8>, events: Seq<EventView>, after: Seq<u8>)
    requires
        forall|i: int| 0 <= i < events.len() ==> has_own_number(#[trigger] events[i]),
        (before + events_bytes(events) + after).len() <= usize::MAX,
    ensures
        stream(
            before + events_bytes(events) + after,
            before.len(),
            (before.len() + events_bytes(events).len()) as int,
        ) == (events, None::<FlpError>),
    decreases events.len(),
{
    let bytes = before + events_bytes(events) + after;
    let end = (before.len() + events_bytes(events).len()) as int;
    if events.len() == 0 {
        assert(stream(bytes, before.len(), end).0 =~= events);
    } else {
        let first = events[0];
        let rest = events.skip(1);
        let own = event_bytes(first);
        let later = events_bytes(rest);
        assert(own.len() > 0);
        assert forall|i: int| 0 <= i < rest.len() implies has_own_number(#[trigger] rest[i]) by {
            assert(rest[i] == events[i + 1]);
        }
        assert(bytes =~= before + own + (later + after));
        assert(bytes =~= (before + own) + later + after);
        event_is_read_back(before, first, later + after, end);
        events_are_read_back(before + own, rest, after);
        assert(seq![first] + rest =~= events);
        assert((before + own).len() == before.len() + own.len());
    }
}

/// The file of a project: a header with the ticks per quarter note, and the events.
pub open spec fn project_file(ppq: u16, events: Seq<EventView>) -> Seq<u8> {
    let length = events_bytes(events).len();
    seq![
        0x46u8, 0x4c, 0x68, 0x64, 6, 0, 0, 0, 0, 0, 1, 0, (ppq % 256) as u8, (ppq / 256) as u8,
        0x46, 0x4c, 0x64, 0x74, (length % 256) as u8, (length / 256 % 256) as u8,
        (length / 65536 % 256) as u8, (length / 16777216 % 256) as u8,
    ] + events_bytes(events)
}

/// A project that was written is read back: its ticks, its tempo, its patterns and the
/// notes of the selected one are what the events say.
pub proof fn written_project_is_read_back(ppq: u16, events: Seq<EventView>, id: u16)
    requires
        forall|i: int| 0 <= i < events.len() ==> has_own_number(#[trigger] events[i]),
        events_bytes(events).len() <= u32::MAX,
        project_file(ppq, events).len() <= usize::MAX,
    ensures
        !is_score(project_file(ppq, events)),
        layout(project_file(ppq, events)) == Ok::<(u16, int, int), FlpError>(
            (ppq, 22, project_file(ppq, events).len() as int),
        ),
        flp_info(project_file(ppq, events)) == Ok::<(Option<u32>, Seq<PatternView>), FlpError>(
            (tempo_of(events), patterns_of(events)),
        ),
        block_error(events, id) is None && pattern_order(events).contains(id) ==> flp_project(
            project_file(ppq, events),
            Some(id),
        ) == Ok::<ProjectView, FlpError>(
            ProjectView {
                ppq,
                tempo: tempo_of(events),
                notes: notes_of(events, id),
                patterns: patterns_of(events),
            },
        ),
        block_error(events, id) is None && !pattern_order(events).contains(id) ==> flp_project(
            project_file(ppq, events),
            Some(id),
        ) == Err::<ProjectView, FlpError>(FlpError::PatternMissing(id)),
        block_error(events, id) matches Some(e) ==> flp_project(
            project_file(ppq, events),
            Some(id),
        ) == Err::<ProjectView, FlpError>(e),
{
    let bytes = project_file(ppq, events);
    let own = events_bytes(events);
    let length = own.len();
    let head = bytes.take(22);
    assert(bytes =~= head + own + seq![]);
    assert(bytes.take(4) =~= seq![0x46u8, 0x4c, 0x68, 0x64]);
    assert(bytes.subrange(14, 18) =~= seq![0x46u8, 0x4c, 0x64, 0x74]);
    assert(bytes[4] == 6 && bytes[5] == 0 && bytes[6] == 0 && bytes[7] == 0);
    assert(bytes[8] == 0 && bytes[9] == 0);
    assert(length % 256 + 256 * (length / 256 % 256) + 65536 * (length / 65536 % 256) + 16777216 * (
    length / 16777216 % 256) == length) by (nonlinear_arith)
        requires
            length <= 0xffff_ffff,
    ;
    assert(bytes[18] + 256 * bytes[19] + 65536 * bytes[20] + 16777216 * bytes[21] == length);
    data_chunk_is_found(bytes, 14, length as int);
    files_open_with_header_and_data(bytes);
    events_are_read_back(head, events, seq![]);
}

/// An event that starts a pattern makes it the current one and lists it, once and behind
/// those that are listed already. No other event does either.
pub proof fn patterns_are_listed_as_they_start(events: Seq<EventView>, event: EventView)
    ensures
        event matches EventView::Word(65, id) ==> {
            &&& current_pattern(events.push(event)) == Some(id)
            &&& pattern_order(events).contains(id) ==> pattern_order(events.push(event))
                == pattern_order(events)
            &&& !pattern_order(events).contains(id) ==> pattern_order(events.push(event))
                == pattern_order(events).push(id)
        },
        !(event matches EventView::Word(65, _)) ==> {
            &&& current_pattern(events.push(event)) == current_pattern(events)
            &&& pattern_order(events.push(event)) == pattern_order(events)
        },
        current_pattern(Seq::<EventView>::empty()) is None,
        pattern_order(Seq::<EventView>::empty()) == Seq::<u16>::empty(),
{
    assert(events.push(event).drop_last() =~= events);
}

/// The tempo of a project is that of the last event that tells one.
pub proof fn last_tempo_counts(events: Seq<EventView>, event: EventView)
    ensures
        event matches EventView::Dword(156, value) ==> tempo_of(events.push(event)) == Some(value),
        !(event matches EventView::Dword(156, _)) ==> tempo_of(events.push(event)) == tempo_of(
            events,
        ),
        tempo_of(Seq::<EventView>::empty()) is None,
{
    assert(events.push(event).drop_last() =~= events);
}

/// A name goes to the current pattern, and a later one takes its place; a name of blanks
/// alone is none. No other pattern and no other event is touched by it.
pub proof fn last_name_counts(events: Seq<EventView>, event: EventView, id: u16)
    ensures
        event matches EventView::Data(193, payload) && current_pattern(events) == Some(id)
            && !blank(fl_text(payload)) ==> given_name(events.push(event), id) == Some(
            fl_text(event->Data_1),
        ),
        !(event matches EventView::Data(193, payload) && current_pattern(events) == Some(id)
            && !blank(fl_text(payload))) ==> given_name(events.push(event), id) == given_name(
            events,
            id,
        ),
        given_name(Seq::<EventView>::empty(), id) is None,
{
    assert(events.push(event).drop_last() =~= events);
}

/// Notes go to the current pattern, behind those that it has. Other patterns and other
/// events leave them alone. They are counted with them, and so are those of key 56.
pub proof fn notes_go_to_the_current_pattern(events: Seq<EventView>, event: EventView, id: u16)
    ensures
        event matches EventView::Data(224, payload) && current_pattern(events) == Some(id) ==> {
            let payload = event->Data_1;
            &&& notes_of(events.push(event), id) == notes_of(events, id) + payload_notes(payload)
            &&& note_total(events.push(event), id) == note_total(events, id) + payload.len() / 24
            &&& marker_total(events.push(event), id) == marker_total(events, id) + payload_notes(
                payload,
            ).filter(|n: FlNote| n.key == 56).len()
        },
        !(event matches EventView::Data(224, _) && current_pattern(events) == Some(id)) ==> {
            &&& notes_of(events.push(event), id) == notes_of(events, id)
            &&& note_total(events.push(event), id) == note_total(events, id)
            &&& marker_total(events.push(event), id) == marker_total(events, id)
        },
        notes_of(Seq::<EventView>::empty(), id) == Seq::<FlNote>::empty(),
        note_total(Seq::<EventView>::empty(), id) == 0,
        marker_total(Seq::<EventView>::empty(), id) == 0,
{
    assert(events.push(event).drop_last() =~= events);
    if let EventView::Data(kind, payload) = event {
        let notes = payload_notes(payload);
        lemma_markers_are_notes_of_key(payload, notes.len());
        assert(notes.take(notes.len() as int) =~= notes);
        assert(notes_of(events, id) + seq![] =~= notes_of(events, id));
    } else {
        assert(notes_of(events, id) + seq![] =~= notes_of(events, id));
    }
}

proof fn lemma_markers_are_notes_of_key(payload: Seq<u8>, n: nat)
    requires
        n <= payload_notes(payload).len(),
    ensures
        markers_among(payload, n) == payload_notes(payload).take(n as int).filter(
            |note: FlNote| note.key == 56,
        ).len(),
    decreases n,
{
    reveal(Seq::filter);
    let notes = payload_notes(payload);
    if n > 0 {
        lemma_markers_are_notes_of_key(payload, (n - 1) as nat);
        assert(notes.take(n as int).drop_last() =~= notes.take(n - 1));
        assert(notes.take(n as int).last() == notes[n - 1]);
        records_are_notes(payload, n - 1);
    }
}

/// Notes that are no whole number of records are refused, the first such ones first.
pub proof fn broken_notes_are_refused(events: Seq<EventView>, event: EventView, id: u16)
    ensures
        block_error(events, id) is Some ==> block_error(events.push(event), id) == block_error(
            events,
            id,
        ),
        block_error(events, id) is None && (event matches EventView::Data(224, payload)
            && current_pattern(events) == Some(id) && payload.len() % 24 != 0) ==> block_error(
            events.push(event),
            id,
        ) == Some(FlpError::NotesLength(event->Data_1.len() as usize)),
        block_error(events, id) is None && !(event matches EventView::Data(224, payload)
            && current_pattern(events) == Some(id) && payload.len() % 24 != 0) ==> block_error(
            events.push(event),
            id,
        ) is None,
        block_error(Seq::<EventView>::empty(), id) is None,
{
    assert(events.push(event).drop_last() =~= events);
}

/// Every pattern is listed under its identifier and the last name it was given, or its
/// number without one, with as many notes as reading it gives.
pub proof fn patterns_are_listed_whole(events: Seq<EventView>, i: int)
    requires
        0 <= i < pattern_order(events).len(),
    ensures
        patterns_of(events).len() == pattern_order(events).len(),
        ({
            let id = pattern_order(events)[i];
            let pattern = patterns_of(events)[i];
            &&& pattern.id == id
            &&& given_name(events, id) matches Some(name) ==> pattern.name == name
            &&& given_name(events, id) is None ==> pattern.name == "Pattern "@ + decimal(id as nat)
            &&& pattern.note_count == note_total(events, id)
            &&& pattern.bpm_change_count == marker_total(events, id)
        }),
{
}

/// A score is read whole: one note for every 24 bytes of its data, at its own ticks and
/// without a tempo. Data that is no whole number of records is refused.
pub proof fn scores_are_read_whole(bytes: Seq<u8>)
    ensures
        match layout(bytes) {
            Err(e) => fsc_project(bytes) == Err::<ProjectView, FlpError>(e),
            Ok((ppq, start, end)) => {
                let payload = bytes.subrange(start, end);
                &&& payload.len() % 24 != 0 ==> fsc_project(bytes) == Err::<ProjectView, FlpError>(
                    FlpError::NotesLength(payload.len() as usize),
                )
                &&& payload.len() % 24 == 0 ==> {
                    &&& fsc_project(bytes) matches Ok(project)
                    &&& project.ppq == ppq
                    &&& project.tempo is None
                    &&& project.notes == payload_notes(payload)
                    &&& project.notes.len() * 24 == payload.len()
                }
            },
        },
{
}

/// An input is read as a score where its format says so, and as a project otherwise.
pub proof fn inputs_are_read_by_their_format(bytes: Seq<u8>, id: u16)
    ensures
        bytes.len() >= 10 && (bytes[8] != 0 || bytes[9] != 0) ==> input_project(bytes, id)
            == fsc_project(bytes),
        !(bytes.len() >= 10 && (bytes[8] != 0 || bytes[9] != 0)) ==> input_project(bytes, id)
            == flp_project(bytes, Some(id)),
{
    format_field_tells_scores(bytes);
}

/// Wherever the data of a project starts, its events alone say what it holds: reading a
/// pattern gives the notes of that pattern and the tempo and patterns that looking at the
/// file lists. Data that breaks off is refused by both.
pub proof fn events_say_what_a_project_holds(bytes: Seq<u8>, id: u16)
    requires
        layout(bytes) is Ok,
    ensures
        ({
            let (ppq, start, end) = layout(bytes)->Ok_0;
            let (events, tail) = stream(bytes, start as nat, end);
            &&& tail matches Some(e) ==> flp_info(bytes) == Err::<
                (Option<u32>, Seq<PatternView>),
                FlpError,
            >(e) && flp_project(bytes, Some(id)) is Err
            &&& tail is None ==> {
                &&& flp_info(bytes) matches Ok((tempo, patterns))
                &&& tempo == tempo_of(events)
                &&& patterns == patterns_of(events)
                &&& flp_project(bytes, Some(id)) is Ok <==> pattern_order(events).contains(id)
                    && block_error(events, id) is None
                &&& flp_project(bytes, Some(id)) matches Ok(project) ==> {
                    &&& project.ppq == ppq
                    &&& project.tempo == tempo
                    &&& project.patterns == patterns
                    &&& project.notes == notes_of(events, id)
                    &&& project.notes.len() == note_total(events, id)
                }
            }
        }),
{
    let (ppq, start, end) = layout(bytes)->Ok_0;
    let (events, tail) = stream(bytes, start as nat, end);
    if block_error(events, id) is None {
        lemma_note_total(events, id);
    }
}

/// A file that does not open is refused whatever is asked of it.
pub proof fn closed_files_are_refused(bytes: Seq<u8>, selected: Option<u16>)
    requires
        layout(bytes) is Err,
    ensures
        flp_info(bytes) == Err::<(Option<u32>, Seq<PatternView>), FlpError>(layout(bytes)->Err_0),
        flp_project(bytes, selected) == Err::<ProjectView, FlpError>(layout(bytes)->Err_0),
        fsc_project(bytes) == Err::<ProjectView, FlpError>(layout(bytes)->Err_0),
{
}

/// What is seen of a project is everything that was read.
pub proof fn views_show_whole_projects(project: Project)
    ensures
        project@.ppq == project.ppq,
        project@.tempo == project.tempo,
        project@.notes == project.notes@,
        project@.patterns == pattern_views(project.patterns@),
{
}

/// Reading the notes of a pattern is reported block by block, up to the first that is
/// broken; without a selection nothing is.
pub proof fn reading_notes_is_reported(events: Seq<EventView>, event: EventView, id: u16)
    ensures
        (event matches EventView::Data(224, _) && current_pattern(events) == Some(id)
            && block_error(events.push(event), id) is None) ==> block_reports(
            events.push(event),
            id,
        ) == block_reports(events, id) + item_reports(
            event->Data_1.len() / 24,
            event->Data_1.len() / 24,
        ),
        !(event matches EventView::Data(224, _) && current_pattern(events) == Some(id)
            && block_error(events.push(event), id) is None) ==> block_reports(
            events.push(event),
            id,
        ) == block_reports(events, id),
        block_reports(Seq::<EventView>::empty(), id).len() == 0,
{
    assert(events.push(event).drop_last() =~= events);
}

/// What is reported on reading a file is what its events, or its records, call for.
pub proof fn reports_follow_the_file(bytes: Seq<u8>, id: u16)
    ensures
        flp_reports(bytes, None).len() == 0,
        layout(bytes) matches Ok((_, start, end)) ==> flp_reports(bytes, Some(id)) == block_reports(
            stream(bytes, start as nat, end).0,
            id,
        ),
        layout(bytes) is Err ==> flp_reports(bytes, Some(id)).len() == 0,
        fsc_project(bytes) matches Ok(project) ==> fsc_reports(bytes) == item_reports(
            project.notes.len(),
            project.notes.len(),
        ),
        fsc_project(bytes) is Err ==> fsc_reports(bytes).len() == 0,
        is_score(bytes) ==> input_reports(bytes, id) == fsc_reports(bytes),
        !is_score(bytes) ==> input_reports(bytes, id) == flp_reports(bytes, Some(id)),
{
}

} // verus!
