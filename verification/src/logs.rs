//! The run history kept by the log store.
//!
//! The store appends one JSON event per line to its history file: `start`
//! when a run begins, `finish` when it ends, `action` for what the operator
//! did with its result.  Reading the history folds those events into one
//! entry per run.  This module reads what each line says of its event and
//! holds that fold; the file handling stays with the caller, which gets
//! back, for each run, the positions of the events that make it up.
use vstd::prelude::*;
use crate::text::{chars_of, same};

verus! {

/// Size above which the diagnostic trace is rotated before an append.
pub const TRACE_BYTES: u64 = 10485760;

/// Number of trace files kept, the live one included.
pub const TRACE_FILES: usize = 5;

/// Number of runs that a history listing shows, newest first.
pub const HISTORY_LIMIT: usize = 100;

/// The fields of a history event that decide where it goes.
pub struct HistoryEvent {
    /// The run it belongs to (`id`), when that is a string.
    pub id: Option<String>,
    /// Its kind (`event`): `start`, `finish` or `action`.
    pub event: Option<String>,
    /// For an action, which one (`action`).
    pub action: Option<String>,
}

/// One run of the history, by the positions of its events in the file.
pub struct HistoryEntry {
    pub id: String,
    /// The `start` event.
    pub start: usize,
    /// The last `finish` event; a run without one was interrupted.
    pub finish: Option<usize>,
    /// The `action` events, in order.
    pub actions: Vec<usize>,
    /// The last `work_zero` action, whose data is the applied offset.
    pub work_zero: Option<usize>,
}

pub struct EventView {
    pub id: Option<Seq<char>>,
    pub event: Option<Seq<char>>,
    pub action: Option<Seq<char>>,
}

pub struct EntryView {
    pub id: Seq<char>,
    pub start: usize,
    pub finish: Option<usize>,
    pub actions: Seq<usize>,
    pub work_zero: Option<usize>,
}

pub open spec fn opt_view(s: Option<String>) -> Option<Seq<char>> {
    match s {
        Some(t) => Some(t@),
        None => None,
    }
}

impl View for HistoryEvent {
    type V = EventView;

    open spec fn view(&self) -> EventView {
        EventView { id: opt_view(self.id), event: opt_view(self.event), action: opt_view(self.action) }
    }
}

/// The text of field `key` of the JSON value written on `line`: `None`
/// when the line holds no JSON, `Some(None)` when the value has no such
/// field or the field is not a string.
pub uninterp spec fn json_text_field(line: Seq<char>, key: Seq<char>) -> Option<Option<Seq<char>>>;

pub open spec fn opt_opt_view(r: Option<Option<String>>) -> Option<Option<Seq<char>>> {
    match r {
        Some(f) => Some(opt_view(f)),
        None => None,
    }
}

/// `serde_json::from_str::<serde_json::Value>` of `line`, then the field
/// `key` of the value read (`Null` when missing) taken by `Value::as_str`.
/// A function of the line and the key alone.
#[verifier::external_body]
fn text_field(line: &str, key: &str) -> (r: Option<Option<String>>)
    ensures
        opt_opt_view(r) == json_text_field(line@, key@),
{
    serde_json::from_str::<serde_json::Value>(line).ok().map(|v| v[key].as_str().map(str::to_owned))
}

/// What a line of the history file says of its event: the `id`, `event` and
/// `action` fields where they are strings, or `None` when the line holds no
/// JSON (such a line is skipped).
pub fn history_event(line: &str) -> (e: Option<HistoryEvent>)
    ensures
        match (
            json_text_field(line@, "id"@),
            json_text_field(line@, "event"@),
            json_text_field(line@, "action"@),
        ) {
            (Some(i), Some(k), Some(a)) => e matches Some(h) && h@ == (EventView {
                id: i,
                event: k,
                action: a,
            }),
            _ => e is None,
        },
{
    let id = text_field(line, "id");
    let event = text_field(line, "event");
    let action = text_field(line, "action");
    match (id, event, action) {
        (Some(id), Some(event), Some(action)) => Some(HistoryEvent { id, event, action }),
        _ => None,
    }
}

impl View for HistoryEntry {
    type V = EntryView;

    open spec fn view(&self) -> EntryView {
        EntryView {
            id: self.id@,
            start: self.start,
            finish: self.finish,
            actions: self.actions@,
            work_zero: self.work_zero,
        }
    }
}

pub open spec fn entry_views(v: Seq<HistoryEntry>) -> Seq<EntryView> {
    v.map_values(|e: HistoryEntry| e@)
}

/// The runs read so far, oldest first.
pub struct LogStore {
    entries: Vec<HistoryEntry>,
}

impl View for LogStore {
    type V = Seq<EntryView>;

    closed spec fn view(&self) -> Seq<EntryView> {
        entry_views(self.entries@)
    }
}

/// The newest run with this id: the one that later events of the id belong to.
pub open spec fn latest(entries: Seq<EntryView>, id: Seq<char>) -> Option<int>
    decreases entries.len(),
{
    if entries.len() == 0 {
        None
    } else if entries.last().id == id {
        Some(entries.len() - 1)
    } else {
        latest(entries.drop_last(), id)
    }
}

/// The runs after the event at `position` has been read.
pub open spec fn recorded(entries: Seq<EntryView>, position: usize, e: EventView) -> Seq<EntryView> {
    match e.id {
        None => entries,
        Some(id) => if e.event == Some("start"@) {
            entries.push(
                EntryView { id, start: position, finish: None, actions: seq![], work_zero: None },
            )
        } else if e.event == Some("finish"@) {
            match latest(entries, id) {
                Some(k) => entries.update(k, EntryView { finish: Some(position), ..entries[k] }),
                None => entries,
            }
        } else if e.event == Some("action"@) {
            match latest(entries, id) {
                Some(k) => entries.update(
                    k,
                    EntryView {
                        actions: entries[k].actions.push(position),
                        work_zero: if e.action == Some("work_zero"@) {
                            Some(position)
                        } else {
                            entries[k].work_zero
                        },
                        ..entries[k]
                    },
                ),
                None => entries,
            }
        } else {
            entries
        },
    }
}

/// The history as listed: newest run first, at most `HISTORY_LIMIT` runs.
pub open spec fn listing(entries: Seq<EntryView>) -> Seq<EntryView> {
    let n = if entries.len() < HISTORY_LIMIT { entries.len() } else { HISTORY_LIMIT as nat };
    Seq::new(n, |i: int| entries[entries.len() - 1 - i])
}

/// Whether appending a line of `line` bytes to a trace of `size` bytes
/// first rotates the trace.
pub open spec fn rotates(size: u64, line: u64) -> bool {
    size + line + 1 > TRACE_BYTES
}

proof fn lemma_latest_in_range(entries: Seq<EntryView>, id: Seq<char>)
    ensures
        match latest(entries, id) {
            Some(k) => 0 <= k < entries.len() && entries[k].id == id && forall|j: int|
                k < j < entries.len() ==> entries[j].id != id,
            None => forall|j: int| 0 <= j < entries.len() ==> entries[j].id != id,
        },
    decreases entries.len(),
{
    if entries.len() > 0 {
        let d = entries.drop_last();
        lemma_latest_in_range(d, id);
        assert(forall|j: int| 0 <= j < d.len() ==> d[j] == entries[j]);
    }
}

fn latest_exec(entries: &Vec<HistoryEntry>, id: &[char]) -> (r: Option<usize>)
    ensures
        match (r, latest(entry_views(entries@), id@)) {
            (Some(a), Some(b)) => a == b,
            (None, None) => true,
            _ => false,
        },
{
    let ghost ev = entry_views(entries@);
    proof {
        lemma_latest_in_range(ev, id@);
    }
    let mut i: usize = entries.len();
    assert(ev.take(i as int) =~= ev);
    while i > 0
        invariant
            i <= entries.len(),
            ev == entry_views(entries@),
            ev.len() == entries.len(),
            latest(ev, id@) == latest(ev.take(i as int), id@),
        decreases i,
    {
        let ghost t = ev.take(i as int);
        assert(t.last() == entries@[i - 1]@);
        if same(&chars_of(entries[i - 1].id.as_str()), id) {
            return Some(i - 1);
        }
        assert(t.drop_last() =~= ev.take(i - 1));
        i -= 1;
    }
    assert(ev.take(0) =~= Seq::<EntryView>::empty());
    None
}

fn is_word(s: &Option<String>, word: &str) -> (r: bool)
    ensures
        r == (opt_view(*s) == Some(word@)),
{
    match s {
        Some(t) => same(&chars_of(t.as_str()), &chars_of(word)),
        None => false,
    }
}

impl LogStore {
    /// A history with no run in it.
    pub fn new() -> (s: LogStore)
        ensures
            s@ == Seq::<EntryView>::empty(),
    {
        let s = LogStore { entries: Vec::new() };
        assert(s@ =~= Seq::<EntryView>::empty());
        s
    }

    /// Reads the event at `position` of the history file into the runs:
    /// `start` opens a run, interrupted until a `finish` of the same id
    /// closes it; an `action` is added to the newest run of its id.
    /// Events of no known run, of no id or of another kind change nothing.
    pub fn record(&mut self, position: usize, event: &HistoryEvent)
        ensures
            final(self)@ == recorded(old(self)@, position, event@),
    {
        let ghost before = self@;
        let id = match &event.id {
            Some(id) => chars_of(id.as_str()),
            None => {
                return ;
            },
        };
        if is_word(&event.event, "start") {
            let entry = HistoryEntry {
                id: crate::text::string_of(&id),
                start: position,
                finish: None,
                actions: Vec::new(),
                work_zero: None,
            };
            self.entries.push(entry);
            proof {
                assert(entry_views(self.entries@) =~= before.push(entry@));
                assert(entry@.actions =~= Seq::<usize>::empty());
            }
        } else if is_word(&event.event, "finish") {
            match latest_exec(&self.entries, &id) {
                Some(k) => {
                    proof {
                        lemma_latest_in_range(before, id@);
                    }
                    let mut entry = self.entries.remove(k);
                    entry.finish = Some(position);
                    let ghost e = entry@;
                    self.entries.insert(k, entry);
                    proof {
                        assert(entry_views(self.entries@) =~= before.update(k as int, e));
                    }
                },
                None => {},
            }
        } else if is_word(&event.event, "action") {
            match latest_exec(&self.entries, &id) {
                Some(k) => {
                    proof {
                        lemma_latest_in_range(before, id@);
                    }
                    let mut entry = self.entries.remove(k);
                    entry.actions.push(position);
                    if is_word(&event.action, "work_zero") {
                        entry.work_zero = Some(position);
                    }
                    let ghost e = entry@;
                    self.entries.insert(k, entry);
                    proof {
                        assert(entry_views(self.entries@) =~= before.update(k as int, e));
                    }
                },
                None => {},
            }
        }
    }

    /// The runs as the history lists them: newest first, at most
    /// `HISTORY_LIMIT` of them.
    pub fn history(self) -> (r: Vec<HistoryEntry>)
        ensures
            entry_views(r@) == listing(self@),
    {
        let ghost all = self@;
        let mut entries = self.entries;
        let mut out: Vec<HistoryEntry> = Vec::new();
        while out.len() < HISTORY_LIMIT && entries.len() > 0
            invariant
                all.len() == entries.len() + out.len(),
                out.len() <= HISTORY_LIMIT,
                entry_views(entries@) == all.take(entries.len() as int),
                forall|i: int|
                    0 <= i < out.len() ==> #[trigger] entry_views(out@)[i] == all[all.len() - 1 - i],
                entry_views(out@).len() == out.len(),
            decreases entries.len(),
        {
            let ghost n = entries.len();
            let ghost before = entry_views(out@);
            let ghost olde = entries@;
            assert(entry_views(olde)[n - 1] == olde[n - 1]@);
            let e = entries.pop().unwrap();
            assert(e@ == all[n - 1]);
            out.push(e);
            assert(entry_views(out@) =~= before.push(e@));
            assert(entry_views(entries@) =~= all.take(entries.len() as int));
        }
        assert(entry_views(out@) =~= listing(all));
        out
    }
}

/// A run just started leads the history, interrupted; the `finish` of
/// its id that follows closes that run, whatever the history held before.
pub proof fn lemma_finish_closes_newest_run(
    entries: Seq<EntryView>,
    id: Seq<char>,
    start: usize,
    finish: usize,
)
    ensures
        ({
            let started = recorded(
                entries,
                start,
                EventView { id: Some(id), event: Some("start"@), action: None },
            );
            let finished = recorded(
                started,
                finish,
                EventView { id: Some(id), event: Some("finish"@), action: None },
            );
            &&& listing(started)[0] == EntryView {
                id,
                start,
                finish: None,
                actions: seq![],
                work_zero: None,
            }
            &&& listing(finished)[0] == EntryView {
                id,
                start,
                finish: Some(finish),
                actions: seq![],
                work_zero: None,
            }
            &&& listing(finished).len() == listing(started).len()
        }),
{
    let started = recorded(
        entries,
        start,
        EventView { id: Some(id), event: Some("start"@), action: None },
    );
    assert(started.last().id == id);
    reveal_strlit("start");
    reveal_strlit("finish");
    assert("start"@ != "finish"@) by {
        assert("start"@[0] != "finish"@[0]);
    }
}

/// A `work_zero` action on a run is kept with that run, as its applied
/// offset, whatever the history held before the run started.
pub proof fn lemma_work_zero_is_kept(
    entries: Seq<EntryView>,
    id: Seq<char>,
    start: usize,
    zero: usize,
)
    ensures
        ({
            let started = recorded(
                entries,
                start,
                EventView { id: Some(id), event: Some("start"@), action: None },
            );
            let zeroed = recorded(
                started,
                zero,
                EventView { id: Some(id), event: Some("action"@), action: Some("work_zero"@) },
            );
            &&& listing(zeroed)[0].work_zero == Some(zero)
            &&& listing(zeroed)[0].actions == seq![zero]
            &&& listing(zeroed)[0].start == start
        }),
{
    let started = recorded(
        entries,
        start,
        EventView { id: Some(id), event: Some("start"@), action: None },
    );
    assert(started.last().id == id);
    reveal_strlit("start");
    reveal_strlit("finish");
    reveal_strlit("action");
    assert("action"@ != "start"@) by {
        assert("action"@[0] != "start"@[0]);
    }
    assert("action"@ != "finish"@) by {
        assert("action"@[0] != "finish"@[0]);
    }
    assert(seq![].push(zero) =~= seq![zero]);
}

/// Whether appending a line of `line` bytes to a trace of `size` bytes
/// first moves the trace aside: when the trace would then exceed
/// `TRACE_BYTES`, the line and its newline included.
pub fn trace_rotates(size: u64, line: u64) -> (r: bool)
    ensures
        r == rotates(size, line),
{
    size >= TRACE_BYTES || line >= TRACE_BYTES - size
}

} // verus!
