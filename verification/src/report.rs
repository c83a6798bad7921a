//! The result of a run: the events of all files in one order, cut at a cap.
//!
//! Matches are keyed by path and start line, the error of a file by its path
//! and line 0. The order of output is the order of the keys, whatever the
//! order in which files were evaluated.

use crate::order::bytes_before;
use crate::order::lemma_order_total;
use crate::order::rank;
use crate::order::Rank;
use crate::processor::ProcessError;
use crate::records::opt_text;
use crate::records::MatchRecord;
use crate::records::MatchRecordModel;
use vstd::prelude::*;
use vstd::utf8::encode_utf8;

verus! {

/// One line of output.
#[derive(Debug)]
pub enum Event {
    /// A structural match.
    Match(MatchRecord),
    /// A file that could not be evaluated.
    Error { code: String, message: String, path_or_url: Option<String> },
}

/// The mathematical value of an `Event`.
pub ghost enum EventModel {
    Match(MatchRecordModel),
    Error { code: Seq<char>, message: Seq<char>, path_or_url: Option<Seq<char>> },
}

impl View for Event {
    type V = EventModel;

    open spec fn view(&self) -> EventModel {
        match self {
            Event::Match(record) => EventModel::Match(record@),
            Event::Error { code, message, path_or_url } => EventModel::Error {
                code: code@,
                message: message@,
                path_or_url: opt_text(*path_or_url),
            },
        }
    }
}

/// The models of a sequence of events, one for one.
pub open spec fn event_models(events: Seq<Event>) -> Seq<EventModel> {
    Seq::new(events.len(), |i: int| events[i]@)
}

/// The models of the events of a sequence of files, one for one.
pub open spec fn file_models(files: Seq<Vec<Event>>) -> Seq<Seq<EventModel>> {
    Seq::new(files.len(), |i: int| event_models(files[i]@))
}

/// The key under which an event is ordered: the bytes of a path, and a line.
pub ghost struct SortKey {
    pub path: Seq<u8>,
    pub line: u32,
}

impl EventModel {
    /// The key of this event: path and start line of a match, path and line 0
    /// of an error.
    pub open spec fn sort_key(self) -> SortKey {
        match self {
            EventModel::Match(record) => SortKey {
                path: encode_utf8(record.path),
                line: record.start_line,
            },
            EventModel::Error { path_or_url, .. } => SortKey {
                path: match path_or_url {
                    Some(path) => encode_utf8(path),
                    None => Seq::empty(),
                },
                line: 0,
            },
        }
    }
}

/// Whether key `a` comes strictly before key `b`: by path, then by line.
pub open spec fn key_before(a: SortKey, b: SortKey) -> bool {
    bytes_before(a.path, b.path) || (a.path == b.path && a.line < b.line)
}

/// Whether the events stand in strictly ascending order of their keys.
pub open spec fn events_ordered(s: Seq<EventModel>) -> bool {
    forall|i: int, j: int|
        0 <= i < j < s.len() ==> key_before(
            (#[trigger] s[i]).sort_key(),
            (#[trigger] s[j]).sort_key(),
        )
}

/// The first index at or after `from` whose event does not come before `key`.
pub open spec fn place(s: Seq<EventModel>, key: SortKey, from: int) -> int
    decreases s.len() - from,
{
    if 0 <= from < s.len() && key_before(s[from].sort_key(), key) {
        place(s, key, from + 1)
    } else {
        from
    }
}

/// `s` with `event` under its key: in the place of the event that had the
/// key, or else where the key belongs.
pub open spec fn put(s: Seq<EventModel>, event: EventModel) -> Seq<EventModel> {
    let at = place(s, event.sort_key(), 0);
    if 0 <= at < s.len() && s[at].sort_key() == event.sort_key() {
        s.update(at, event)
    } else {
        s.insert(at, event)
    }
}

/// `s` with the first `n` of `events` put in, one after the other.
pub open spec fn put_all(s: Seq<EventModel>, events: Seq<EventModel>, n: nat) -> Seq<EventModel>
    decreases n,
{
    if n == 0 || n > events.len() {
        s
    } else {
        put(put_all(s, events, (n - 1) as nat), events[n - 1])
    }
}

/// The events of the first `n` of `files` in one order.
pub open spec fn merged_files(files: Seq<Seq<EventModel>>, n: nat) -> Seq<EventModel>
    decreases n,
{
    if n == 0 || n > files.len() {
        Seq::empty()
    } else {
        put_all(merged_files(files, (n - 1) as nat), files[n - 1], files[n - 1].len())
    }
}

/// What a run emits: the events of all files in the order of their keys,
/// and of these the first `cap`.
pub open spec fn emitted(files: Seq<Seq<EventModel>>, cap: nat) -> Seq<EventModel> {
    let all = merged_files(files, files.len());
    if cap < all.len() {
        all.take(cap as int)
    } else {
        all
    }
}

/// The code of the error event of a file.
pub open spec fn parse_error_code() -> Seq<char> {
    "E_PARSE"@
}

/// What a file failed with, in words.
pub open spec fn error_text(e: ProcessError) -> Seq<char> {
    match e {
        ProcessError::Parse => "Failed to parse file"@,
        ProcessError::Syntax => "File does not parse under the grammar of its language"@,
        ProcessError::Pattern { message } => message@,
        ProcessError::Unreadable { message } => message@,
    }
}

/// The events of one file: a match for every record, or one error.
pub open spec fn events_of(path: Seq<char>, result: Result<Vec<MatchRecord>, ProcessError>) -> Seq<
    EventModel,
> {
    match result {
        Ok(records) => Seq::new(records@.len(), |i: int| EventModel::Match(records@[i]@)),
        Err(e) => seq![
            EventModel::Error {
                code: parse_error_code(),
                message: error_text(e),
                path_or_url: Some(path),
            },
        ],
    }
}

impl ProcessError {
    /// What the file failed with, in words.
    pub fn message(&self) -> (r: String)
        ensures
            r@ == error_text(*self),
    {
        match self {
            ProcessError::Parse => "Failed to parse file".to_owned(),
            ProcessError::Syntax => {
                "File does not parse under the grammar of its language".to_owned()
            },
            ProcessError::Pattern { message } => message.clone(),
            ProcessError::Unreadable { message } => message.clone(),
        }
    }
}

/// Turns what a file gave into events: one match per record, or one error
/// event with the code `E_PARSE` and no match.
pub fn file_events(path: &str, result: Result<Vec<MatchRecord>, ProcessError>) -> (r: Vec<Event>)
    ensures
        event_models(r@) == events_of(path@, result),
{
    let mut out: Vec<Event> = Vec::new();
    match result {
        Ok(records) => {
            let ghost all = records@;
            for record in it: records
                invariant
                    it.seq() == all,
                    event_models(out@) == Seq::new(
                        it.index() as nat,
                        |i: int| EventModel::Match(all[i]@),
                    ),
            {
                let ghost before = event_models(out@);
                out.push(Event::Match(record));
                assert(event_models(out@) =~= before.push(EventModel::Match(record@)));
                assert(event_models(out@) =~= Seq::new(
                    (it.index() + 1) as nat,
                    |i: int| EventModel::Match(all[i]@),
                ));
            }
            assert(event_models(out@) =~= events_of(path@, result));
        },
        Err(e) => {
            out.push(
                Event::Error {
                    code: "E_PARSE".to_owned(),
                    message: e.message(),
                    path_or_url: Some(path.to_owned()),
                },
            );
            assert(event_models(out@) =~= events_of(path@, result));
        },
    }
    out
}

/// How the key of `event` stands to the key of `other`.
fn rank_events(event: &Event, other: &Event) -> (r: Rank)
    ensures
        r is Before <==> key_before(event@.sort_key(), other@.sort_key()),
        r is Same <==> event@.sort_key() == other@.sort_key(),
        r is After <==> key_before(other@.sort_key(), event@.sort_key()),
{
    let none: Vec<u8> = Vec::new();
    assert(none@ =~= Seq::<u8>::empty());
    let (a_path, a_line): (&[u8], u32) = match event {
        Event::Match(record) => (record.path.as_str().as_bytes(), record.start_line),
        Event::Error { path_or_url, .. } => match path_or_url {
            Some(path) => (path.as_str().as_bytes(), 0),
            None => (none.as_slice(), 0),
        },
    };
    let (b_path, b_line): (&[u8], u32) = match other {
        Event::Match(record) => (record.path.as_str().as_bytes(), record.start_line),
        Event::Error { path_or_url, .. } => match path_or_url {
            Some(path) => (path.as_str().as_bytes(), 0),
            None => (none.as_slice(), 0),
        },
    };
    proof {
        lemma_order_total(a_path@, b_path@);
    }
    match rank(a_path, b_path) {
        Rank::Before => Rank::Before,
        Rank::After => Rank::After,
        Rank::Same => {
            if a_line < b_line {
                Rank::Before
            } else if a_line == b_line {
                Rank::Same
            } else {
                Rank::After
            }
        },
    }
}

/// Puts `event` under its key: in the place of the event that had the key,
/// or else where the key belongs.
pub fn insert_event(entries: &mut Vec<Event>, event: Event)
    ensures
        event_models(final(entries)@) == put(event_models(old(entries)@), event@),
{
    let ghost before = event_models(entries@);
    let mut at: usize = 0;
    let mut same = false;
    while at < entries.len()
        invariant_except_break
            !same,
            place(before, event@.sort_key(), 0) == place(before, event@.sort_key(), at as int),
        invariant
            at <= entries.len(),
            *entries == *old(entries),
            before == event_models(entries@),
        ensures
            at == place(before, event@.sort_key(), 0),
            same == (at < entries.len() && before[at as int].sort_key() == event@.sort_key()),
        decreases entries.len() - at,
    {
        assert(before[at as int] == entries@[at as int]@);
        match rank_events(&entries[at], &event) {
            Rank::Before => {
                at += 1;
            },
            Rank::Same => {
                same = true;
                break ;
            },
            Rank::After => {
                break ;
            },
        }
    }
    if same {
        entries.remove(at);
        entries.insert(at, event);
        assert(event_models(entries@) =~= before.update(at as int, event@));
    } else {
        entries.insert(at, event);
        assert(event_models(entries@) =~= before.insert(at as int, event@));
    }
}

/// Merges the events of all files into the order of their keys and keeps the
/// first `max_results` of them.
pub fn merge_results(files: Vec<Vec<Event>>, max_results: usize) -> (r: Vec<Event>)
    ensures
        event_models(r@) == emitted(file_models(files@), max_results as nat),
        r@.len() <= max_results,
{
    let ghost all = file_models(files@);
    let mut merged: Vec<Event> = Vec::new();
    assert(event_models(merged@) =~= Seq::<EventModel>::empty());
    for events in it: files
        invariant
            it.seq() == files@,
            all == file_models(files@),
            event_models(merged@) == merged_files(all, it.index() as nat),
    {
        let ghost incoming = event_models(events@);
        let ghost base = event_models(merged@);
        assert(all[it.index() as int] == incoming);
        for event in step: events
            invariant
                incoming == event_models(step.seq()),
                event_models(merged@) == put_all(base, incoming, step.index() as nat),
        {
            assert(incoming[step.index() as int] == event@);
            insert_event(&mut merged, event);
        }
    }
    let ghost full = event_models(merged@);
    if merged.len() > max_results {
        merged.truncate(max_results);
        assert(event_models(merged@) =~= full.take(max_results as int));
    }
    merged
}

} // verus!
