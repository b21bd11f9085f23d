//! Device status, device listing and the device-tracking state machine.
//!
//! A listing or tracking payload is newline-separated text whose lines
//! hold whitespace-separated tokens: a device serial, its status, and
//! possibly more. The one-shot listing counts exactly the two-token
//! lines; the tracking stream reads the first two tokens of every line
//! that has at least two. In both, malformed lines are silently skipped,
//! never fatal, so that additions to the daemon's output do not break the
//! client.

use vstd::prelude::*;
use vstd::string::StrSliceExecFns;
use vstd::string::StringExecFns;

use crate::lines::lines_tokens;
use crate::lines::tokenize_lines;
use crate::text::str_eq;

verus! {

/// The status a device reports in a listing or tracking line.
///
/// Parsing is total: an unrecognized token yields `Unknown`, never an
/// error, which tolerates protocol additions.
#[derive(Debug, Clone, Copy, PartialEq, Eq, Structural)]
pub enum DeviceStatus {
    Online,
    Offline,
    Unauthorized,
    Absent,
    Unknown,
}

/// The status named by a lowercase token; anything unrecognized is
/// `Unknown`.
pub open spec fn status_of(s: Seq<char>) -> DeviceStatus {
    if s == "online"@ {
        DeviceStatus::Online
    } else if s == "offline"@ {
        DeviceStatus::Offline
    } else if s == "unauthorized"@ {
        DeviceStatus::Unauthorized
    } else if s == "absent"@ {
        DeviceStatus::Absent
    } else {
        DeviceStatus::Unknown
    }
}

impl DeviceStatus {
    /// Parses a status token. Total: every input yields some status.
    pub fn parse(s: &str) -> (r: DeviceStatus)
        ensures
            r == status_of(s@),
    {
        if str_eq(s, "online") {
            DeviceStatus::Online
        } else if str_eq(s, "offline") {
            DeviceStatus::Offline
        } else if str_eq(s, "unauthorized") {
            DeviceStatus::Unauthorized
        } else if str_eq(s, "absent") {
            DeviceStatus::Absent
        } else {
            DeviceStatus::Unknown
        }
    }
}

/// A presence/serial/status triple emitted by listing or tracking.
///
/// `present` is reserved and never populated by this crate's parsers.
#[derive(Debug)]
pub struct DeviceEvent {
    pub present: Option<bool>,
    pub serial: String,
    pub status: DeviceStatus,
}

/// The spec-level shape of one parsed device line.
pub struct DeviceRecord {
    pub serial: Seq<char>,
    pub status: DeviceStatus,
}

/// The record of one tokenized line: a line with exactly two tokens names
/// a device, any other line is skipped.
pub open spec fn line_device(line: Seq<Seq<char>>) -> Seq<DeviceRecord> {
    if line.len() == 2 {
        seq![DeviceRecord { serial: line[0], status: status_of(line[1]) }]
    } else {
        seq![]
    }
}

/// The device records of a sequence of tokenized lines, in line order.
pub open spec fn devices_of_lines(ls: Seq<Seq<Seq<char>>>) -> Seq<DeviceRecord>
    decreases ls.len(),
{
    if ls.len() == 0 {
        seq![]
    } else {
        devices_of_lines(ls.drop_last()) + line_device(ls.last())
    }
}

/// The device records of a raw listing or tracking payload.
pub open spec fn device_records(s: Seq<char>) -> Seq<DeviceRecord> {
    devices_of_lines(lines_tokens(s))
}

/// Whether a vector of emitted events matches a sequence of spec records,
/// one event per record, in order, with `present` left unpopulated.
pub open spec fn events_match(evs: Seq<DeviceEvent>, recs: Seq<DeviceRecord>) -> bool {
    evs.len() == recs.len() && forall|j: int|
        0 <= j < evs.len() ==> (#[trigger] evs[j]).serial@ == recs[j].serial && evs[j].status
            == recs[j].status && evs[j].present is None
}

/// Parses a device listing or tracking payload: one event per line with
/// exactly two whitespace-separated tokens, in line order; every other
/// line is dropped without failing the call.
pub fn parse_device_lines(payload: &str) -> (r: Vec<DeviceEvent>)
    ensures
        events_match(r@, device_records(payload@)),
{
    let lines = tokenize_lines(payload);
    let ghost ls = lines.deep_view();
    let mut out: Vec<DeviceEvent> = Vec::new();
    let mut i: usize = 0;
    proof {
        assert(ls.take(0) =~= Seq::<Seq<Seq<char>>>::empty());
    }
    while i < lines.len()
        invariant
            ls == lines.deep_view(),
            ls.len() == lines@.len(),
            i <= lines@.len(),
            events_match(out@, devices_of_lines(ls.take(i as int))),
        decreases lines@.len() - i,
    {
        proof {
            assert(ls.take(i + 1).drop_last() =~= ls.take(i as int));
            assert(ls.take(i + 1).last() == ls[i as int]);
            assert(ls[i as int] =~= lines@[i as int].deep_view());
        }
        let line = &lines[i];
        if line.len() == 2 {
            let serial = line[0].clone();
            let status = DeviceStatus::parse(line[1].as_str());
            out.push(DeviceEvent { present: None, serial, status });
            proof {
                assert(lines@[i as int].deep_view()[0] == lines@[i as int]@[0]@);
                assert(lines@[i as int].deep_view()[1] == lines@[i as int]@[1]@);
            }
        }
        i = i + 1;
    }
    proof {
        assert(ls.take(ls.len() as int) =~= ls);
    }
    out
}

/// The record of one tokenized line under the tracking stream's rule: a
/// line with at least two tokens names a device by its first two tokens,
/// whatever else follows them; a shorter line is skipped.
pub open spec fn line_track(line: Seq<Seq<char>>) -> Seq<DeviceRecord> {
    if line.len() >= 2 {
        seq![DeviceRecord { serial: line[0], status: status_of(line[1]) }]
    } else {
        seq![]
    }
}

/// The tracking records of a sequence of tokenized lines, in line order.
pub open spec fn track_of_lines(ls: Seq<Seq<Seq<char>>>) -> Seq<DeviceRecord>
    decreases ls.len(),
{
    if ls.len() == 0 {
        seq![]
    } else {
        track_of_lines(ls.drop_last()) + line_track(ls.last())
    }
}

/// The tracking records of a raw tracking payload.
pub open spec fn track_records(s: Seq<char>) -> Seq<DeviceRecord> {
    track_of_lines(lines_tokens(s))
}

/// Parses one tracking payload: one event per line with at least two
/// whitespace-separated tokens, in line order, the serial from the first
/// token and the status from the second; tokens beyond the second are
/// ignored, and a line with fewer is dropped without failing the call.
pub fn parse_track_lines(payload: &str) -> (r: Vec<DeviceEvent>)
    ensures
        events_match(r@, track_records(payload@)),
{
    let lines = tokenize_lines(payload);
    let ghost ls = lines.deep_view();
    let mut out: Vec<DeviceEvent> = Vec::new();
    let mut i: usize = 0;
    proof {
        assert(ls.take(0) =~= Seq::<Seq<Seq<char>>>::empty());
    }
    while i < lines.len()
        invariant
            ls == lines.deep_view(),
            ls.len() == lines@.len(),
            i <= lines@.len(),
            events_match(out@, track_of_lines(ls.take(i as int))),
        decreases lines@.len() - i,
    {
        proof {
            assert(ls.take(i + 1).drop_last() =~= ls.take(i as int));
            assert(ls.take(i + 1).last() == ls[i as int]);
            assert(ls[i as int] =~= lines@[i as int].deep_view());
        }
        let line = &lines[i];
        if line.len() >= 2 {
            let serial = line[0].clone();
            let status = DeviceStatus::parse(line[1].as_str());
            out.push(DeviceEvent { present: None, serial, status });
            proof {
                assert(lines@[i as int].deep_view()[0] == lines@[i as int]@[0]@);
                assert(lines@[i as int].deep_view()[1] == lines@[i as int]@[1]@);
            }
        }
        i = i + 1;
    }
    proof {
        assert(ls.take(ls.len() as int) =~= ls);
    }
    out
}

/// The number of lines with exactly two whitespace-separated tokens.
pub open spec fn two_token_line_count(ls: Seq<Seq<Seq<char>>>) -> int
    decreases ls.len(),
{
    if ls.len() == 0 {
        0
    } else {
        two_token_line_count(ls.drop_last()) + if ls.last().len() == 2 {
            1int
        } else {
            0int
        }
    }
}

/// For every payload, the number of device records equals the number of
/// lines with exactly two whitespace-separated tokens: lines with any
/// other shape are dropped, not erroring the whole call.
pub proof fn lemma_device_record_count(s: Seq<char>)
    ensures
        device_records(s).len() == two_token_line_count(lines_tokens(s)),
{
    lemma_devices_of_lines_count(lines_tokens(s));
}

proof fn lemma_devices_of_lines_count(ls: Seq<Seq<Seq<char>>>)
    ensures
        devices_of_lines(ls).len() == two_token_line_count(ls),
    decreases ls.len(),
{
    if ls.len() > 0 {
        lemma_devices_of_lines_count(ls.drop_last());
    }
}

/// Whether a device is usable for per-device operations.
pub open spec fn is_online(e: DeviceEvent) -> bool {
    e.status == DeviceStatus::Online
}

/// The events whose device is online, in order.
pub open spec fn online_of(evs: Seq<DeviceEvent>) -> Seq<DeviceEvent> {
    evs.filter(|e: DeviceEvent| is_online(e))
}

/// One step of `online_of`: appending an event keeps it exactly when its
/// device is online.
pub proof fn lemma_online_push(evs: Seq<DeviceEvent>, e: DeviceEvent)
    ensures
        online_of(evs.push(e)) == if is_online(e) {
            online_of(evs).push(e)
        } else {
            online_of(evs)
        },
{
    broadcast use vstd::seq::Seq::filter_distributes_over_add;

    reveal_with_fuel(Seq::filter, 2);
    assert(evs.push(e) =~= evs + seq![e]);
    assert(seq![e].drop_last() =~= Seq::<DeviceEvent>::empty());
    assert(seq![e].last() == e);
    assert(online_of(seq![e]) == if is_online(e) {
        seq![e]
    } else {
        Seq::<DeviceEvent>::empty()
    });
    if is_online(e) {
        assert(online_of(evs) + seq![e] =~= online_of(evs).push(e));
    } else {
        assert(online_of(evs) + Seq::<DeviceEvent>::empty() =~= online_of(evs));
    }
}

/// Keeps only the devices whose status is `Online`, in order: the
/// available devices of a listing.
pub fn filter_online(events: &Vec<DeviceEvent>) -> (r: Vec<DeviceEvent>)
    ensures
        r@ == online_of(events@),
{
    let mut out: Vec<DeviceEvent> = Vec::new();
    let mut i: usize = 0;
    proof {
        assert(events@.take(0) =~= Seq::<DeviceEvent>::empty());
    }
    while i < events.len()
        invariant
            i <= events@.len(),
            out@ == online_of(events@.take(i as int)),
        decreases events@.len() - i,
    {
        proof {
            assert(events@.take(i + 1).drop_last() =~= events@.take(i as int));
            assert(events@.take(i + 1).last() == events@[i as int]);
        }
        let e = &events[i];
        if e.status == DeviceStatus::Online {
            let copy = DeviceEvent { present: e.present, serial: e.serial.clone(), status: e.status };
            proof {
                assert(copy == events@[i as int]);
            }
            out.push(copy);
        }
        proof {
            assert(events@.take(i + 1) =~= events@.take(i as int).push(events@[i as int]));
            lemma_online_push(events@.take(i as int), events@[i as int]);
        }
        i = i + 1;
    }
    proof {
        assert(events@.take(events@.len() as int) =~= events@);
    }
    out
}

/// The last event whose serial equals the one sought, or nothing.
pub open spec fn find_last(evs: Seq<DeviceEvent>, serial: Seq<char>) -> Option<DeviceEvent>
    decreases evs.len(),
{
    if evs.len() == 0 {
        None
    } else if evs.last().serial@ == serial {
        Some(evs.last())
    } else {
        find_last(evs.drop_last(), serial)
    }
}

/// Finds a device by serial with a linear scan, returning the last match,
/// and none-found rather than an error when absent.
pub fn find_by_serial(events: &Vec<DeviceEvent>, serial: &str) -> (r: Option<DeviceEvent>)
    ensures
        r == find_last(events@, serial@),
{
    let mut i = events.len();
    proof {
        assert(events@.take(events@.len() as int) =~= events@);
    }
    while i > 0
        invariant
            i <= events@.len(),
            find_last(events@, serial@) == find_last(events@.take(i as int), serial@),
        decreases i,
    {
        i = i - 1;
        proof {
            assert(events@.take(i + 1).drop_last() =~= events@.take(i as int));
            assert(events@.take(i + 1).last() == events@[i as int]);
        }
        let e = &events[i];
        if str_eq(e.serial.as_str(), serial) {
            let copy = DeviceEvent { present: e.present, serial: e.serial.clone(), status: e.status };
            proof {
                assert(copy == events@[i as int]);
            }
            return Some(copy);
        }
    }
    proof {
        assert(events@.take(0) =~= Seq::<DeviceEvent>::empty());
    }
    None
}

/// The states of the tracking connection.
#[derive(Debug, Clone, Copy, PartialEq, Eq, Structural)]
pub enum TrackState {
    Idle,
    Tracking,
    Closed,
}

/// The device-tracking state machine.
///
/// The caller sends the command `begin` hands out and, once the daemon
/// answered `OKAY`, feeds each length-framed payload to `on_payload`,
/// emitting its events in line order. Tracking ends only when the
/// underlying connection is torn down from outside, which the caller
/// reports through `on_disconnect`.
pub struct DeviceTracker {
    pub state: TrackState,
}

impl DeviceTracker {
    /// A tracker that has not issued its request yet.
    pub fn new() -> (r: DeviceTracker)
        ensures
            r.state == TrackState::Idle,
    {
        DeviceTracker { state: TrackState::Idle }
    }

    /// Enters tracking and hands back the request to send.
    pub fn begin(&mut self) -> (r: String)
        requires
            old(self).state == TrackState::Idle,
        ensures
            final(self).state == TrackState::Tracking,
            r@ == "host:track-devices"@,
    {
        self.state = TrackState::Tracking;
        String::from_str("host:track-devices")
    }

    /// Decodes one framed tracking payload into its events, in line
    /// order: one event per line with at least two tokens, built from
    /// the first two, with `present` never populated.
    pub fn on_payload(&self, payload: &str) -> (r: Vec<DeviceEvent>)
        requires
            self.state == TrackState::Tracking,
        ensures
            events_match(r@, track_records(payload@)),
    {
        parse_track_lines(payload)
    }

    /// Records that the underlying socket was closed: the sole path out of
    /// tracking.
    pub fn on_disconnect(&mut self)
        ensures
            final(self).state == TrackState::Closed,
    {
        self.state = TrackState::Closed;
    }
}

} // verus!
