//! The analyst's rolling window of consensus-confirmed telemetry, and what
//! it reports from it: the most recent fix of each drone.

use std::collections::VecDeque;
use vstd::prelude::*;
use vstd::string::*;
use crate::records::{DroneFix, LogRecord};

verus! {

/// A confirmed record with the consensus timestamp it was confirmed at.
pub type ConfirmedEvent = (u64, LogRecord);

/// What a window holds after one more event: the event is appended, and
/// where the window already held `capacity` events or more (and at least
/// one), the oldest one leaves.
pub open spec fn after_push(capacity: nat, events: Seq<ConfirmedEvent>, e: ConfirmedEvent) -> Seq<
    ConfirmedEvent,
> {
    if events.len() >= capacity && events.len() > 0 {
        events.drop_first().push(e)
    } else {
        events.push(e)
    }
}

/// How many events a window of the given capacity keeps: the capacity,
/// and at least one.
pub open spec fn window_size(capacity: nat) -> nat {
    if capacity == 0 {
        1
    } else {
        capacity
    }
}

/// The most recent `window_size(capacity)` events of a history, oldest first.
pub open spec fn window(capacity: nat, history: Seq<ConfirmedEvent>) -> Seq<ConfirmedEvent> {
    if history.len() <= window_size(capacity) {
        history
    } else {
        history.skip(history.len() - window_size(capacity))
    }
}

/// Event `i` is the one kept for its drone among the first `n` events: no
/// event of the same drone has a later timestamp, and none before it has
/// the same timestamp.
pub open spec fn latest_among(events: Seq<ConfirmedEvent>, n: int, i: int) -> bool {
    forall|k: int|
        #![trigger events[k]]
        0 <= k < n && events[k].1.public_key_hex@ == events[i].1.public_key_hex@ ==> {
            &&& events[k].0 <= events[i].0
            &&& (k < i ==> events[k].0 < events[i].0)
        }
}

/// `fix` is the fix of some event of `events` that is the latest one of its
/// drone.
pub open spec fn is_latest_fix(events: Seq<ConfirmedEvent>, fix: DroneFix) -> bool {
    exists|i: int|
        #![trigger events[i]]
        0 <= i < events.len() && fix == DroneFix::of(events[i].0, events[i].1) && latest_among(
            events,
            events.len() as int,
            i,
        )
}

/// Some fix of `fixes` is for the drone with the given key.
pub open spec fn lists_drone(fixes: Seq<DroneFix>, key: Seq<char>) -> bool {
    exists|j: int| #![trigger fixes[j]] 0 <= j < fixes.len() && fixes[j].public_key_hex@ == key
}

/// `fixes` holds one fix per drone that occurs in `events`, and that fix is
/// the drone's latest one (the first of them, where several share the
/// latest timestamp).
pub open spec fn latest_fixes(events: Seq<ConfirmedEvent>, fixes: Seq<DroneFix>) -> bool {
    &&& forall|j: int| 0 <= j < fixes.len() ==> is_latest_fix(events, #[trigger] fixes[j])
    &&& forall|i: int|
        0 <= i < events.len() ==> lists_drone(fixes, #[trigger] events[i].1.public_key_hex@)
    &&& forall|j1: int, j2: int|
        0 <= j1 < fixes.len() && 0 <= j2 < fixes.len() && j1 != j2 ==> #[trigger] fixes[j1].public_key_hex@
            != #[trigger] fixes[j2].public_key_hex@
}

/// Rolling window of recent consensus-confirmed telemetry, in confirmation
/// order.
pub struct AnalystBuffer {
    events: VecDeque<ConfirmedEvent>,
    capacity: usize,
}

impl View for AnalystBuffer {
    type V = Seq<ConfirmedEvent>;

    closed spec fn view(&self) -> Seq<ConfirmedEvent> {
        self.events@
    }
}

impl AnalystBuffer {
    /// The capacity the window was made with.
    pub closed spec fn capacity(&self) -> nat {
        self.capacity as nat
    }

    /// An empty window of the given capacity.
    pub fn new(capacity: usize) -> (buf: Self)
        ensures
            buf@ == Seq::<ConfirmedEvent>::empty(),
            buf.capacity() == capacity,
    {
        AnalystBuffer { events: VecDeque::with_capacity(capacity), capacity }
    }

    /// Appends a confirmed record, dropping the oldest one where the window
    /// is full.
    pub fn push(&mut self, ts: u64, rec: LogRecord)
        ensures
            final(self)@ == after_push(old(self).capacity(), old(self)@, (ts, rec)),
            final(self).capacity() == old(self).capacity(),
    {
        if self.events.len() >= self.capacity {
            let _ = self.events.pop_front();
        }
        self.events.push_back((ts, rec));
    }

    /// The most recent fix of each drone in the window, one per drone, in
    /// no particular order.
    pub fn snapshot_latest_per_drone(&self) -> (fixes: Vec<DroneFix>)
        ensures
            latest_fixes(self@, fixes@),
    {
        let ghost events = self@;
        let len = self.events.len();
        let mut out: Vec<DroneFix> = Vec::new();
        // `src[j]`: the event that `out[j]` was taken from.
        let ghost mut src: Seq<int> = Seq::empty();
        // `slot[i]`: the entry of `out` that holds the drone of event `i`.
        let ghost mut slot: Seq<int> = Seq::empty();
        let mut n: usize = 0;
        while n < len
            invariant
                events == self@,
                len == events.len(),
                n <= len,
                out@.len() == src.len(),
                slot.len() == n,
                forall|j: int|
                    #![trigger src[j]]
                    0 <= j < src.len() ==> {
                        &&& 0 <= src[j] < n
                        &&& out@[j] == DroneFix::of(events[src[j]].0, events[src[j]].1)
                        &&& latest_among(events, n as int, src[j])
                    },
                forall|i: int|
                    #![trigger slot[i]]
                    0 <= i < n ==> 0 <= slot[i] < out@.len() && out@[slot[i]].public_key_hex@
                        == events[i].1.public_key_hex@,
                forall|j1: int, j2: int|
                    0 <= j1 < out@.len() && 0 <= j2 < out@.len() && j1 != j2
                        ==> out@[j1].public_key_hex@ != out@[j2].public_key_hex@,
            decreases len - n,
        {
            let e = &self.events[n];
            let ts = e.0;
            let rec = &e.1;
            let mut j: usize = 0;
            let mut found = false;
            while j < out.len()
                invariant_except_break
                    !found,
                    forall|k: int|
                        0 <= k < j ==> out@[k].public_key_hex@ != rec.public_key_hex@,
                invariant
                    j <= out@.len(),
                ensures
                    found ==> j < out@.len() && out@[j as int].public_key_hex@
                        == rec.public_key_hex@,
                    !found ==> forall|k: int|
                        0 <= k < out@.len() ==> out@[k].public_key_hex@ != rec.public_key_hex@,
                decreases out@.len() - j,
            {
                if out[j].public_key_hex == rec.public_key_hex {
                    found = true;
                    break;
                }
                j = j + 1;
            }
            let ghost old_out = out@;
            let ghost old_src = src;
            if found {
                if ts > out[j].ts {
                    let fix = DroneFix {
                        public_key_hex: rec.public_key_hex.clone(),
                        ts,
                        latitude_bits: rec.latitude_bits,
                        longitude_bits: rec.longitude_bits,
                    };
                    out.set(j, fix);
                    proof {
                        src = src.update(j as int, n as int);
                    }
                }
                proof {
                    slot = slot.push(j as int);
                }
            } else {
                let fix = DroneFix {
                    public_key_hex: rec.public_key_hex.clone(),
                    ts,
                    latitude_bits: rec.latitude_bits,
                    longitude_bits: rec.longitude_bits,
                };
                proof {
                    slot = slot.push(out@.len() as int);
                }
                out.push(fix);
                proof {
                    src = src.push(n as int);
                }
            }
            proof {
                assert forall|jj: int|
                    #![trigger src[jj]]
                    0 <= jj < src.len() implies latest_among(events, n + 1, src[jj]) by {
                    if found && jj == j && src[jj] == n {
                        let i0 = old_src[jj];
                        assert(latest_among(events, n as int, i0));
                        assert forall|k: int|
                            #![trigger events[k]]
                            0 <= k < n + 1 && events[k].1.public_key_hex@
                                == events[n as int].1.public_key_hex@ implies {
                            &&& events[k].0 <= events[n as int].0
                            &&& (k < n ==> events[k].0 < events[n as int].0)
                        } by {
                            if k < n {
                                assert(events[k].0 <= events[i0].0);
                            }
                        }
                    } else if !found && jj == src.len() - 1 {
                        assert forall|k: int|
                            #![trigger events[k]]
                            0 <= k < n + 1 && events[k].1.public_key_hex@
                                == events[n as int].1.public_key_hex@ implies {
                            &&& events[k].0 <= events[n as int].0
                            &&& (k < n ==> events[k].0 < events[n as int].0)
                        } by {
                            if k < n {
                                assert(slot[k] < old_out.len());
                                assert(old_out[slot[k]].public_key_hex@
                                    == events[k].1.public_key_hex@);
                            }
                        }
                    } else {
                        let i0 = src[jj];
                        assert(latest_among(events, n as int, i0));
                        assert(out@[jj] == old_out[jj]);
                        if events[n as int].1.public_key_hex@ == events[i0].1.public_key_hex@ {
                            assert(found && jj == j);
                        }
                    }
                }
            }
            n = n + 1;
        }
        proof {
            assert forall|jj: int| 0 <= jj < out@.len() implies is_latest_fix(
                events,
                #[trigger] out@[jj],
            ) by {
                let i = src[jj];
                assert(out@[jj] == DroneFix::of(events[i].0, events[i].1));
                assert(latest_among(events, events.len() as int, i));
            }
            assert forall|i: int| 0 <= i < events.len() implies lists_drone(
                out@,
                #[trigger] events[i].1.public_key_hex@,
            ) by {
                let j = slot[i];
                assert(out@[j].public_key_hex@ == events[i].1.public_key_hex@);
            }
        }
        out
    }
}

/// Each fix the analyst reports carries exactly the key, consensus
/// timestamp, latitude and longitude of one event of the window, an event
/// that no event of the same drone beats (a later timestamp, or the same
/// timestamp earlier).
pub proof fn lemma_reported_fix_is_latest_event(events: Seq<ConfirmedEvent>, fixes: Seq<DroneFix>, j: int)
    requires
        latest_fixes(events, fixes),
        0 <= j < fixes.len(),
    ensures
        exists|i: int|
            #![trigger events[i]]
            0 <= i < events.len() && {
                &&& fixes[j].public_key_hex == events[i].1.public_key_hex
                &&& fixes[j].ts == events[i].0
                &&& fixes[j].latitude_bits == events[i].1.latitude_bits
                &&& fixes[j].longitude_bits == events[i].1.longitude_bits
                &&& forall|k: int|
                    #![trigger events[k]]
                    0 <= k < events.len() && events[k].1.public_key_hex@
                        == events[i].1.public_key_hex@ ==> events[k].0 <= events[i].0 && (k < i
                        ==> events[k].0 < events[i].0)
            },
{
    assert(is_latest_fix(events, fixes[j]));
    let i = choose|i: int|
        #![trigger events[i]]
        0 <= i < events.len() && fixes[j] == DroneFix::of(events[i].0, events[i].1)
            && latest_among(events, events.len() as int, i);
    assert(fixes[j] == DroneFix::of(events[i].0, events[i].1));
    assert(latest_among(events, events.len() as int, i));
}

/// Every drone of the window is reported: some fix carries the key of
/// event `i`.
pub proof fn lemma_every_drone_reported(events: Seq<ConfirmedEvent>, fixes: Seq<DroneFix>, i: int)
    requires
        latest_fixes(events, fixes),
        0 <= i < events.len(),
    ensures
        exists|j: int|
            #![trigger fixes[j]]
            0 <= j < fixes.len() && fixes[j].public_key_hex@ == events[i].1.public_key_hex@,
{
    assert(lists_drone(fixes, events[i].1.public_key_hex@));
}

/// No drone is reported twice.
pub proof fn lemma_no_drone_reported_twice(fixes: Seq<DroneFix>, events: Seq<ConfirmedEvent>, j1: int, j2: int)
    requires
        latest_fixes(events, fixes),
        0 <= j1 < fixes.len(),
        0 <= j2 < fixes.len(),
        j1 != j2,
    ensures
        fixes[j1].public_key_hex@ != fixes[j2].public_key_hex@,
{
}

/// Two fixes reported for the same window carry the same data where they
/// are for the same drone: the report is determined by the window.
pub proof fn lemma_report_determined_by_window(
    events: Seq<ConfirmedEvent>,
    fixes1: Seq<DroneFix>,
    fixes2: Seq<DroneFix>,
    j1: int,
    j2: int,
)
    requires
        latest_fixes(events, fixes1),
        latest_fixes(events, fixes2),
        0 <= j1 < fixes1.len(),
        0 <= j2 < fixes2.len(),
        fixes1[j1].public_key_hex@ == fixes2[j2].public_key_hex@,
    ensures
        fixes1[j1] == fixes2[j2],
{
    assert(is_latest_fix(events, fixes1[j1]));
    assert(is_latest_fix(events, fixes2[j2]));
    let a = choose|i: int|
        #![trigger events[i]]
        0 <= i < events.len() && fixes1[j1] == DroneFix::of(events[i].0, events[i].1)
            && latest_among(events, events.len() as int, i);
    let b = choose|i: int|
        #![trigger events[i]]
        0 <= i < events.len() && fixes2[j2] == DroneFix::of(events[i].0, events[i].1)
            && latest_among(events, events.len() as int, i);
    assert(fixes1[j1] == DroneFix::of(events[a].0, events[a].1));
    assert(fixes2[j2] == DroneFix::of(events[b].0, events[b].1));
    assert(latest_among(events, events.len() as int, a));
    assert(latest_among(events, events.len() as int, b));
    if a < b {
        assert(events[a].0 < events[b].0);
        assert(events[b].0 <= events[a].0);
    } else if b < a {
        assert(events[b].0 < events[a].0);
        assert(events[a].0 <= events[b].0);
    }
}

/// Every window that has only been filled by `push` holds the most recent
/// events pushed into it: if it held the window of a history before a push,
/// it holds the window of that history extended by the new event after it.
pub proof fn lemma_push_keeps_latest_window(
    capacity: nat,
    history: Seq<ConfirmedEvent>,
    e: ConfirmedEvent,
)
    ensures
        after_push(capacity, window(capacity, history), e) == window(capacity, history.push(e)),
{
    let w = window_size(capacity);
    let h2 = history.push(e);
    if history.len() >= w {
        let before = window(capacity, history);
        assert(before.len() == w);
        assert(before.drop_first().push(e) =~= h2.skip(h2.len() - w));
    } else {
        assert(window(capacity, history) == history);
        assert(window(capacity, h2) =~= h2);
    }
}

/// One push appends the event, after dropping the oldest one exactly when
/// the window held `capacity` events or more (and at least one); nothing
/// else changes.
pub proof fn lemma_push_appends_event(capacity: nat, events: Seq<ConfirmedEvent>, e: ConfirmedEvent)
    ensures
        ({
            let after = after_push(capacity, events, e);
            let dropped: int = if events.len() >= capacity && events.len() > 0 {
                1
            } else {
                0
            };
            &&& after.len() == events.len() - dropped + 1
            &&& after[after.len() - 1] == e
            &&& forall|i: int| 0 <= i < after.len() - 1 ==> #[trigger] after[i] == events[i + dropped]
        }),
{
}

/// A window never holds more than `window_size(capacity)` events, and what
/// it holds is the tail of the history.
pub proof fn lemma_window_bounded(capacity: nat, history: Seq<ConfirmedEvent>)
    ensures
        window(capacity, history).len() <= window_size(capacity),
        window(capacity, history) == history.skip(history.len() - window(capacity, history).len()),
{
    if history.len() <= window_size(capacity) {
        assert(history.skip(0) =~= history);
    }
}

/// A fresh window holds the (empty) window of the empty history.
pub proof fn lemma_new_window_is_empty(capacity: nat)
    ensures
        window(capacity, Seq::<ConfirmedEvent>::empty()) == Seq::<ConfirmedEvent>::empty(),
{
}

/// The prompt handed to the analyst model for a serialized swarm state.
pub fn analyst_prompt(payload_json: &str) -> (prompt: String)
    ensures
        prompt@ == "Swarm state (latest fix per drone):\n"@ + payload_json@,
{
    let mut prompt = String::from_str("Swarm state (latest fix per drone):\n");
    prompt.append(payload_json);
    prompt
}

} // verus!
