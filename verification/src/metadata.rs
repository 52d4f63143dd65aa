use vstd::prelude::*;

use crate::message::Message;
use crate::message::all_wf;
use crate::rfc3339::spec_format_ts;
use crate::rfc3339::spec_parse_ts;
use crate::rfc3339::format_ts;
use crate::rfc3339::parse_ts;
use crate::rfc3339::lemma_parse_format_ts;
use crate::timestamp::Timestamp;
use crate::timestamp::ts_le;
use crate::timestamp::ts_valid;
use crate::timestamp::lemma_instant_injective;

verus! {

/// The timestamp up to which the user has read a conversation. Totally
/// ordered; persisted and exchanged in its canonical RFC-3339 text form.
#[derive(Clone, Copy, PartialEq, Eq, PartialOrd, Ord, Structural, Debug)]
pub struct ReadMarker(pub Timestamp);

/// The persisted payload for one (server, conversation) pair: the read
/// marker, and the timestamp of the most recent unread-triggering message.
/// `None` means "nothing read yet" and "no trigger observed yet".
#[derive(Clone, Copy, Debug, PartialEq, Eq)]
pub struct Metadata {
    pub read_marker: Option<ReadMarker>,
    pub last_triggers_unread: Option<Timestamp>,
}

pub open spec fn marker_valid(r: ReadMarker) -> bool {
    ts_valid(r.0)
}

pub open spec fn marker_le(a: ReadMarker, b: ReadMarker) -> bool {
    ts_le(a.0, b.0)
}

pub open spec fn metadata_valid(m: Metadata) -> bool {
    &&& m.read_marker matches Some(r) ==> marker_valid(r)
    &&& m.last_triggers_unread matches Some(t) ==> ts_valid(t)
}

pub open spec fn spec_marker_text(r: ReadMarker) -> Seq<char> {
    spec_format_ts(r.0)
}

pub open spec fn spec_marker_parse(s: Seq<char>) -> Option<ReadMarker> {
    match spec_parse_ts(s) {
        Some(t) => Some(ReadMarker(t)),
        None => None,
    }
}

/// The timestamp of the last message that did not originate purely inside
/// the client, wrapped as a marker; `None` when there is no such message.
pub open spec fn spec_latest_read_marker(ms: Seq<Message>) -> Option<ReadMarker>
    decreases ms.len(),
{
    if ms.len() == 0 {
        None
    } else if !ms.last().internal_origin {
        Some(ReadMarker(ms.last().server_time))
    } else {
        spec_latest_read_marker(ms.drop_last())
    }
}

/// The timestamp of the last message that triggers the unread indicator;
/// `None` when there is no such message.
pub open spec fn spec_latest_unread_trigger(ms: Seq<Message>) -> Option<Timestamp>
    decreases ms.len(),
{
    if ms.len() == 0 {
        None
    } else if ms.last().unread_trigger {
        Some(ms.last().server_time)
    } else {
        spec_latest_unread_trigger(ms.drop_last())
    }
}

impl ReadMarker {
    /// Scans the messages from most recent to oldest and takes the first one
    /// that did not originate purely inside the client.
    pub fn latest(messages: &[Message]) -> (r: Option<ReadMarker>)
        ensures
            r == spec_latest_read_marker(messages@),
    {
        let ghost all = messages@;
        proof {
            assert(all.subrange(0, all.len() as int) =~= all);
        }
        let mut i: usize = messages.len();
        while i > 0
            invariant
                i <= all.len(),
                all == messages@,
                spec_latest_read_marker(all) == spec_latest_read_marker(
                    all.subrange(0, i as int),
                ),
            decreases i,
        {
            i = i - 1;
            let m = &messages[i];
            proof {
                assert(all.subrange(0, i + 1 as int).last() == all[i as int]);
                assert(all.subrange(0, i + 1 as int).drop_last() =~= all.subrange(0, i as int));
            }
            if !m.is_internal_origin() {
                return Some(ReadMarker(m.server_time));
            }
        }
        proof {
            assert(all.subrange(0, 0) =~= Seq::<Message>::empty());
        }
        None
    }

    pub fn date_time(self) -> (r: Timestamp)
        ensures
            r == self.0,
    {
        self.0
    }

    pub fn is_valid(&self) -> (r: bool)
        ensures
            r == marker_valid(*self),
    {
        self.0.is_valid()
    }

    /// `self` is at or before `other`.
    pub fn le(&self, other: &ReadMarker) -> (r: bool)
        requires
            marker_valid(*self),
            marker_valid(*other),
        ensures
            r == marker_le(*self, *other),
    {
        self.0.le(&other.0)
    }

    /// The canonical RFC-3339 text of the marker.
    pub fn to_rfc3339(&self) -> (r: String)
        requires
            marker_valid(*self),
        ensures
            r@ == spec_marker_text(*self),
    {
        format_ts(&self.0)
    }

    /// Parses exactly the canonical RFC-3339 form; anything else is `None`.
    pub fn from_rfc3339(s: &str) -> (r: Option<ReadMarker>)
        ensures
            r == spec_marker_parse(s@),
            r matches Some(m) ==> marker_valid(m),
    {
        match parse_ts(s) {
            Some(t) => Some(ReadMarker(t)),
            None => None,
        }
    }
}

impl Default for Metadata {
    /// The state of a never-before-seen conversation: nothing read, no
    /// unread trigger observed.
    fn default() -> (r: Metadata)
        ensures
            r.read_marker is None,
            r.last_triggers_unread is None,
    {
        Metadata { read_marker: None, last_triggers_unread: None }
    }
}

/// Scans the messages from most recent to oldest and takes the timestamp of
/// the first one that triggers the unread indicator.
pub fn latest_triggers_unread(messages: &[Message]) -> (r: Option<Timestamp>)
    ensures
        r == spec_latest_unread_trigger(messages@),
{
    let ghost all = messages@;
    proof {
        assert(all.subrange(0, all.len() as int) =~= all);
    }
    let mut i: usize = messages.len();
    while i > 0
        invariant
            i <= all.len(),
            all == messages@,
            spec_latest_unread_trigger(all) == spec_latest_unread_trigger(
                all.subrange(0, i as int),
            ),
        decreases i,
    {
        i = i - 1;
        let m = &messages[i];
        proof {
            assert(all.subrange(0, i + 1 as int).last() == all[i as int]);
            assert(all.subrange(0, i + 1 as int).drop_last() =~= all.subrange(0, i as int));
        }
        if m.triggers_unread() {
            return Some(m.server_time);
        }
    }
    proof {
        assert(all.subrange(0, 0) =~= Seq::<Message>::empty());
    }
    None
}

/// The derived read marker is the `server_time` of the last message that is
/// not of internal origin, and is absent exactly when every message is.
pub proof fn lemma_latest_read_marker_is_last_external(ms: Seq<Message>)
    ensures
        spec_latest_read_marker(ms) is None <==> (forall|i: int|
            0 <= i < ms.len() ==> #[trigger] ms[i].internal_origin),
        spec_latest_read_marker(ms) matches Some(r) ==> exists|i: int|
            {
                &&& 0 <= i < ms.len()
                &&& !(#[trigger] ms[i].internal_origin)
                &&& r == ReadMarker(ms[i].server_time)
                &&& forall|j: int| i < j < ms.len() ==> #[trigger] ms[j].internal_origin
            },
    decreases ms.len(),
{
    if ms.len() == 0 {
    } else if !ms.last().internal_origin {
        let i = ms.len() - 1;
        assert(!ms[i].internal_origin);
        assert(spec_latest_read_marker(ms) == Some(ReadMarker(ms[i].server_time)));
    } else {
        lemma_latest_read_marker_is_last_external(ms.drop_last());
        let prev = ms.drop_last();
        assert(prev.len() == ms.len() - 1);
        assert(forall|i: int| 0 <= i < prev.len() ==> prev[i] == ms[i]);
        if let Some(r) = spec_latest_read_marker(prev) {
            let i = choose|i: int|
                {
                    &&& 0 <= i < prev.len()
                    &&& !(#[trigger] prev[i].internal_origin)
                    &&& r == ReadMarker(prev[i].server_time)
                    &&& forall|j: int| i < j < prev.len() ==> #[trigger] prev[j].internal_origin
                };
            assert(!ms[i].internal_origin);
            assert(forall|j: int| i < j < ms.len() ==> #[trigger] ms[j].internal_origin);
        }
    }
}

/// The derived unread trigger is the `server_time` of the last message with
/// the unread-trigger classification, and is absent exactly when none has it.
pub proof fn lemma_latest_unread_trigger_is_last_trigger(ms: Seq<Message>)
    ensures
        spec_latest_unread_trigger(ms) is None <==> (forall|i: int|
            0 <= i < ms.len() ==> !(#[trigger] ms[i].unread_trigger)),
        spec_latest_unread_trigger(ms) matches Some(t) ==> exists|i: int|
            {
                &&& 0 <= i < ms.len()
                &&& #[trigger] ms[i].unread_trigger
                &&& t == ms[i].server_time
                &&& forall|j: int| i < j < ms.len() ==> !(#[trigger] ms[j].unread_trigger)
            },
    decreases ms.len(),
{
    if ms.len() == 0 {
    } else if ms.last().unread_trigger {
        let i = ms.len() - 1;
        assert(ms[i].unread_trigger);
        assert(spec_latest_unread_trigger(ms) == Some(ms[i].server_time));
    } else {
        lemma_latest_unread_trigger_is_last_trigger(ms.drop_last());
        let prev = ms.drop_last();
        assert(prev.len() == ms.len() - 1);
        assert(forall|i: int| 0 <= i < prev.len() ==> prev[i] == ms[i]);
        if let Some(t) = spec_latest_unread_trigger(prev) {
            let i = choose|i: int|
                {
                    &&& 0 <= i < prev.len()
                    &&& #[trigger] prev[i].unread_trigger
                    &&& t == prev[i].server_time
                    &&& forall|j: int| i < j < prev.len() ==> !(#[trigger] prev[j].unread_trigger)
                };
            assert(ms[i].unread_trigger);
            assert(forall|j: int| i < j < ms.len() ==> !(#[trigger] ms[j].unread_trigger));
        }
    }
}

/// A derived read marker always carries a valid timestamp when the messages
/// are well formed.
pub proof fn lemma_latest_read_marker_valid(ms: Seq<Message>)
    requires
        all_wf(ms),
    ensures
        spec_latest_read_marker(ms) matches Some(r) ==> marker_valid(r),
    decreases ms.len(),
{
    if ms.len() > 0 {
        assert(ms.last().wf());
        lemma_latest_read_marker_valid(ms.drop_last());
    }
}

/// A derived unread trigger always carries a valid timestamp when the
/// messages are well formed.
pub proof fn lemma_latest_unread_trigger_valid(ms: Seq<Message>)
    requires
        all_wf(ms),
    ensures
        spec_latest_unread_trigger(ms) matches Some(t) ==> ts_valid(t),
    decreases ms.len(),
{
    if ms.len() > 0 {
        assert(ms.last().wf());
        lemma_latest_unread_trigger_valid(ms.drop_last());
    }
}

/// Formatting a marker and parsing the text back yields the same marker.
pub proof fn lemma_marker_text_round_trip(r: ReadMarker)
    requires
        marker_valid(r),
    ensures
        spec_marker_parse(spec_marker_text(r)) == Some(r),
{
    lemma_parse_format_ts(r.0);
}

/// The marker order is antisymmetric on valid markers: two markers at the
/// same instant are equal.
pub proof fn lemma_marker_le_antisymmetric(a: ReadMarker, b: ReadMarker)
    requires
        marker_valid(a),
        marker_valid(b),
        marker_le(a, b),
        marker_le(b, a),
    ensures
        a == b,
{
    lemma_instant_injective(a.0, b.0);
}

} // verus!
