use vstd::prelude::*;

use crate::timestamp::Timestamp;
use crate::timestamp::ts_valid;

verus! {

/// What the engine reads of a message: its ordering timestamp, whether it
/// originated purely inside the client (as opposed to the network or a peer),
/// and whether it is the kind of event that should light an unread indicator.
#[derive(Clone, Copy, Debug)]
pub struct Message {
    pub server_time: Timestamp,
    pub internal_origin: bool,
    pub unread_trigger: bool,
}

impl Message {
    pub open spec fn wf(self) -> bool {
        ts_valid(self.server_time)
    }

    pub fn new(server_time: Timestamp, internal_origin: bool, unread_trigger: bool) -> (r: Message)
        ensures
            r == (Message { server_time, internal_origin, unread_trigger }),
    {
        Message { server_time, internal_origin, unread_trigger }
    }

    pub fn is_internal_origin(&self) -> (r: bool)
        ensures
            r == self.internal_origin,
    {
        self.internal_origin
    }

    pub fn triggers_unread(&self) -> (r: bool)
        ensures
            r == self.unread_trigger,
    {
        self.unread_trigger
    }
}

/// Every message in the sequence carries a valid timestamp.
pub open spec fn all_wf(ms: Seq<Message>) -> bool {
    forall|i: int| 0 <= i < ms.len() ==> #[trigger] ms[i].wf()
}

} // verus!
