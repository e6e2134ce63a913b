//! Messages exchanged with the media player over its control channel, and
//! correlation of replies with the requests that asked for them.
use vstd::prelude::*;

verus! {

/// A player property the controller reads or observes.
#[derive(Debug, Clone, Copy, PartialEq, Eq, Structural)]
pub enum Property {
    SubText,
    SubStart,
    SubEnd,
    Duration,
    Path,
    TrackList,
    TimePos,
    Pause,
}

/// The player's name of a property.
pub open spec fn property_name(p: Property) -> Seq<char> {
    match p {
        Property::SubText => "sub-text"@,
        Property::SubStart => "sub-start"@,
        Property::SubEnd => "sub-end"@,
        Property::Duration => "duration"@,
        Property::Path => "path"@,
        Property::TrackList => "track-list"@,
        Property::TimePos => "time-pos"@,
        Property::Pause => "pause"@,
    }
}

impl Property {
    /// The name the player knows this property by.
    pub fn name(&self) -> (r: &'static str)
        ensures
            r@ == property_name(*self),
    {
        match self {
            Property::SubText => "sub-text",
            Property::SubStart => "sub-start",
            Property::SubEnd => "sub-end",
            Property::Duration => "duration",
            Property::Path => "path",
            Property::TrackList => "track-list",
            Property::TimePos => "time-pos",
            Property::Pause => "pause",
        }
    }
}

/// An outbound command. Times are in milliseconds.
#[derive(Debug, Clone)]
pub enum PlayerCommand {
    /// Enable delivery of `client-message` events.
    SubscribeClientMessages,
    /// Report changes of `property` as events tagged with `slot`.
    Observe { slot: u64, property: Property },
    /// Stop the observation registered under `slot`.
    Unobserve { slot: u64 },
    /// Read `property`; the reply carries `request_id`.
    Get { request_id: u64, property: Property },
    /// Pause (`true`) or resume (`false`) playback.
    SetPause(bool),
    /// Move the playback position.
    Seek(u64),
    /// Show a message on screen for the given time.
    ShowText(String, u64),
}

/// Kind of a media track.
#[derive(Debug, Clone, Copy, PartialEq, Eq, Structural)]
pub enum TrackKind {
    Audio,
    Video,
    Subtitle,
    Other,
}

/// One entry of the player's track list.
#[derive(Debug, Clone, Copy, PartialEq, Eq, Structural)]
pub struct Track {
    pub kind: TrackKind,
    pub selected: bool,
    /// Stream index in the container, as the encoder numbers it.
    pub ff_index: Option<u64>,
}

/// A property value as the controller reads it. Times are milliseconds.
#[derive(Debug, Clone)]
pub enum PlayerValue {
    Millis(u64),
    Text(String),
    Flag(bool),
    Tracks(Vec<Track>),
    Absent,
}

/// An asynchronous notification from the player.
#[derive(Debug, Clone)]
pub enum PlayerEvent {
    /// An observed property changed.
    PropertyChange { property: Property, value: PlayerValue },
    /// A script or key binding sent a message with these arguments.
    ClientMessage { args: Vec<String> },
    /// Any other event.
    Other,
}

/// One line read from the control channel.
#[derive(Debug, Clone)]
pub enum Inbound {
    /// The answer to the request with this id.
    Reply { request_id: u64, value: PlayerValue },
    /// A notification that answers no request.
    Event(PlayerEvent),
    /// A line that could not be understood; it is skipped.
    Malformed,
}

/// Hands out request ids in sequence from 1, wrapping back to 1 after
/// `u64::MAX`.
pub struct RequestIds {
    next: u64,
}

impl RequestIds {
    pub closed spec fn peek(&self) -> u64 {
        self.next
    }

    pub fn new() -> (r: RequestIds)
        ensures
            r.peek() == 1,
    {
        RequestIds { next: 1 }
    }

    /// A fresh id: the one after the previous, wrapping to 1.
    pub fn fresh(&mut self) -> (r: u64)
        ensures
            r == old(self).peek(),
            final(self).peek() == if old(self).peek() < u64::MAX { (old(self).peek() + 1) as u64 } else { 1u64 },
    {
        let r = self.next;
        self.next = if self.next < u64::MAX {
            self.next + 1
        } else {
            1
        };
        r
    }
}

/// What one inbound line contributes while the reply to `id` is awaited:
/// the reply's value if it is that reply, and the events to deliver later.
pub open spec fn wait_step(id: u64, msg: Inbound) -> (Option<PlayerValue>, Seq<PlayerEvent>) {
    match msg {
        Inbound::Reply { request_id, value } => if request_id == id {
            (Some(value), Seq::empty())
        } else {
            (None, Seq::empty())
        },
        Inbound::Event(e) => (None, seq![e]),
        Inbound::Malformed => (None, Seq::empty()),
    }
}

/// Reading `msgs` while the reply to `id` is awaited: the value of the
/// first reply carrying `id` (if any), and the events read before it, in
/// order. Lines after that reply are not read.
pub open spec fn await_reply(id: u64, msgs: Seq<Inbound>) -> (Option<PlayerValue>, Seq<PlayerEvent>)
    decreases msgs.len(),
{
    if msgs.len() == 0 {
        (None, Seq::empty())
    } else {
        let (r, d) = wait_step(id, msgs[0]);
        if r is Some {
            (r, d)
        } else {
            let (r2, d2) = await_reply(id, msgs.drop_first());
            (r2, d + d2)
        }
    }
}

/// The wait for one reply. Events that arrive meanwhile are kept, in order,
/// for later dispatch.
pub struct ReplyWait {
    pub request_id: u64,
    pub deferred: Vec<PlayerEvent>,
}

impl ReplyWait {
    pub fn new(request_id: u64) -> (r: ReplyWait)
        ensures
            r.request_id == request_id,
            r.deferred@ == Seq::<PlayerEvent>::empty(),
    {
        ReplyWait { request_id, deferred: Vec::new() }
    }

    /// Takes one inbound line. Returns the value if it is the awaited
    /// reply; keeps it for later if it is an event; drops anything else.
    pub fn accept(&mut self, msg: Inbound) -> (r: Option<PlayerValue>)
        ensures
            final(self).request_id == old(self).request_id,
            r == wait_step(old(self).request_id, msg).0,
            final(self).deferred@ == old(self).deferred@ + wait_step(old(self).request_id, msg).1,
    {
        match msg {
            Inbound::Reply { request_id, value } => {
                if request_id == self.request_id {
                    proof {
                        assert(self.deferred@ =~= old(self).deferred@ + Seq::<PlayerEvent>::empty());
                    }
                    Some(value)
                } else {
                    proof {
                        assert(self.deferred@ =~= old(self).deferred@ + Seq::<PlayerEvent>::empty());
                    }
                    None
                }
            },
            Inbound::Event(e) => {
                let ghost g = e;
                self.deferred.push(e);
                proof {
                    assert(self.deferred@ =~= old(self).deferred@ + seq![g]);
                }
                None
            },
            Inbound::Malformed => {
                proof {
                    assert(self.deferred@ =~= old(self).deferred@ + Seq::<PlayerEvent>::empty());
                }
                None
            },
        }
    }
}

/// Reading a sequence of lines one by one with [`ReplyWait::accept`],
/// stopping at the first value it returns, gives [`await_reply`].
pub proof fn lemma_accept_sequence(id: u64, msgs: Seq<Inbound>, k: int)
    requires
        0 <= k <= msgs.len(),
        forall|j: int| 0 <= j < k ==> (#[trigger] wait_step(id, msgs[j])).0 is None,
    ensures
        await_reply(id, msgs) == ({
            let (r, d) = await_reply(id, msgs.subrange(k, msgs.len() as int));
            (r, seq_events_before(id, msgs, k) + d)
        }),
    decreases k,
{
    if k > 0 {
        let rest = msgs.drop_first();
        assert forall|j: int| 0 <= j < k - 1 implies (#[trigger] wait_step(id, rest[j])).0 is None by {
            assert(rest[j] == msgs[j + 1]);
        }
        lemma_accept_sequence(id, rest, k - 1);
        assert(rest.subrange(k - 1, rest.len() as int) =~= msgs.subrange(k, msgs.len() as int));
        assert(wait_step(id, msgs[0]).0 is None);
        lemma_events_before_step(id, msgs, k);
    } else {
        assert(msgs.subrange(0, msgs.len() as int) =~= msgs);
        assert(seq_events_before(id, msgs, 0) =~= Seq::<PlayerEvent>::empty());
    }
}

/// The events that the first `k` lines of `msgs` defer.
pub open spec fn seq_events_before(id: u64, msgs: Seq<Inbound>, k: int) -> Seq<PlayerEvent>
    decreases k,
{
    if k <= 0 {
        Seq::empty()
    } else {
        seq_events_before(id, msgs, k - 1) + wait_step(id, msgs[k - 1]).1
    }
}

proof fn lemma_events_before_step(id: u64, msgs: Seq<Inbound>, k: int)
    requires
        0 < k <= msgs.len(),
    ensures
        seq_events_before(id, msgs, k) == wait_step(id, msgs[0]).1 + seq_events_before(id, msgs.drop_first(), k - 1),
    decreases k,
{
    if k > 1 {
        lemma_events_before_step(id, msgs, k - 1);
        assert(msgs.drop_first()[k - 2] == msgs[k - 1]);
        assert(seq_events_before(id, msgs, k) =~= wait_step(id, msgs[0]).1 + seq_events_before(id, msgs.drop_first(), k - 1));
    } else {
        assert(seq_events_before(id, msgs.drop_first(), 0) =~= Seq::<PlayerEvent>::empty());
        assert(seq_events_before(id, msgs, 0) =~= Seq::<PlayerEvent>::empty());
        assert(seq_events_before(id, msgs, 1) =~= wait_step(id, msgs[0]).1);
    }
}

/// An event read between a request and its reply is never taken for the
/// reply: the value returned is that of the reply carrying the request's
/// id, and the event is kept for later dispatch.
pub proof fn lemma_event_before_reply(id: u64, e: PlayerEvent, v: PlayerValue, rest: Seq<Inbound>)
    ensures
        await_reply(id, seq![Inbound::Event(e), Inbound::Reply { request_id: id, value: v }] + rest)
            == (Some(v), seq![e]),
{
    let msgs = seq![Inbound::Event(e), Inbound::Reply { request_id: id, value: v }] + rest;
    assert(msgs[0] == Inbound::Event(e));
    assert(msgs.drop_first()[0] == Inbound::Reply { request_id: id, value: v });
    assert(await_reply(id, msgs.drop_first()) == (Some(v), Seq::<PlayerEvent>::empty()));
    assert(seq![e] + Seq::<PlayerEvent>::empty() =~= seq![e]);
}

/// Whatever lines arrive, a value is returned only from a reply carrying
/// the awaited id, and it is the first such reply.
pub proof fn lemma_only_matching_reply(id: u64, msgs: Seq<Inbound>)
    ensures
        await_reply(id, msgs).0 matches Some(v) ==> exists|k: int|
            0 <= k < msgs.len() && msgs[k] == (Inbound::Reply { request_id: id, value: v })
                && forall|j: int| 0 <= j < k ==> !(#[trigger] msgs[j] matches Inbound::Reply { request_id, .. } && request_id == id),
    decreases msgs.len(),
{
    if msgs.len() > 0 {
        let rest = msgs.drop_first();
        lemma_only_matching_reply(id, rest);
        if wait_step(id, msgs[0]).0 is None {
            if let Some(v) = await_reply(id, msgs).0 {
                let k = choose|k: int|
                    0 <= k < rest.len() && rest[k] == (Inbound::Reply { request_id: id, value: v })
                        && forall|j: int| 0 <= j < k ==> !(#[trigger] rest[j] matches Inbound::Reply { request_id, .. } && request_id == id);
                assert(msgs[k + 1] == rest[k]);
                assert forall|j: int| 0 <= j < k + 1 implies !(#[trigger] msgs[j] matches Inbound::Reply { request_id, .. } && request_id == id) by {
                    if j > 0 {
                        assert(msgs[j] == rest[j - 1]);
                    }
                }
            }
        }
    }
}

} // verus!
