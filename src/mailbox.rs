//! Single-slot, last-write-wins handoff from background work to the
//! presentation layer, and the analysis snapshot it carries.
use vstd::prelude::*;
use crate::cut::CutWindow;

verus! {

/// Holds at most one undelivered value; a new value replaces an
/// undelivered one. The consumer is woken only when a value arrives in an
/// empty slot, so several publishes between two takes wake it once.
pub struct Mailbox<T> {
    slot: Option<T>,
}

impl<T> View for Mailbox<T> {
    type V = Option<T>;

    closed spec fn view(&self) -> Option<T> {
        self.slot
    }
}

/// The slot after publishing `v`, and whether the consumer must be woken.
pub open spec fn publish_step<T>(slot: Option<T>, v: T) -> (Option<T>, bool) {
    (Some(v), slot is None)
}

/// The slot after a take, and the value taken.
pub open spec fn take_step<T>(slot: Option<T>) -> (Option<T>, Option<T>) {
    (None, slot)
}

impl<T> Mailbox<T> {
    pub fn new() -> (r: Mailbox<T>)
        ensures
            r@ is None,
    {
        Mailbox { slot: None }
    }

    /// Stores `v`, dropping any undelivered value. Returns whether the
    /// consumer must be signalled: only when the slot was empty.
    pub fn publish(&mut self, v: T) -> (wake: bool)
        ensures
            (final(self)@, wake) == publish_step(old(self)@, v),
    {
        let wake = self.slot.is_none();
        self.slot = Some(v);
        wake
    }

    /// Takes the undelivered value, if any, leaving the slot empty.
    pub fn take(&mut self) -> (r: Option<T>)
        ensures
            (final(self)@, r) == take_step(old(self)@),
    {
        self.slot.take()
    }

    /// Whether a value waits to be taken.
    pub fn is_pending(&self) -> (r: bool)
        ensures
            r == self@ is Some,
    {
        self.slot.is_some()
    }
}

/// Publishing `a` and then `b` into an empty mailbox before any take
/// signals the consumer exactly once, and the take that follows delivers
/// `b` alone.
pub proof fn lemma_publish_coalesces<T>(a: T, b: T)
    ensures
        ({
            let (s1, w1) = publish_step(None::<T>, a);
            let (s2, w2) = publish_step(s1, b);
            let (s3, got) = take_step(s2);
            &&& w1
            &&& !w2
            &&& got == Some(b)
            &&& s3 is None
        }),
{
}

/// A newer value published over `older` leaves only the newer one, from
/// any state of the slot.
pub proof fn lemma_last_write_wins<T>(slot: Option<T>, older: T, newer: T)
    ensures
        take_step(publish_step(publish_step(slot, older).0, newer).0).1 == Some(newer),
        !publish_step(publish_step(slot, older).0, newer).1,
{
}

/// Result of one trigger cycle as shown to the user. It is published up
/// to twice per cycle (once the analysis completes, once the recording
/// completes); `M` carries the signal metrics.
#[derive(Debug, Clone)]
pub struct Snapshot<M> {
    pub text: Option<String>,
    pub window: CutWindow,
    pub duration_ms: u64,
    pub stream: Option<u64>,
    pub clip_path: String,
    pub latest_path: String,
    pub latest_mic_path: Option<String>,
    pub mic_clip_path: Option<String>,
    pub metrics: Option<M>,
}

/// The newer of two optional fields, keeping the older one where the newer
/// is absent.
pub open spec fn or_older<A>(newer: Option<A>, older: Option<A>) -> Option<A> {
    if newer is Some {
        newer
    } else {
        older
    }
}

impl<M> Snapshot<M> {
    /// Takes in a later snapshot of the same cycle. Fields it has replace
    /// the current ones; optional fields it lacks are kept, so a field once
    /// present is never lost.
    pub fn absorb(&mut self, newer: Snapshot<M>)
        ensures
            final(self).text == or_older(newer.text, old(self).text),
            final(self).window == newer.window,
            final(self).duration_ms == newer.duration_ms,
            final(self).stream == or_older(newer.stream, old(self).stream),
            final(self).clip_path == newer.clip_path,
            final(self).latest_path == newer.latest_path,
            final(self).latest_mic_path == or_older(newer.latest_mic_path, old(self).latest_mic_path),
            final(self).mic_clip_path == or_older(newer.mic_clip_path, old(self).mic_clip_path),
            final(self).metrics == or_older(newer.metrics, old(self).metrics),
    {
        let Snapshot {
            text,
            window,
            duration_ms,
            stream,
            clip_path,
            latest_path,
            latest_mic_path,
            mic_clip_path,
            metrics,
        } = newer;
        if text.is_some() {
            self.text = text;
        }
        self.window = window;
        self.duration_ms = duration_ms;
        if stream.is_some() {
            self.stream = stream;
        }
        self.clip_path = clip_path;
        self.latest_path = latest_path;
        if latest_mic_path.is_some() {
            self.latest_mic_path = latest_mic_path;
        }
        if mic_clip_path.is_some() {
            self.mic_clip_path = mic_clip_path;
        }
        if metrics.is_some() {
            self.metrics = metrics;
        }
    }
}

} // verus!
