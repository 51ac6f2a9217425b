//! The bounded hand-off of frequencies from the control context to the
//! real-time audio context.
//!
//! A frequency travels as the bit pattern of its single-precision value.
//! The channel is crossbeam's bounded channel: neither end ever blocks, a
//! send into a full channel fails with [`ChannelError::Full`], and a receive
//! from an empty one returns at once with nothing. Each end keeps, as ghost
//! state, the values that went through it, in order.
use vstd::prelude::*;

verus! {

#[verifier::external_type_specification]
#[verifier::external_body]
#[verifier::reject_recursive_types(T)]
pub struct ExSender<T>(crossbeam_channel::Sender<T>);

#[verifier::external_type_specification]
#[verifier::external_body]
#[verifier::reject_recursive_types(T)]
pub struct ExReceiver<T>(crossbeam_channel::Receiver<T>);

/// Largest capacity a control channel may be opened with.
pub const MAX_CAPACITY: usize = 1_000_000;

/// Why a send did not go through.
#[derive(Clone, Copy, Debug, PartialEq, Eq, Structural)]
pub enum ChannelError {
    /// The channel already holds as many values as its capacity.
    Full,
    /// The receiving end is gone.
    Disconnected,
}

/// The bound a channel's sending end was opened with.
pub uninterp spec fn sender_bound(tx: crossbeam_channel::Sender<u32>) -> nat;

/// The bound a channel's receiving end was opened with.
pub uninterp spec fn receiver_bound(rx: crossbeam_channel::Receiver<u32>) -> nat;

/// Relies on crossbeam_channel::bounded: a channel that holds at most `cap`
/// messages at a time, whose two ends are returned. It panics only for a
/// capacity too large to lay out (far beyond `MAX_CAPACITY`); a capacity of
/// zero gives a rendezvous channel, which is excluded here.
#[verifier::external_body]
fn open_bounded(cap: usize) -> (r: (crossbeam_channel::Sender<u32>, crossbeam_channel::Receiver<u32>))
    requires
        0 < cap <= MAX_CAPACITY,
    ensures
        sender_bound(r.0) == cap,
        receiver_bound(r.1) == cap,
{
    crossbeam_channel::bounded(cap)
}

/// Relies on crossbeam_channel::Sender::try_send: sends without blocking, or
/// says whether the channel was full or disconnected. Which outcome comes
/// depends on the other end, so nothing is promised of it.
#[verifier::external_body]
fn try_send_now(tx: &crossbeam_channel::Sender<u32>, v: u32) -> (r: Result<(), ChannelError>) {
    match tx.try_send(v) {
        Ok(()) => Ok(()),
        Err(crossbeam_channel::TrySendError::Full(_)) => Err(ChannelError::Full),
        Err(crossbeam_channel::TrySendError::Disconnected(_)) => Err(ChannelError::Disconnected),
    }
}

/// Relies on crossbeam_channel::Receiver::try_recv: the next queued value, or
/// nothing when the channel is empty, without blocking. What is queued
/// depends on the other end, so nothing is promised of the value.
#[verifier::external_body]
fn try_recv_now(rx: &crossbeam_channel::Receiver<u32>) -> (r: Option<u32>) {
    rx.try_recv().ok()
}

/// The producing end of a control channel.
pub struct ControlSender {
    tx: crossbeam_channel::Sender<u32>,
    capacity: usize,
    sent: Ghost<Seq<u32>>,
}

impl ControlSender {
    #[verifier::type_invariant]
    spec fn bound_kept(self) -> bool {
        &&& 0 < self.capacity
        &&& sender_bound(self.tx) == self.capacity as nat
    }
}

/// The consuming end of a control channel, owned by the real-time context.
pub struct ControlReceiver {
    rx: crossbeam_channel::Receiver<u32>,
    capacity: usize,
    received: Ghost<Seq<u32>>,
    polls: Ghost<Seq<Option<u32>>>,
}

impl ControlReceiver {
    #[verifier::type_invariant]
    spec fn bound_kept(self) -> bool {
        &&& 0 < self.capacity
        &&& receiver_bound(self.rx) == self.capacity as nat
    }
}

/// The value that survives when `vs` is drained: the last one, if any.
pub open spec fn latest(vs: Seq<u32>) -> Option<u32> {
    if vs.len() == 0 {
        None
    } else {
        Some(vs.last())
    }
}

/// Opens a channel that holds at most `capacity` values at a time.
pub fn control_channel(capacity: usize) -> (r: (ControlSender, ControlReceiver))
    requires
        0 < capacity <= MAX_CAPACITY,
    ensures
        r.0.sent() == Seq::<u32>::empty(),
        r.1.received() == Seq::<u32>::empty(),
        r.1.polls() == Seq::<Option<u32>>::empty(),
        r.0.capacity_spec() == capacity,
        r.1.capacity_spec() == capacity,
{
    let (tx, rx) = open_bounded(capacity);
    (
        ControlSender { tx, capacity, sent: Ghost(Seq::empty()) },
        ControlReceiver {
            rx,
            capacity,
            received: Ghost(Seq::empty()),
            polls: Ghost(Seq::empty()),
        },
    )
}

impl ControlSender {
    /// The values that this end has handed to the channel, oldest first.
    pub closed spec fn sent(&self) -> Seq<u32> {
        self.sent@
    }

    /// The capacity the underlying channel was opened with.
    pub closed spec fn capacity_spec(&self) -> nat {
        sender_bound(self.tx)
    }

    /// The capacity the channel was opened with.
    pub fn capacity(&self) -> (r: usize)
        ensures
            r as nat == self.capacity_spec(),
            0 < r,
    {
        proof {
            use_type_invariant(self);
        }
        self.capacity
    }

    /// Sends `value` without blocking. On success it is queued behind the
    /// values sent before; on failure nothing is queued and the error says
    /// whether the channel was full or its receiver gone.
    pub fn send(&mut self, value: u32) -> (r: Result<(), ChannelError>)
        ensures
            final(self).capacity_spec() == old(self).capacity_spec(),
            r is Ok ==> final(self).sent() == old(self).sent().push(value),
            r is Err ==> final(self).sent() == old(self).sent(),
    {
        proof {
            use_type_invariant(&*self);
        }
        let r = try_send_now(&self.tx, value);
        if r.is_ok() {
            self.sent = Ghost(self.sent@.push(value));
        }
        r
    }
}

impl ControlReceiver {
    /// The values that this end has taken from the channel, oldest first.
    pub closed spec fn received(&self) -> Seq<u32> {
        self.received@
    }

    /// The capacity the underlying channel was opened with.
    pub closed spec fn capacity_spec(&self) -> nat {
        receiver_bound(self.rx)
    }

    /// The capacity the channel was opened with.
    pub fn capacity(&self) -> (r: usize)
        ensures
            r as nat == self.capacity_spec(),
            0 < r,
    {
        proof {
            use_type_invariant(self);
        }
        self.capacity
    }

    /// Every answer that a receive on this end got, oldest first: a value, or
    /// `None` where the channel was empty.
    pub closed spec fn polls(&self) -> Seq<Option<u32>> {
        self.polls@
    }

    /// Takes the next queued value, or returns `None` at once when there is
    /// none. Never blocks.
    pub fn try_receive(&mut self) -> (r: Option<u32>)
        ensures
            final(self).capacity_spec() == old(self).capacity_spec(),
            final(self).polls() == old(self).polls().push(r),
            match r {
                Some(v) => final(self).received() == old(self).received().push(v),
                None => final(self).received() == old(self).received(),
            },
    {
        proof {
            use_type_invariant(&*self);
        }
        let r = try_recv_now(&self.rx);
        self.polls = Ghost(self.polls@.push(r));
        if let Some(v) = r {
            self.received = Ghost(self.received@.push(v));
        }
        r
    }

    /// Drains the values queued now, taking at most as many as the channel's
    /// capacity so that the time spent stays bounded, and returns the last of
    /// them: earlier ones are superseded. `None` when nothing was queued.
    pub fn drain_latest(&mut self) -> (r: Option<u32>)
        ensures
            final(self).capacity_spec() == old(self).capacity_spec(),
            old(self).received().is_prefix_of(final(self).received()),
            final(self).received().len() - old(self).received().len() <= old(
                self,
            ).capacity_spec(),
            final(self).received().len() - old(self).received().len() == old(
                self,
            ).capacity_spec() || (final(self).polls().len() > old(self).polls().len()
                && final(self).polls().last() is None),
            r == latest(
                final(self).received().subrange(
                    old(self).received().len() as int,
                    final(self).received().len() as int,
                ),
            ),
    {
        proof {
            use_type_invariant(&*self);
        }
        let ghost start = self.received@;
        let ghost start_polls = self.polls@;
        let cap: usize = self.capacity;
        let mut last: Option<u32> = None;
        let mut taken: usize = 0;
        while taken < cap
            invariant
                cap as nat == old(self).capacity_spec(),
                self.capacity_spec() == old(self).capacity_spec(),
                start == old(self).received(),
                start_polls == old(self).polls(),
                start.is_prefix_of(self.received()),
                self.received().len() == start.len() + taken,
                self.polls().len() >= start_polls.len(),
                taken <= cap,
                last == latest(self.received().subrange(start.len() as int, self.received().len() as int)),
            decreases cap - taken,
        {
            match self.try_receive() {
                Some(v) => {
                    last = Some(v);
                    taken = taken + 1;
                },
                None => {
                    return last;
                },
            }
        }
        last
    }
}

/// Coalescing: of values drained together, whatever came before the last one
/// does not matter; the last one alone is observed.
pub proof fn lemma_latest_wins(earlier: Seq<u32>, later: Seq<u32>)
    requires
        later.len() > 0,
    ensures
        latest(earlier + later) == latest(later),
        latest(earlier + later) == Some(later.last()),
{
    assert((earlier + later).last() == later.last());
}

} // verus!
