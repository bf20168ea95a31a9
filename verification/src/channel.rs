//! The ends of crossbeam's channels.
use crate::errors::RuntimeError;
use crossbeam_channel::{Receiver, Sender, TryRecvError};
use vstd::prelude::*;

verus! {

/// The sending end of a channel of crossbeam.
#[verifier::external_type_specification]
#[verifier::external_body]
#[verifier::reject_recursive_types(T)]
pub struct ExSender<T>(Sender<T>);

/// The receiving end of a channel of crossbeam.
#[verifier::external_type_specification]
#[verifier::external_body]
#[verifier::reject_recursive_types(T)]
pub struct ExReceiver<T>(Receiver<T>);

/// What a look into a channel finds.
pub enum Polled<T> {
    /// The oldest item, taken out.
    Item(T),
    /// Nothing at present.
    Empty,
    /// Nothing, and no sender that could still send.
    Disconnected,
}

/// A receiving end that remembers, for proofs, what was found in the channel. Only a look into the
/// channel adds to that.
#[verifier::reject_recursive_types(T)]
pub struct Inbox<T> {
    rx: Receiver<T>,
    looks: Ghost<Seq<Polled<T>>>,
}

impl<T> View for Inbox<T> {
    type V = Seq<Polled<T>>;

    /// What every look into the channel found, in order.
    closed spec fn view(&self) -> Seq<Polled<T>> {
        self.looks@
    }
}

impl<T> Inbox<T> {
    /// An inbox into which nobody has looked yet.
    pub fn new(rx: Receiver<T>) -> (inbox: Self)
        ensures
            inbox@ == Seq::<Polled<T>>::empty(),
    {
        Inbox { rx, looks: Ghost(Seq::empty()) }
    }

    /// `Receiver::try_recv`. What it finds is remembered behind what was found before. What other
    /// threads have sent by now is not known, so nothing is claimed of what it finds.
    #[verifier::external_body]
    pub(crate) fn look(&mut self) -> (polled: Polled<T>)
        ensures
            final(self)@ == old(self)@.push(polled),
    {
        match self.rx.try_recv() {
            Ok(item) => Polled::Item(item),
            Err(TryRecvError::Empty) => Polled::Empty,
            Err(TryRecvError::Disconnected) => Polled::Disconnected,
        }
    }
}

/// A sending end that remembers, for proofs, what has gone into the channel through it, and what has
/// not.
#[verifier::reject_recursive_types(T)]
pub struct Outbox<T> {
    tx: Sender<T>,
    sent: Ghost<Seq<T>>,
    refused: Ghost<Seq<T>>,
}

impl<T> View for Outbox<T> {
    type V = Seq<T>;

    /// What has gone into the channel, in order.
    closed spec fn view(&self) -> Seq<T> {
        self.sent@
    }
}

impl<T> Outbox<T> {
    /// What could not be sent because no receiver was left, in order.
    pub closed spec fn refused(&self) -> Seq<T> {
        self.refused@
    }

    /// An outbox through which nothing has gone yet.
    pub fn new(tx: Sender<T>) -> (outbox: Self)
        ensures
            outbox@ == Seq::<T>::empty(),
            outbox.refused() == Seq::<T>::empty(),
    {
        Outbox { tx, sent: Ghost(Seq::empty()), refused: Ghost(Seq::empty()) }
    }

    /// `Sender::send`. The item goes into the channel behind what was sent before, or it is refused,
    /// where no receiver is left. Whether one is left is not known.
    #[verifier::external_body]
    pub(crate) fn send(&mut self, item: T) -> (r: Result<(), RuntimeError>)
        ensures
            match r {
                Ok(_) => {
                    &&& final(self)@ == old(self)@.push(item)
                    &&& final(self).refused() == old(self).refused()
                },
                Err(error) => {
                    &&& error == RuntimeError::ChannelSend
                    &&& final(self)@ == old(self)@
                    &&& final(self).refused() == old(self).refused().push(item)
                },
            },
    {
        self.tx.send(item).map_err(|_| RuntimeError::ChannelSend)
    }
}

/// One look for a stop: whether it was made between two rounds, and what it found.
pub struct StopPoll {
    pub between_rounds: bool,
    pub polled: Polled<()>,
}

impl StopPoll {
    /// Whether what was found ends the work: a stop does, and between two rounds also that nobody
    /// is left who could ask for one.
    pub open spec fn asks(self) -> bool {
        self.polled is Item || (self.between_rounds && self.polled is Disconnected)
    }
}

/// The end of a channel on which a stop is asked for. It remembers, for proofs, which of the looks into
/// the channel were made between two rounds.
pub struct StopSignal {
    inbox: Inbox<()>,
    between_rounds: Ghost<Map<int, bool>>,
}

impl View for StopSignal {
    type V = Seq<StopPoll>;

    /// What every look into the channel found, in order.
    closed spec fn view(&self) -> Seq<StopPoll> {
        Seq::new(
            self.inbox@.len(),
            |i: int|
                StopPoll { between_rounds: self.between_rounds@[i], polled: self.inbox@[i] },
        )
    }
}

impl StopSignal {
    /// A signal into which nobody has looked yet.
    pub fn new(rx: Receiver<()>) -> (signal: Self)
        ensures
            signal@ == Seq::<StopPoll>::empty(),
    {
        let signal: StopSignal = StopSignal {
            inbox: Inbox::new(rx),
            between_rounds: Ghost(Map::empty()),
        };
        assert(signal@ =~= Seq::empty());
        signal
    }

    fn look(&mut self, Ghost(between_rounds): Ghost<bool>) -> (polled: Polled<()>)
        ensures
            final(self)@ == old(self)@.push(StopPoll { between_rounds, polled }),
    {
        let ghost n = self.inbox@.len() as int;
        let polled: Polled<()> = self.inbox.look();
        proof {
            self.between_rounds@ = self.between_rounds@.insert(n, between_rounds);
            assert(self@ =~= old(self)@.push(StopPoll { between_rounds, polled }));
        }
        polled
    }

    /// Whether a stop is asked for in the midst of a round.
    pub(crate) fn should_stop(&mut self) -> (stop: bool)
        ensures
            exists|poll: StopPoll|
                {
                    &&& final(self)@ == #[trigger] old(self)@.push(poll)
                    &&& !poll.between_rounds
                    &&& stop == poll.asks()
                },
    {
        let polled: Polled<()> = self.look(Ghost(false));
        matches!(polled, Polled::Item(_))
    }

    /// Whether a stop is asked for between two rounds, or nobody is left who could.
    pub(crate) fn should_end(&mut self) -> (stop: bool)
        ensures
            exists|poll: StopPoll|
                {
                    &&& final(self)@ == #[trigger] old(self)@.push(poll)
                    &&& poll.between_rounds
                    &&& stop == poll.asks()
                },
    {
        let polled: Polled<()> = self.look(Ghost(true));
        !matches!(polled, Polled::Empty)
    }
}

/// A stop that is found is always one; that nobody is left to ask for one counts only between two
/// rounds, and nothing found never does.
pub proof fn law_stops_are_found(poll: StopPoll)
    ensures
        poll.polled is Item ==> poll.asks(),
        poll.polled is Empty ==> !poll.asks(),
        poll.polled is Disconnected ==> (poll.asks() <==> poll.between_rounds),
{
}

} // verus!
