//! One-shot signals, and pairs of them for a request and its answer.
//!
//! A [`Signal`] is a handle: its clones stand for one flag, which is raised once and stays raised.
//! The flags live on a [`SignalBoard`]. Threads that share signals share the board, behind a lock;
//! a thread that has to wait does so until the board says that its wait is over.
use vstd::prelude::*;

verus! {

/// The flags behind the signals, in the order in which the signals were made.
pub struct SignalBoard {
    flags: Vec<bool>,
}

impl View for SignalBoard {
    type V = Seq<bool>;

    closed spec fn view(&self) -> Seq<bool> {
        self.flags@
    }
}

impl SignalBoard {
    /// A board without signals.
    pub fn new() -> (board: Self)
        ensures
            board@ == Seq::<bool>::empty(),
    {
        SignalBoard { flags: Vec::new() }
    }
}

/// A flag that is raised once. Clones of a signal share its flag.
#[derive(Debug, Clone, Copy, PartialEq, Eq, Structural)]
pub struct Signal {
    index: usize,
}

impl Signal {
    /// The place of the signal's flag on its board.
    pub closed spec fn id(self) -> int {
        self.index as int
    }

    /// Whether the signal was made on the board.
    pub open spec fn on(self, flags: Seq<bool>) -> bool {
        0 <= self.id() < flags.len()
    }

    /// A new signal, which has not been raised. The signals made before keep their flags.
    pub fn new(board: &mut SignalBoard) -> (signal: Self)
        ensures
            final(board)@ == old(board)@.push(false),
            signal.id() == old(board)@.len(),
    {
        let index: usize = board.flags.len();
        board.flags.push(false);
        Signal { index }
    }

    /// Raises the flag, which must not have been raised before. No other flag changes.
    pub fn signal(&self, board: &mut SignalBoard)
        requires
            self.on(old(board)@),
            !old(board)@[self.id()],
        ensures
            final(board)@ == old(board)@.update(self.id(), true),
    {
        board.flags.set(self.index, true);
    }

    /// Whether the flag has been raised.
    pub fn signaled(&self, board: &SignalBoard) -> (r: bool)
        requires
            self.on(board@),
        ensures
            r == board@[self.id()],
    {
        board.flags[self.index]
    }

    /// Whether a wait for the flag is over. While it is not, the waiting thread sleeps and asks
    /// again when a flag has been raised.
    pub fn wait(&self, board: &SignalBoard) -> (over: bool)
        requires
            self.on(board@),
        ensures
            over == board@[self.id()],
    {
        self.signaled(board)
    }
}

/// Two signals: one end raises `request` and waits for `response`.
#[derive(Debug, Clone, Copy, PartialEq, Eq, Structural)]
pub struct WaitSignal {
    request: Signal,
    response: Signal,
}

/// The end whose `request` is the first signal of its pair.
pub type Receiver = WaitSignal;

/// The end whose `request` is the second signal of its pair.
pub type Responder = WaitSignal;

impl WaitSignal {
    /// The signal that this end raises to ask.
    pub closed spec fn spec_request(self) -> Signal {
        self.request
    }

    /// The signal that this end waits for.
    pub closed spec fn spec_response(self) -> Signal {
        self.response
    }

    /// Whether both signals were made on the board.
    pub open spec fn on(self, flags: Seq<bool>) -> bool {
        self.spec_request().on(flags) && self.spec_response().on(flags)
    }

    /// The board after this end has asked.
    pub open spec fn after_request(self, flags: Seq<bool>) -> Seq<bool> {
        flags.update(self.spec_request().id(), true)
    }

    /// The board after this end has looked for a request and answered the one it found.
    pub open spec fn after_response(self, flags: Seq<bool>) -> Seq<bool> {
        if flags[self.spec_request().id()] {
            flags.update(self.spec_response().id(), true)
        } else {
            flags
        }
    }

    /// Two ends over two new signals: what the one calls its request, the other calls its
    /// response.
    pub fn new(board: &mut SignalBoard) -> (ends: (Receiver, Responder))
        ensures
            final(board)@ == old(board)@.push(false).push(false),
            ends.0.spec_request().id() == old(board)@.len(),
            ends.0.spec_response().id() == old(board)@.len() + 1,
            ends.1.spec_request() == ends.0.spec_response(),
            ends.1.spec_response() == ends.0.spec_request(),
    {
        let a = Signal::new(board);
        let b = Signal::new(board);
        let receiver = WaitSignal { request: a, response: b };
        let responder = WaitSignal { request: b, response: a };
        (receiver, responder)
    }

    /// Asks, and says whether the wait for the answer is already over. While it is not, the
    /// waiting thread calls [`WaitSignal::wait`] again when a flag has been raised.
    pub fn request_and_wait(&self, board: &mut SignalBoard) -> (over: bool)
        requires
            self.on(old(board)@),
            !old(board)@[self.spec_request().id()],
        ensures
            final(board)@ == self.after_request(old(board)@),
            final(board)@ == old(board)@.update(self.spec_request().id(), true),
            over == final(board)@[self.spec_response().id()],
    {
        self.request.signal(board);
        self.response.wait(board)
    }

    /// Whether the wait for the answer is over.
    pub fn wait(&self, board: &SignalBoard) -> (over: bool)
        requires
            self.on(board@),
        ensures
            over == board@[self.spec_response().id()],
    {
        self.response.wait(board)
    }

    /// Answers if the request of this end has been raised, and says whether it has. A request is
    /// answered once.
    pub fn respond_if_requested(&self, board: &mut SignalBoard) -> (requested: bool)
        requires
            self.on(old(board)@),
            old(board)@[self.spec_request().id()] ==> !old(board)@[self.spec_response().id()],
        ensures
            requested == old(board)@[self.spec_request().id()],
            final(board)@ == self.after_response(old(board)@),
            requested ==> final(board)@ == old(board)@.update(self.spec_response().id(), true),
            !requested ==> final(board)@ == old(board)@,
    {
        if self.request.signaled(board) {
            self.response.signal(board);
            return true;
        }
        false
    }
}

/// An operation touches no flag but its own: asking touches the request, and answering the response
/// of a request that has been raised.
pub proof fn law_other_flags_stay(flags: Seq<bool>, end: WaitSignal, i: int)
    requires
        end.on(flags),
        0 <= i < flags.len(),
    ensures
        end.after_request(flags).len() == flags.len(),
        end.after_response(flags).len() == flags.len(),
        i != end.spec_request().id() ==> end.after_request(flags)[i] == flags[i],
        i != end.spec_response().id() || !flags[end.spec_request().id()] ==> end.after_response(
            flags,
        )[i] == flags[i],
{
}

/// No operation lowers a flag: what has been raised stays raised.
pub proof fn law_flags_stay_raised(flags: Seq<bool>, end: WaitSignal, i: int)
    requires
        end.on(flags),
        0 <= i < flags.len(),
        flags[i],
    ensures
        flags.push(false)[i],
        end.after_request(flags)[i],
        end.after_response(flags)[i],
{
}

/// A request that one holder of an end makes is answered by another holder of the same end, and
/// the answer ends the wait.
pub proof fn law_request_is_answered(flags: Seq<bool>, end: WaitSignal)
    requires
        end.on(flags),
        end.spec_request().id() != end.spec_response().id(),
        !flags[end.spec_response().id()],
    ensures
        !end.after_request(flags)[end.spec_response().id()],
        end.after_request(flags)[end.spec_request().id()],
        end.after_response(end.after_request(flags))[end.spec_response().id()],
{
}

/// Of a new pair, an end looks for the request that it raises itself: the request of one end is
/// not a request to the other, which leaves the board as it is.
pub proof fn law_ends_do_not_answer_each_other(flags: Seq<bool>, one: WaitSignal, other: WaitSignal)
    requires
        one.on(flags),
        one.spec_request().id() != one.spec_response().id(),
        other.spec_request() == one.spec_response(),
        other.spec_response() == one.spec_request(),
        !flags[one.spec_response().id()],
    ensures
        other.after_response(one.after_request(flags)) == one.after_request(flags),
        !one.after_request(flags)[one.spec_response().id()],
{
}

} // verus!
