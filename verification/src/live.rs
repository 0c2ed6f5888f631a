//! Following the printer's reports, as the dashboard shows them.
use vstd::prelude::*;

verus! {

/// What comes from the printer.
#[derive(Clone, Copy, Debug, PartialEq, Eq, Structural)]
pub enum Feed {
    /// A message, which the port holds.
    Message,
    /// Some were missed. The next report goes on top of what there is.
    Lagged,
    /// There will be no more.
    Closed,
}

/// What following the reports asks of the outside.
pub trait FeedPort {
    fn recv(&mut self) -> Feed;

    /// Whether the message is a report, and not the answer to a command.
    fn is_status_report(&mut self) -> bool;

    /// Take the report into the state.
    fn apply(&mut self);

    /// Show the state; whether anyone is left to see it.
    fn publish(&mut self) -> bool;
}

/// One thing that was asked of the outside and its answer.
pub enum FeedEvent {
    Received(Feed),
    IsReport(bool),
    Applied,
    Published(bool),
}

/// A port and the log of what went through it.
pub struct FeedTap<P> {
    port: P,
    events: Ghost<Seq<FeedEvent>>,
}

impl<P: FeedPort> FeedTap<P> {
    /// What went through the port so far.
    pub closed spec fn log(self) -> Seq<FeedEvent> {
        self.events@
    }

    pub fn new(port: P) -> (r: FeedTap<P>)
        ensures
            r.log() == Seq::<FeedEvent>::empty(),
    {
        FeedTap { port, events: Ghost(Seq::empty()) }
    }

    fn recv(&mut self) -> (r: Feed)
        ensures
            final(self).log() == old(self).log().push(FeedEvent::Received(r)),
    {
        let r = self.port.recv();
        self.events = Ghost(self.events@.push(FeedEvent::Received(r)));
        r
    }

    fn is_status_report(&mut self) -> (r: bool)
        ensures
            final(self).log() == old(self).log().push(FeedEvent::IsReport(r)),
    {
        let r: bool = self.port.is_status_report();
        self.events = Ghost(self.events@.push(FeedEvent::IsReport(r)));
        r
    }

    fn apply(&mut self)
        ensures
            final(self).log() == old(self).log().push(FeedEvent::Applied),
    {
        self.port.apply();
        self.events = Ghost(self.events@.push(FeedEvent::Applied));
    }

    fn publish(&mut self) -> (r: bool)
        ensures
            final(self).log() == old(self).log().push(FeedEvent::Published(r)),
    {
        let r: bool = self.port.publish();
        self.events = Ghost(self.events@.push(FeedEvent::Published(r)));
        r
    }
}

/// `ev` follows one message, and `more` says whether to go on. The answer to a
/// command is not taken into the state: it is some client's, and would overwrite
/// what the printer said of itself.
pub open spec fn followed(ev: Seq<FeedEvent>, more: bool) -> bool {
    &&& ev.len() >= 1
    &&& match ev[0] {
        FeedEvent::Received(Feed::Lagged) => ev.len() == 1 && more,
        FeedEvent::Received(Feed::Closed) => ev.len() == 1 && !more,
        FeedEvent::Received(Feed::Message) => {
            &&& ev.len() >= 2
            &&& match ev[1] {
                FeedEvent::IsReport(false) => ev.len() == 2 && more,
                FeedEvent::IsReport(true) => {
                    &&& ev.len() == 4
                    &&& ev[2] is Applied
                    &&& ev[3] == FeedEvent::Published(more)
                },
                _ => false,
            }
        },
        _ => false,
    }
}

/// Follow one message; whether to go on.
pub fn follow_one<P: FeedPort>(tap: &mut FeedTap<P>) -> (r: bool)
    ensures
        old(tap).log().is_prefix_of(final(tap).log()),
        followed(final(tap).log().skip(old(tap).log().len() as int), r),
{
    match tap.recv() {
        Feed::Lagged => true,
        Feed::Closed => false,
        Feed::Message => {
            if !tap.is_status_report() {
                return true;
            }
            tap.apply();
            tap.publish()
        },
    }
}

/// Only reports reach the state.
pub proof fn answers_stay_out_of_the_state(ev: Seq<FeedEvent>, more: bool, i: int)
    requires
        followed(ev, more),
        0 <= i < ev.len(),
        ev[i] is Applied,
    ensures
        ev[0] == FeedEvent::Received(Feed::Message),
        ev[1] == FeedEvent::IsReport(true),
{
}

/// A report that arrives is taken into the state and then shown, once; and following
/// ends only where the reports do, or where nobody is left to see them.
pub proof fn a_report_is_taken_in_and_shown(ev: Seq<FeedEvent>, more: bool)
    requires
        followed(ev, more),
    ensures
        ev[0] is Received,
        ev.len() > 1 && ev[1] == FeedEvent::IsReport(true) ==> ev =~= seq![
            FeedEvent::Received(Feed::Message),
            FeedEvent::IsReport(true),
            FeedEvent::Applied,
            FeedEvent::Published(more),
        ],
        ev[0] == FeedEvent::Received(Feed::Message) ==> ev.len() > 1 && ev[1] is IsReport,
        !more <==> ev[0] == FeedEvent::Received(Feed::Closed) || ev.last() == FeedEvent::Published(
            false,
        ),
{
}

} // verus!
