//! One control connection of the file server: what is received is cut into
//! commands, and each is carried out in turn.
use vstd::prelude::*;

use crate::ftp_lines::{commands, framed, ControlLines, MAX_LINE};
use crate::ftpd::{ran, DataSide, FtpAction, FtpEvent, FtpPort, FtpRelay, FtpTap};
use crate::number::digits;
use crate::text::{opt_text, texts};

verus! {

/// The session of a client: what its commands ask for.
pub trait SessionPort {
    fn handle(&mut self, line: &str) -> FtpAction;
}

/// A session and the log of its commands.
pub struct SessionTap<S> {
    port: S,
    events: Ghost<Seq<(Seq<char>, FtpAction)>>,
}

impl<S: SessionPort> SessionTap<S> {
    /// The commands so far, and what each asked for.
    pub closed spec fn log(self) -> Seq<(Seq<char>, FtpAction)> {
        self.events@
    }

    pub fn new(port: S) -> (r: SessionTap<S>)
        ensures
            r.log() == Seq::<(Seq<char>, FtpAction)>::empty(),
    {
        SessionTap { port, events: Ghost(Seq::empty()) }
    }

    /// The session as it is now.
    pub closed spec fn inner(self) -> S {
        self.port
    }

    /// The session itself.
    pub fn port(&self) -> (r: &S)
        ensures
            *r == self.inner(),
    {
        &self.port
    }

    fn handle(&mut self, line: &str) -> (r: FtpAction)
        ensures
            final(self).log() == old(self).log().push((line@, r)),
    {
        let r = self.port.handle(line);
        self.events = Ghost(self.events@.push((line@, r)));
        r
    }
}

/// Who is talked to, and with what rights.
pub struct Side {
    pub read_only: bool,
    pub local: Option<(u8, u8, u8, u8)>,
    pub peer: Option<Seq<char>>,
}

/// One command of a conversation: where its events end, whether a data port is open
/// after it, and what it came to.
pub struct Turn {
    pub end: int,
    pub listening: bool,
    pub res: Result<bool, String>,
}

/// Where the events of a command begin.
pub open spec fn begins(turns: Seq<Turn>, i: int) -> int {
    if i <= 0 {
        0
    } else {
        turns[i - 1].end
    }
}

/// Whether a data port is open before a command.
pub open spec fn open_before(turns: Seq<Turn>, i: int, at_first: bool) -> bool {
    if i <= 0 {
        at_first
    } else {
        turns[i - 1].listening
    }
}

/// The command at `i` was carried out by its own part of `ev`.
pub open spec fn turn_taken(
    ev: Seq<FtpEvent>,
    asked: Seq<(Seq<char>, FtpAction)>,
    turns: Seq<Turn>,
    i: int,
    side: Side,
    at_first: bool,
) -> bool {
    &&& 0 <= begins(turns, i) <= turns[i].end <= ev.len()
    &&& ran(
        ev.subrange(begins(turns, i), turns[i].end),
        asked[i].1,
        side.read_only,
        side.local,
        DataSide { listening: open_before(turns, i, at_first), peer: side.peer },
        turns[i].listening,
        turns[i].res,
    )
}

/// `turns` carries out the commands of `asked`, one after the other, by all of `ev`;
/// each but the last leaves the connection open.
pub open spec fn turns_taken(
    ev: Seq<FtpEvent>,
    asked: Seq<(Seq<char>, FtpAction)>,
    turns: Seq<Turn>,
    side: Side,
    at_first: bool,
) -> bool {
    &&& turns.len() == asked.len()
    &&& begins(turns, turns.len() as int) == ev.len()
    &&& forall|i: int|
        0 <= i < turns.len() ==> #[trigger] turn_taken(ev, asked, turns, i, side, at_first)
    &&& forall|i: int|
        0 <= i < turns.len() - 1 ==> (#[trigger] turns[i]).res == Ok::<bool, String>(false)
}

/// The commands that were carried out are the first of those received.
pub open spec fn first_of(
    asked: Seq<(Seq<char>, FtpAction)>,
    received: Seq<Seq<char>>,
) -> bool {
    &&& asked.len() <= received.len()
    &&& forall|i: int| 0 <= i < asked.len() ==> (#[trigger] asked[i]).0 == received[i]
}

/// Every command so far left the connection open.
pub open spec fn all_open(turns: Seq<Turn>) -> bool {
    turns.len() == 0 || turns.last().res == Ok::<bool, String>(false)
}

/// `r` is what comes of what was received: the end of the connection where a command
/// closed it, the error where one broke off, and else that it goes on, unless too
/// much is held without an end of line.
pub open spec fn heard(
    asked: Seq<(Seq<char>, FtpAction)>,
    received: Seq<Seq<char>>,
    turns: Seq<Turn>,
    held: nat,
    r: Result<bool, String>,
) -> bool {
    if all_open(turns) {
        &&& asked.len() == received.len()
        &&& if held > MAX_LINE {
            r matches Err(e) && e@ == "client is holding "@ + digits(held)
                + " bytes with no end of line in them"@
        } else {
            r == Ok::<bool, String>(false)
        }
    } else {
        r == turns.last().res
    }
}

/// A turn that was taken stays taken as the log grows and more turns follow.
proof fn lemma_turn_stays(
    ev: Seq<FtpEvent>,
    more: Seq<FtpEvent>,
    asked: Seq<(Seq<char>, FtpAction)>,
    a: (Seq<char>, FtpAction),
    turns: Seq<Turn>,
    t: Turn,
    i: int,
    side: Side,
    at_first: bool,
)
    requires
        0 <= i < turns.len(),
        turns.len() == asked.len(),
        turn_taken(ev, asked, turns, i, side, at_first),
    ensures
        turn_taken(ev + more, asked.push(a), turns.push(t), i, side, at_first),
{
    let ts = turns.push(t);
    assert(ts[i] == turns[i]);
    if i > 0 {
        assert(ts[i - 1] == turns[i - 1]);
    }
    assert(asked.push(a)[i] == asked[i]);
    assert((ev + more).subrange(begins(ts, i), ts[i].end) =~= ev.subrange(
        begins(turns, i),
        turns[i].end,
    ));
}

impl FtpRelay {
    /// Take in what a client sent: each command that is now whole is handed to the
    /// session and carried out before the next. Whether the connection is over.
    pub fn hear<P: FtpPort, S: SessionPort>(
        &self,
        tap: &mut FtpTap<P>,
        session: &mut SessionTap<S>,
        lines: &mut ControlLines,
        chunk: &[u8],
        listening: &mut bool,
        local: Option<(u8, u8, u8, u8)>,
        peer: &Option<String>,
    ) -> (r: Result<bool, String>)
        ensures
            old(tap).log().is_prefix_of(final(tap).log()),
            old(session).log().is_prefix_of(final(session).log()),
            final(lines).held() == framed(old(lines).held(), chunk@).1,
            first_of(
                final(session).log().skip(old(session).log().len() as int),
                commands(framed(old(lines).held(), chunk@).0),
            ),
            exists|turns: Seq<Turn>|
                {
                    &&& #[trigger] turns_taken(
                        final(tap).log().skip(old(tap).log().len() as int),
                        final(session).log().skip(old(session).log().len() as int),
                        turns,
                        Side {
                            read_only: self.refuses_writes(),
                            local,
                            peer: opt_text(*peer),
                        },
                        *old(listening),
                    )
                    &&& *final(listening) == open_before(
                        turns,
                        turns.len() as int,
                        *old(listening),
                    )
                    &&& heard(
                        final(session).log().skip(old(session).log().len() as int),
                        commands(framed(old(lines).held(), chunk@).0),
                        turns,
                        final(lines).held().len(),
                        r,
                    )
                },
    {
        let ghost start = tap.log();
        let ghost asked0 = session.log();
        let ghost first = *listening;
        let ghost side = Side { read_only: self.refuses_writes(), local, peer: opt_text(*peer) };
        let ghost received = commands(framed(lines.held(), chunk@).0);
        let cmds = lines.feed(chunk);
        let ghost mut turns: Seq<Turn> = Seq::empty();
        let mut i: usize = 0;
        proof {
            assert(tap.log().skip(start.len() as int) =~= Seq::<FtpEvent>::empty());
            assert(session.log().skip(asked0.len() as int) =~= Seq::<
                (Seq<char>, FtpAction),
            >::empty());
            assert(texts(cmds@).len() == cmds@.len());
        }
        while i < cmds.len()
            invariant
                i <= cmds@.len(),
                texts(cmds@) == received,
                received.len() == cmds@.len(),
                received == commands(framed(old(lines).held(), chunk@).0),
                lines.held() == framed(old(lines).held(), chunk@).1,
                start == old(tap).log(),
                asked0 == old(session).log(),
                first == *old(listening),
                side == (Side {
                    read_only: self.refuses_writes(),
                    local,
                    peer: opt_text(*peer),
                }),
                start.is_prefix_of(tap.log()),
                asked0.is_prefix_of(session.log()),
                session.log().len() == asked0.len() + i,
                first_of(session.log().skip(asked0.len() as int), received),
                turns.len() == i,
                turns_taken(
                    tap.log().skip(start.len() as int),
                    session.log().skip(asked0.len() as int),
                    turns,
                    side,
                    first,
                ),
                *listening == open_before(turns, turns.len() as int, first),
                all_open(turns),
            decreases cmds@.len() - i,
        {
            let ghost ev = tap.log().skip(start.len() as int);
            let ghost asked = session.log().skip(asked0.len() as int);
            let ghost log0 = tap.log();
            let ghost was = *listening;
            let action = session.handle(cmds[i].as_str());
            let res = self.run(tap, &action, listening, local, peer);
            proof {
                let more = tap.log().skip(log0.len() as int);
                let now = tap.log().skip(start.len() as int);
                assert(now =~= ev + more);
                assert(tap.log().subrange(0, start.len() as int) =~= log0.subrange(
                    0,
                    start.len() as int,
                ));
                let a = (cmds@[i as int]@, action);
                let asked_now = session.log().skip(asked0.len() as int);
                assert(asked_now =~= asked.push(a));
                let t = Turn { end: now.len() as int, listening: *listening, res };
                let ts = turns.push(t);
                assert forall|k: int| 0 <= k < ts.len() implies #[trigger] turn_taken(
                    now,
                    asked_now,
                    ts,
                    k,
                    side,
                    first,
                ) by {
                    if k < turns.len() {
                        assert(turn_taken(ev, asked, turns, k, side, first));
                        lemma_turn_stays(ev, more, asked, a, turns, t, k, side, first);
                    } else {
                        if k > 0 {
                            assert(ts[k - 1] == turns[k - 1]);
                        }
                        assert(begins(ts, k) == ev.len());
                        assert(now.subrange(ev.len() as int, now.len() as int) =~= more);
                    }
                }
                assert forall|k: int| 0 <= k < ts.len() - 1 implies (#[trigger] ts[k]).res == Ok::<
                    bool,
                    String,
                >(false) by {
                    assert(ts[k] == turns[k]);
                }
                assert(texts(cmds@)[i as int] == cmds@[i as int]@);
                turns = ts;
                assert(turns.last() == t);
                assert(turns_taken(now, asked_now, turns, side, first));
            }
            match res {
                Err(e) => {
                    return Err(e);
                },
                Ok(true) => {
                    return Ok(true);
                },
                Ok(false) => {},
            }
            i += 1;
        }
        match lines.overlong() {
            Some(why) => Err(why),
            None => Ok(false),
        }
    }
}

/// A client that sends several commands at once has each of them answered, and in
/// order: once all were carried out, there is a turn for each.
pub proof fn every_command_is_answered(
    ev: Seq<FtpEvent>,
    asked: Seq<(Seq<char>, FtpAction)>,
    received: Seq<Seq<char>>,
    turns: Seq<Turn>,
    side: Side,
    at_first: bool,
    held: nat,
    i: int,
)
    requires
        turns_taken(ev, asked, turns, side, at_first),
        first_of(asked, received),
        heard(asked, received, turns, held, Ok(false)),
        0 <= i < received.len(),
    ensures
        turns.len() == received.len(),
        asked[i].0 == received[i],
        turn_taken(ev, asked, turns, i, side, at_first),
        ev.subrange(begins(turns, i), turns[i].end).last() is Replied,
{
    assert(all_open(turns));
    assert(turn_taken(ev, asked, turns, i, side, at_first));
    assert(turns[i].res == Ok::<bool, String>(false));
    crate::ftpd::a_command_gets_exactly_one_final_reply(
        ev.subrange(begins(turns, i), turns[i].end),
        asked[i].1,
        side.read_only,
        side.local,
        DataSide { listening: open_before(turns, i, at_first), peer: side.peer },
        turns[i].listening,
        turns[i].res,
    );
}

} // verus!
