//! One client of the emulated printer: its packets in, the printer's reports out.
//!
//! What is done outside goes through a [`ClientPort`], and a [`ClientTap`] keeps
//! the log of it. What serving a client does is stated by a machine that reads
//! that log.
use vstd::prelude::*;

use crate::number::{decimal, digits};
use crate::text::join3;

verus! {

/// The most that is held of a packet: nothing a printer is told comes near it.
pub const MAX_PACKET: usize = 4_194_304;

/// A report on its way to the clients.
#[derive(Debug)]
pub enum Fanout {
    /// The printer's own: everyone who asked for reports gets it.
    All(Vec<u8>),
    /// The answer to a command: it is for the client that gave the command.
    One(u64, Vec<u8>),
}

/// What a client's task waits for.
#[derive(Debug)]
pub enum ClientInput {
    /// Bytes from the client; none once it has gone.
    Bytes(Vec<u8>),
    ReadFailed(String),
    /// The client was silent for as long as it may be.
    Silent,
    Report(Fanout),
    /// The client fell so many reports behind.
    Lagged(u64),
    /// There will be no more reports.
    Closed,
}

/// What a packet of a client comes to.
#[derive(Debug)]
pub struct Response {
    /// Packets for the client.
    pub send: Vec<Vec<u8>>,
    /// Requests for the printer.
    pub upstream: Vec<String>,
    pub close: bool,
}

/// What serving a client asks of the outside.
pub trait ClientPort {
    /// The seconds the client said it would not be silent for longer than; 0 where
    /// it said nothing.
    fn keep_alive(&mut self) -> u16;

    /// Wait for what comes first, for a read no longer than so many milliseconds.
    fn next(&mut self, limit_ms: Option<u64>) -> ClientInput;

    /// How many bytes the first packet takes up; none where it is not whole.
    fn decode(&mut self, buf: &Vec<u8>) -> Result<Option<usize>, String>;

    /// Carry out the packet that was decoded last.
    fn handle(&mut self) -> Response;

    /// The request under a sequence number of its own.
    fn rewrite(&mut self, payload: &str) -> String;

    /// Send a request to the printer.
    fn forward(&mut self, payload: &str);

    fn write(&mut self, bytes: &Vec<u8>) -> Result<(), String>;

    fn flush(&mut self) -> Result<(), String>;

    /// Whether the client asked for reports.
    fn wants_reports(&mut self) -> bool;

    /// The printer's whole state, as a packet; none where it is not known yet.
    fn snapshot(&mut self) -> Option<Vec<u8>>;
}

/// One thing that was asked of the outside and its answer.
#[allow(inconsistent_fields)]
pub enum ClientEvent {
    KeepAlive(u16),
    Input { limit_ms: Option<u64>, input: ClientInput },
    Decoded { buf: Seq<u8>, res: Result<Option<usize>, String> },
    Handled(Response),
    Rewritten { payload: Seq<char>, out: Seq<char> },
    Forwarded(Seq<char>),
    Wrote { bytes: Seq<u8>, res: Result<(), String> },
    Flushed(Result<(), String>),
    Wants(bool),
    Snapshot(Option<Seq<u8>>),
}

pub open spec fn opt_bytes(v: Option<Vec<u8>>) -> Option<Seq<u8>> {
    match v {
        Some(b) => Some(b@),
        None => None,
    }
}

/// A port and the log of what went through it.
pub struct ClientTap<P> {
    port: P,
    events: Ghost<Seq<ClientEvent>>,
}

impl<P: ClientPort> ClientTap<P> {
    /// What went through the port so far.
    pub closed spec fn log(self) -> Seq<ClientEvent> {
        self.events@
    }

    /// The port as it is now.
    pub closed spec fn inner(self) -> P {
        self.port
    }

    pub fn new(port: P) -> (r: ClientTap<P>)
        ensures
            r.inner() == port,
            r.log() == Seq::<ClientEvent>::empty(),
    {
        ClientTap { port, events: Ghost(Seq::empty()) }
    }

    /// The port again.
    pub fn into_port(self) -> (r: P)
        ensures
            r == self.inner(),
    {
        self.port
    }

    fn keep_alive(&mut self) -> (r: u16)
        ensures
            final(self).log() == old(self).log().push(ClientEvent::KeepAlive(r)),
    {
        let r: u16 = self.port.keep_alive();
        self.events = Ghost(self.events@.push(ClientEvent::KeepAlive(r)));
        r
    }

    fn next(&mut self, limit_ms: Option<u64>) -> (r: ClientInput)
        ensures
            final(self).log() == old(self).log().push(ClientEvent::Input { limit_ms, input: r }),
    {
        let r = self.port.next(limit_ms);
        self.events = Ghost(self.events@.push(ClientEvent::Input { limit_ms, input: r }));
        r
    }

    fn decode(&mut self, buf: &Vec<u8>) -> (r: Result<Option<usize>, String>)
        ensures
            final(self).log() == old(self).log().push(ClientEvent::Decoded { buf: buf@, res: r }),
    {
        let r = self.port.decode(buf);
        self.events = Ghost(self.events@.push(ClientEvent::Decoded { buf: buf@, res: r }));
        r
    }

    fn handle(&mut self) -> (r: Response)
        ensures
            final(self).log() == old(self).log().push(ClientEvent::Handled(r)),
    {
        let r = self.port.handle();
        self.events = Ghost(self.events@.push(ClientEvent::Handled(r)));
        r
    }

    fn rewrite(&mut self, payload: &str) -> (r: String)
        ensures
            final(self).log() == old(self).log().push(
                ClientEvent::Rewritten { payload: payload@, out: r@ },
            ),
    {
        let r = self.port.rewrite(payload);
        self.events =
        Ghost(self.events@.push(ClientEvent::Rewritten { payload: payload@, out: r@ }));
        r
    }

    fn forward(&mut self, payload: &str)
        ensures
            final(self).log() == old(self).log().push(ClientEvent::Forwarded(payload@)),
    {
        self.port.forward(payload);
        self.events = Ghost(self.events@.push(ClientEvent::Forwarded(payload@)));
    }

    fn write(&mut self, bytes: &Vec<u8>) -> (r: Result<(), String>)
        ensures
            final(self).log() == old(self).log().push(ClientEvent::Wrote { bytes: bytes@, res: r }),
    {
        let r = self.port.write(bytes);
        self.events = Ghost(self.events@.push(ClientEvent::Wrote { bytes: bytes@, res: r }));
        r
    }

    fn flush(&mut self) -> (r: Result<(), String>)
        ensures
            final(self).log() == old(self).log().push(ClientEvent::Flushed(r)),
    {
        let r = self.port.flush();
        self.events = Ghost(self.events@.push(ClientEvent::Flushed(r)));
        r
    }

    fn wants_reports(&mut self) -> (r: bool)
        ensures
            final(self).log() == old(self).log().push(ClientEvent::Wants(r)),
    {
        let r: bool = self.port.wants_reports();
        self.events = Ghost(self.events@.push(ClientEvent::Wants(r)));
        r
    }

    fn snapshot(&mut self) -> (r: Option<Vec<u8>>)
        ensures
            final(self).log() == old(self).log().push(ClientEvent::Snapshot(opt_bytes(r))),
    {
        let r = self.port.snapshot();
        self.events = Ghost(self.events@.push(ClientEvent::Snapshot(opt_bytes(r))));
        r
    }
}

// ── The machine ─────────────────────────────────────────────────────────────

/// How serving a client ended: in order, or with why it broke off.
pub type Ended = Result<(), Seq<char>>;

/// Where serving a client stands. The bytes are what is held of its next packet.
#[allow(inconsistent_fields)]
pub enum Stand {
    /// About to wait.
    Idle(Seq<u8>),
    /// Waiting, with what the client said of its silence.
    Waiting(Seq<u8>, u16),
    Decoding(Seq<u8>),
    Handling(Seq<u8>),
    /// With so many of the answers sent.
    Answering(Seq<u8>, Response, int),
    /// With so many of the requests passed on.
    Requesting(Seq<u8>, Response, int),
    /// With a request under its own number, to be passed on.
    Passing(Seq<u8>, Response, int, Seq<char>),
    /// To flush, and to end then.
    Closing,
    /// To flush, and to go on.
    Flushing(Seq<u8>),
    /// With a report for this client, or for all.
    Reporting(Seq<u8>, Seq<u8>, bool),
    /// With a client that is to be brought up to date.
    Resyncing(Seq<u8>),
    Snapshotting(Seq<u8>),
    /// With a report to write.
    Writing(Seq<u8>, Seq<u8>),
    Over(Ended),
    /// Something else was done.
    Astray,
}

/// How long a client may be silent, in milliseconds: half again what it said.
pub open spec fn silence_limit(keep_alive: u16) -> Option<u64> {
    if keep_alive == 0 {
        None
    } else {
        Some((keep_alive as u64 * 1500) as u64)
    }
}

pub open spec fn too_much() -> Seq<char> {
    "client sent more than "@ + digits(MAX_PACKET as nat) + " bytes without a complete packet"@
}

pub open spec fn too_silent(keep_alive: u16) -> Seq<char> {
    "silent for more than 1.5× the "@ + digits(keep_alive as nat) + "s keep-alive"@
}

/// How much of what is held a packet takes up: at least a byte, at most all.
pub open spec fn taken(used: usize, held: nat) -> nat {
    if used > held {
        held
    } else if used == 0 {
        1
    } else {
        used as nat
    }
}

/// With so many of the answers sent: the next one, or on to the requests.
pub open spec fn answering(buf: Seq<u8>, r: Response, i: int) -> Stand {
    if i < r.send@.len() {
        Stand::Answering(buf, r, i)
    } else {
        requesting(buf, r, 0)
    }
}

/// With so many of the requests passed on: the next one, or on to the next
/// packet, or to the end.
pub open spec fn requesting(buf: Seq<u8>, r: Response, j: int) -> Stand {
    if j < r.upstream@.len() {
        Stand::Requesting(buf, r, j)
    } else if r.close {
        Stand::Closing
    } else {
        Stand::Decoding(buf)
    }
}

/// What serving a client does where it stands, and where that takes it.
pub open spec fn step(id: u64, s: Stand, e: ClientEvent) -> Stand {
    match (s, e) {
        (Stand::Idle(buf), ClientEvent::KeepAlive(k)) => Stand::Waiting(buf, k),
        (Stand::Waiting(buf, k), ClientEvent::Input { limit_ms, input }) => if limit_ms
            != silence_limit(k) {
            Stand::Astray
        } else {
            match input {
                ClientInput::Bytes(b) => if b@.len() == 0 {
                    Stand::Over(Ok(()))
                } else if buf.len() + b@.len() > MAX_PACKET {
                    Stand::Over(Err(too_much()))
                } else {
                    Stand::Decoding(buf + b@)
                },
                ClientInput::ReadFailed(e) => Stand::Over(Err(e@)),
                ClientInput::Silent => Stand::Over(Err(too_silent(k))),
                ClientInput::Report(Fanout::All(b)) => Stand::Reporting(buf, b@, true),
                ClientInput::Report(Fanout::One(to, b)) => Stand::Reporting(buf, b@, to == id),
                ClientInput::Lagged(_) => Stand::Resyncing(buf),
                ClientInput::Closed => Stand::Over(Ok(())),
            }
        },
        (Stand::Decoding(buf), ClientEvent::Decoded { buf: b, res }) => if b != buf {
            Stand::Astray
        } else {
            match res {
                Err(e) => Stand::Over(Err(e@)),
                Ok(None) => Stand::Flushing(buf),
                Ok(Some(used)) => if buf.len() == 0 {
                    Stand::Flushing(buf)
                } else {
                    Stand::Handling(buf.skip(taken(used, buf.len()) as int))
                },
            }
        },
        (Stand::Handling(buf), ClientEvent::Handled(r)) => answering(buf, r, 0),
        (Stand::Answering(buf, r, i), ClientEvent::Wrote { bytes, res }) => if bytes
            != r.send@[i]@ {
            Stand::Astray
        } else {
            match res {
                Ok(_) => answering(buf, r, i + 1),
                Err(e) => Stand::Over(Err(e@)),
            }
        },
        (Stand::Requesting(buf, r, j), ClientEvent::Rewritten { payload, out }) => if payload
            != r.upstream@[j]@ {
            Stand::Astray
        } else {
            Stand::Passing(buf, r, j, out)
        },
        (Stand::Passing(buf, r, j, out), ClientEvent::Forwarded(p)) => if p != out {
            Stand::Astray
        } else {
            requesting(buf, r, j + 1)
        },
        (Stand::Closing, ClientEvent::Flushed(res)) => match res {
            Ok(_) => Stand::Over(Ok(())),
            Err(e) => Stand::Over(Err(e@)),
        },
        (Stand::Flushing(buf), ClientEvent::Flushed(res)) => match res {
            Ok(_) => Stand::Idle(buf),
            Err(e) => Stand::Over(Err(e@)),
        },
        (Stand::Reporting(buf, b, mine), ClientEvent::Wants(w)) => if w && mine {
            Stand::Writing(buf, b)
        } else {
            Stand::Idle(buf)
        },
        (Stand::Resyncing(buf), ClientEvent::Wants(w)) => if w {
            Stand::Snapshotting(buf)
        } else {
            Stand::Idle(buf)
        },
        (Stand::Snapshotting(buf), ClientEvent::Snapshot(s)) => match s {
            Some(b) => Stand::Writing(buf, b),
            None => Stand::Idle(buf),
        },
        (Stand::Writing(buf, b), ClientEvent::Wrote { bytes, res }) => if bytes != b {
            Stand::Astray
        } else {
            match res {
                Ok(_) => Stand::Flushing(buf),
                Err(e) => Stand::Over(Err(e@)),
            }
        },
        _ => Stand::Astray,
    }
}

/// Where doing all of `ev` takes the serving of a client.
pub open spec fn run_to(id: u64, s: Stand, ev: Seq<ClientEvent>) -> Stand
    decreases ev.len(),
{
    if ev.len() == 0 {
        s
    } else {
        step(id, run_to(id, s, ev.drop_last()), ev.last())
    }
}

/// Where the serving of a client stands, from its beginning.
pub open spec fn stands(id: u64, start: Seq<ClientEvent>, log: Seq<ClientEvent>) -> Stand {
    run_to(id, Stand::Idle(Seq::empty()), log.skip(start.len() as int))
}

proof fn lemma_step(id: u64, start: Seq<ClientEvent>, log: Seq<ClientEvent>, e: ClientEvent)
    requires
        start.is_prefix_of(log),
    ensures
        start.is_prefix_of(log.push(e)),
        stands(id, start, log.push(e)) == step(id, stands(id, start, log), e),
{
    let all = log.push(e).skip(start.len() as int);
    assert(all.drop_last() =~= log.skip(start.len() as int));
    assert(all.last() == e);
}

pub open spec fn ended_view(r: Result<(), String>) -> Ended {
    match r {
        Ok(_) => Ok(()),
        Err(e) => Err(e@),
    }
}

/// A part of the work is done: on with what is held, or over.
pub open spec fn went_on(r: Result<(), String>, buf: Seq<u8>, s: Stand) -> bool {
    match r {
        Ok(_) => s == Stand::Idle(buf),
        Err(e) => s == Stand::Over(Err(e@)),
    }
}

fn write_report<P: ClientPort>(
    tap: &mut ClientTap<P>,
    bytes: &Vec<u8>,
    Ghost(id): Ghost<u64>,
    Ghost(start): Ghost<Seq<ClientEvent>>,
    Ghost(buf): Ghost<Seq<u8>>,
) -> (r: Result<(), String>)
    requires
        start.is_prefix_of(old(tap).log()),
        stands(id, start, old(tap).log()) == Stand::Writing(buf, bytes@),
    ensures
        start.is_prefix_of(final(tap).log()),
        waits(final(tap).log().skip(start.len() as int)) == waits(
            old(tap).log().skip(start.len() as int),
        ),
        went_on(r, buf, stands(id, start, final(tap).log())),
{
    let ghost before = tap.log();
    let w = tap.write(bytes);
    proof {
        lemma_step(id, start, before, ClientEvent::Wrote { bytes: bytes@, res: w });
        lemma_waits(start, before, ClientEvent::Wrote { bytes: bytes@, res: w });
    }
    if let Err(e) = w {
        return Err(e);
    }
    let ghost before = tap.log();
    let f = tap.flush();
    proof {
        lemma_step(id, start, before, ClientEvent::Flushed(f));
        lemma_waits(start, before, ClientEvent::Flushed(f));
    }
    f
}

fn answer<P: ClientPort>(
    tap: &mut ClientTap<P>,
    resp: &Response,
    Ghost(id): Ghost<u64>,
    Ghost(start): Ghost<Seq<ClientEvent>>,
    Ghost(buf): Ghost<Seq<u8>>,
) -> (r: Result<(), String>)
    requires
        start.is_prefix_of(old(tap).log()),
        stands(id, start, old(tap).log()) == answering(buf, *resp, 0),
    ensures
        start.is_prefix_of(final(tap).log()),
        waits(final(tap).log().skip(start.len() as int)) == waits(
            old(tap).log().skip(start.len() as int),
        ),
        match r {
            Ok(_) => stands(id, start, final(tap).log()) == (if resp.close {
                Stand::Closing
            } else {
                Stand::Decoding(buf)
            }),
            Err(e) => stands(id, start, final(tap).log()) == Stand::Over(Err(e@)),
        },
{
    let mut i: usize = 0;
    while i < resp.send.len()
        invariant
            i <= resp.send@.len(),
            start.is_prefix_of(tap.log()),
            waits(tap.log().skip(start.len() as int)) == waits(
                old(tap).log().skip(start.len() as int),
            ),
            stands(id, start, tap.log()) == answering(buf, *resp, i as int),
        decreases resp.send@.len() - i,
    {
        let ghost before = tap.log();
        let w = tap.write(&resp.send[i]);
        proof {
            lemma_step(id, start, before, ClientEvent::Wrote { bytes: resp.send@[i as int]@, res: w });
            lemma_waits(start, before, ClientEvent::Wrote { bytes: resp.send@[i as int]@, res: w });
        }
        if let Err(e) = w {
            return Err(e);
        }
        i += 1;
    }
    let mut j: usize = 0;
    while j < resp.upstream.len()
        invariant
            j <= resp.upstream@.len(),
            start.is_prefix_of(tap.log()),
            waits(tap.log().skip(start.len() as int)) == waits(
                old(tap).log().skip(start.len() as int),
            ),
            stands(id, start, tap.log()) == requesting(buf, *resp, j as int),
        decreases resp.upstream@.len() - j,
    {
        let ghost before = tap.log();
        let out = tap.rewrite(resp.upstream[j].as_str());
        proof {
            lemma_step(
                id,
                start,
                before,
                ClientEvent::Rewritten { payload: resp.upstream@[j as int]@, out: out@ },
            );
            lemma_waits(start,
                before,
                ClientEvent::Rewritten { payload: resp.upstream@[j as int]@, out: out@ },
            );
        }
        let ghost before = tap.log();
        tap.forward(out.as_str());
        proof {
            lemma_step(id, start, before, ClientEvent::Forwarded(out@));
            lemma_waits(start, before, ClientEvent::Forwarded(out@));
        }
        j += 1;
    }
    Ok(())
}

/// Take every whole packet out of what is held, and carry it out. Whether the
/// client is to be served on.
fn take_packets<P: ClientPort>(
    tap: &mut ClientTap<P>,
    buf: &mut Vec<u8>,
    Ghost(id): Ghost<u64>,
    Ghost(start): Ghost<Seq<ClientEvent>>,
) -> (r: Result<bool, String>)
    requires
        start.is_prefix_of(old(tap).log()),
        stands(id, start, old(tap).log()) == Stand::Decoding(old(buf)@),
        old(buf)@.len() <= MAX_PACKET,
    ensures
        start.is_prefix_of(final(tap).log()),
        waits(final(tap).log().skip(start.len() as int)) == waits(
            old(tap).log().skip(start.len() as int),
        ),
        final(buf)@.len() <= MAX_PACKET,
        match r {
            Ok(true) => stands(id, start, final(tap).log()) == Stand::Idle(final(buf)@),
            Ok(false) => stands(id, start, final(tap).log()) == Stand::Over(Ok(())),
            Err(e) => stands(id, start, final(tap).log()) == Stand::Over(Err(e@)),
        },
{
    loop
        invariant
            start.is_prefix_of(tap.log()),
            waits(tap.log().skip(start.len() as int)) == waits(
                old(tap).log().skip(start.len() as int),
            ),
            stands(id, start, tap.log()) == Stand::Decoding(buf@),
            buf@.len() <= MAX_PACKET,
        decreases buf@.len(),
    {
        let ghost before = tap.log();
        let decoded = tap.decode(buf);
        proof {
            lemma_step(id, start, before, ClientEvent::Decoded { buf: buf@, res: decoded });
            lemma_waits(start, before, ClientEvent::Decoded { buf: buf@, res: decoded });
        }
        let used: usize = match decoded {
            Err(e) => {
                return Err(e);
            },
            Ok(None) => 0,
            Ok(Some(n)) => if n > buf.len() {
                buf.len()
            } else if n == 0 && buf.len() > 0 {
                1
            } else {
                n
            },
        };
        if used == 0 {
            let ghost before = tap.log();
            let f = tap.flush();
            proof {
                lemma_step(id, start, before, ClientEvent::Flushed(f));
                lemma_waits(start, before, ClientEvent::Flushed(f));
            }
            return match f {
                Ok(_) => Ok(true),
                Err(e) => Err(e),
            };
        }
        let ghost held = buf@;
        let rest = buf.split_off(used);
        proof {
            assert(rest@ =~= held.skip(taken(decoded->Ok_0->0, held.len()) as int));
        }
        *buf = rest;
        let ghost before = tap.log();
        let resp = tap.handle();
        proof {
            lemma_step(id, start, before, ClientEvent::Handled(resp));
            lemma_waits(start, before, ClientEvent::Handled(resp));
        }
        if let Err(e) = answer(tap, &resp, Ghost(id), Ghost(start), Ghost(buf@)) {
            return Err(e);
        }
        if resp.close {
            let ghost before = tap.log();
            let f = tap.flush();
            proof {
                lemma_step(id, start, before, ClientEvent::Flushed(f));
                lemma_waits(start, before, ClientEvent::Flushed(f));
            }
            return match f {
                Ok(_) => Ok(false),
                Err(e) => Err(e),
            };
        }
    }
}

/// How often a client was waited for.
pub open spec fn waits(ev: Seq<ClientEvent>) -> int
    decreases ev.len(),
{
    if ev.len() == 0 {
        0
    } else {
        waits(ev.drop_last()) + (if ev.last() is Input {
            1int
        } else {
            0int
        })
    }
}

proof fn lemma_waits(start: Seq<ClientEvent>, log: Seq<ClientEvent>, e: ClientEvent)
    requires
        start.is_prefix_of(log),
    ensures
        waits(log.push(e).skip(start.len() as int)) == waits(log.skip(start.len() as int)) + (
        if e is Input {
            1int
        } else {
            0int
        }),
{
    let all = log.push(e).skip(start.len() as int);
    assert(all.drop_last() =~= log.skip(start.len() as int));
    assert(all.last() == e);
}

/// Hold more of a packet.
pub(crate) fn hold(buf: &mut Vec<u8>, b: &Vec<u8>)
    ensures
        final(buf)@ == old(buf)@ + b@,
{
    let mut i: usize = 0;
    let ghost had = buf@;
    while i < b.len()
        invariant
            i <= b@.len(),
            buf@ == had + b@.take(i as int),
        decreases b@.len() - i,
    {
        buf.push(b[i]);
        proof {
            assert(b@.take(i + 1) =~= b@.take(i as int).push(b@[i as int]));
            assert(buf@ =~= had + b@.take(i + 1));
        }
        i += 1;
    }
    proof {
        assert(b@.take(b@.len() as int) =~= b@);
    }
}

/// How many waits a client is served for at most.
pub const MOST_WAITS: u64 = u64::MAX;

/// Serve one client until it leaves or misbehaves: carry out its packets, pass
/// its requests on to the printer, each under a number of its own, and hand it the
/// reports that are for it. One that fell behind is handed the whole state, so
/// that it does not go on with a hole in what it knows.
pub fn serve_client<P: ClientPort>(tap: &mut ClientTap<P>, id: u64) -> (r: Result<(), String>)
    ensures
        old(tap).log().is_prefix_of(final(tap).log()),
        ({
            let end = stands(id, old(tap).log(), final(tap).log());
            end == Stand::Over(ended_view(r)) || (end is Idle && r is Ok && waits(
                final(tap).log().skip(old(tap).log().len() as int),
            ) == MOST_WAITS)
        }),
{
    let ghost start = tap.log();
    let mut buf: Vec<u8> = Vec::new();
    let mut rounds: u64 = 0;
    proof {
        assert(tap.log().skip(start.len() as int) =~= Seq::<ClientEvent>::empty());
        assert(buf@ =~= Seq::<u8>::empty());
    }
    while rounds < MOST_WAITS
        invariant
            start == old(tap).log(),
            start.is_prefix_of(tap.log()),
            stands(id, start, tap.log()) == Stand::Idle(buf@),
            buf@.len() <= MAX_PACKET,
            waits(tap.log().skip(start.len() as int)) == rounds,
        decreases MOST_WAITS - rounds,
    {
        let ghost before = tap.log();
        let keep: u16 = tap.keep_alive();
        proof {
            lemma_step(id, start, before, ClientEvent::KeepAlive(keep));
            lemma_waits(start, before, ClientEvent::KeepAlive(keep));
        }
        let limit: Option<u64> = if keep == 0 {
            None
        } else {
            Some(keep as u64 * 1500)
        };
        let ghost before = tap.log();
        let input = tap.next(limit);
        proof {
            lemma_step(id, start, before, ClientEvent::Input { limit_ms: limit, input });
            lemma_waits(start, before, ClientEvent::Input { limit_ms: limit, input });
        }
        match input {
            ClientInput::Bytes(b) => {
                if b.len() == 0 {
                    return Ok(());
                }
                if b.len() > MAX_PACKET || buf.len() + b.len() > MAX_PACKET {
                    let n = decimal(MAX_PACKET as u64);
                    return Err(
                        join3(
                            "client sent more than ",
                            n.as_str(),
                            " bytes without a complete packet",
                        ),
                    );
                }
                hold(&mut buf, &b);
                match take_packets(tap, &mut buf, Ghost(id), Ghost(start)) {
                    Ok(true) => {},
                    Ok(false) => {
                        return Ok(());
                    },
                    Err(e) => {
                        return Err(e);
                    },
                }
            },
            ClientInput::ReadFailed(e) => {
                return Err(e);
            },
            ClientInput::Silent => {
                let k = decimal(keep as u64);
                return Err(join3("silent for more than 1.5× the ", k.as_str(), "s keep-alive"));
            },
            ClientInput::Report(report) => {
                let (mine, bytes): (bool, Vec<u8>) = match report {
                    Fanout::All(bytes) => (true, bytes),
                    Fanout::One(to, bytes) => (to == id, bytes),
                };
                let ghost before = tap.log();
                let wants: bool = tap.wants_reports();
                proof {
                    lemma_step(id, start, before, ClientEvent::Wants(wants));
                    lemma_waits(start, before, ClientEvent::Wants(wants));
                }
                if wants && mine {
                    if let Err(e) = write_report(tap, &bytes, Ghost(id), Ghost(start), Ghost(buf@)) {
                        return Err(e);
                    }
                }
            },
            ClientInput::Lagged(_) => {
                let ghost before = tap.log();
                let wants: bool = tap.wants_reports();
                proof {
                    lemma_step(id, start, before, ClientEvent::Wants(wants));
                    lemma_waits(start, before, ClientEvent::Wants(wants));
                }
                if wants {
                    let ghost before = tap.log();
                    let whole = tap.snapshot();
                    proof {
                        lemma_step(id, start, before, ClientEvent::Snapshot(opt_bytes(whole)));
                        lemma_waits(start, before, ClientEvent::Snapshot(opt_bytes(whole)));
                    }
                    if let Some(bytes) = whole {
                        if let Err(e) = write_report(
                            tap,
                            &bytes,
                            Ghost(id),
                            Ghost(start),
                            Ghost(buf@),
                        ) {
                            return Err(e);
                        }
                    }
                }
            },
            ClientInput::Closed => {
                return Ok(());
            },
        }
        rounds += 1;
    }
    Ok(())
}

// ── The printer's reports ───────────────────────────────────────────────────

/// What comes from the printer.
#[derive(Clone, Copy, Debug, PartialEq, Eq, Structural)]
pub enum Upstream {
    /// A report, which the port holds.
    Report,
    /// Some were missed. The next whole state mends it.
    Lagged,
    /// There will be no more.
    Closed,
}

/// What passing reports on asks of the outside.
pub trait PumpPort {
    fn recv(&mut self) -> Upstream;

    /// Take the report into what is kept of the printer's state.
    fn apply(&mut self);

    /// The client that the report answers; none where it is for all.
    fn route(&mut self) -> Option<u64>;

    /// Put the report on its way to the clients.
    fn send(&mut self, to: Option<u64>);
}

/// One thing that was asked of the outside and its answer.
pub enum PumpEvent {
    Received(Upstream),
    Applied,
    Routed(Option<u64>),
    Sent(Option<u64>),
}

/// A port and the log of what went through it.
pub struct PumpTap<P> {
    port: P,
    events: Ghost<Seq<PumpEvent>>,
}

impl<P: PumpPort> PumpTap<P> {
    /// What went through the port so far.
    pub closed spec fn log(self) -> Seq<PumpEvent> {
        self.events@
    }

    pub fn new(port: P) -> (r: PumpTap<P>)
        ensures
            r.log() == Seq::<PumpEvent>::empty(),
    {
        PumpTap { port, events: Ghost(Seq::empty()) }
    }

    fn recv(&mut self) -> (r: Upstream)
        ensures
            final(self).log() == old(self).log().push(PumpEvent::Received(r)),
    {
        let r = self.port.recv();
        self.events = Ghost(self.events@.push(PumpEvent::Received(r)));
        r
    }

    fn apply(&mut self)
        ensures
            final(self).log() == old(self).log().push(PumpEvent::Applied),
    {
        self.port.apply();
        self.events = Ghost(self.events@.push(PumpEvent::Applied));
    }

    fn route(&mut self) -> (r: Option<u64>)
        ensures
            final(self).log() == old(self).log().push(PumpEvent::Routed(r)),
    {
        let r: Option<u64> = self.port.route();
        self.events = Ghost(self.events@.push(PumpEvent::Routed(r)));
        r
    }

    fn send(&mut self, to: Option<u64>)
        ensures
            final(self).log() == old(self).log().push(PumpEvent::Sent(to)),
    {
        self.port.send(to);
        self.events = Ghost(self.events@.push(PumpEvent::Sent(to)));
    }
}

/// One report, from its arrival to its way out. It is taken into what is kept
/// before it is routed: no client is answered from what is older than a report
/// that has come.
pub open spec fn passed_on(ev: Seq<PumpEvent>) -> bool {
    &&& ev.len() == 4
    &&& ev[0] == PumpEvent::Received(Upstream::Report)
    &&& ev[1] is Applied
    &&& ev[2] matches PumpEvent::Routed(to)
    &&& ev[3] == PumpEvent::Sent(to)
}

/// Pass one report on; whether there may be more. Reports that were missed leave
/// nothing to do.
pub fn pump_one<P: PumpPort>(tap: &mut PumpTap<P>) -> (r: bool)
    ensures
        old(tap).log().is_prefix_of(final(tap).log()),
        ({
            let ev = final(tap).log().skip(old(tap).log().len() as int);
            ||| r && passed_on(ev)
            ||| r && ev == seq![PumpEvent::Received(Upstream::Lagged)]
            ||| !r && ev == seq![PumpEvent::Received(Upstream::Closed)]
        }),
{
    let ghost start = tap.log();
    match tap.recv() {
        Upstream::Lagged => {
            proof {
                assert(tap.log().skip(start.len() as int) =~= seq![
                    PumpEvent::Received(Upstream::Lagged),
                ]);
            }
            true
        },
        Upstream::Closed => {
            proof {
                assert(tap.log().skip(start.len() as int) =~= seq![
                    PumpEvent::Received(Upstream::Closed),
                ]);
            }
            false
        },
        Upstream::Report => {
            tap.apply();
            let to: Option<u64> = tap.route();
            tap.send(to);
            true
        },
    }
}

// ── Laws ────────────────────────────────────────────────────────────────────

/// What is held of a client's next packet.
pub open spec fn held(s: Stand) -> nat {
    match s {
        Stand::Idle(b) => b.len(),
        Stand::Waiting(b, _) => b.len(),
        Stand::Decoding(b) => b.len(),
        Stand::Handling(b) => b.len(),
        Stand::Answering(b, _, _) => b.len(),
        Stand::Requesting(b, _, _) => b.len(),
        Stand::Passing(b, _, _, _) => b.len(),
        Stand::Flushing(b) => b.len(),
        Stand::Reporting(b, _, _) => b.len(),
        Stand::Resyncing(b) => b.len(),
        Stand::Snapshotting(b) => b.len(),
        Stand::Writing(b, _) => b.len(),
        _ => 0,
    }
}

/// No client makes the server hold more than a packet may be, whatever it sends.
pub proof fn what_is_held_stays_bounded(id: u64, ev: Seq<ClientEvent>)
    ensures
        held(run_to(id, Stand::Idle(Seq::empty()), ev)) <= MAX_PACKET,
    decreases ev.len(),
{
    if ev.len() > 0 {
        what_is_held_stays_bounded(id, ev.drop_last());
    }
}

/// Each event takes the serving of a client one step, and none that led astray
/// came before one that did not.
proof fn lemma_at(id: u64, s: Stand, ev: Seq<ClientEvent>, i: int)
    requires
        !(run_to(id, s, ev) is Astray),
        0 <= i < ev.len(),
    ensures
        run_to(id, s, ev.take(i + 1)) == step(id, run_to(id, s, ev.take(i)), ev[i]),
        !(run_to(id, s, ev.take(i + 1)) is Astray),
        !(run_to(id, s, ev.take(i)) is Astray),
    decreases ev.len(),
{
    let t = ev.take(i + 1);
    assert(t.drop_last() =~= ev.take(i));
    assert(t.last() == ev[i]);
    if i + 1 == ev.len() {
        assert(t =~= ev);
    } else {
        let less = ev.drop_last();
        lemma_at(id, s, less, i);
        assert(less.take(i + 1) =~= t);
        assert(less.take(i) =~= ev.take(i));
    }
}

/// A report for another client is not written to this one, and one that was not
/// asked for is not written at all: after either there is nothing to write.
pub proof fn a_report_reaches_whom_it_is_for(
    id: u64,
    ev: Seq<ClientEvent>,
    i: int,
    to: u64,
    bytes: Vec<u8>,
    limit_ms: Option<u64>,
)
    requires
        !(run_to(id, Stand::Idle(Seq::empty()), ev) is Astray),
        0 <= i < ev.len() - 1,
        ev[i] == (ClientEvent::Input {
            limit_ms,
            input: ClientInput::Report(Fanout::One(to, bytes)),
        }),
        to != id || ev[i + 1] == ClientEvent::Wants(false),
    ensures
        ev[i + 1] is Wants,
        run_to(id, Stand::Idle(Seq::empty()), ev.take(i + 2)) is Idle,
{
    let s = Stand::Idle(Seq::empty());
    lemma_at(id, s, ev, i);
    lemma_at(id, s, ev, i + 1);
}

/// No request of a client goes to the printer as the client numbered it: what is
/// passed on is what was just put under a number of its own.
pub proof fn a_request_is_renumbered(id: u64, ev: Seq<ClientEvent>, i: int)
    requires
        !(run_to(id, Stand::Idle(Seq::empty()), ev) is Astray),
        0 <= i < ev.len(),
        ev[i] is Forwarded,
    ensures
        i > 0,
        ev[i - 1] matches ClientEvent::Rewritten { payload, out } && ev[i]
            == ClientEvent::Forwarded(out),
{
    let s = Stand::Idle(Seq::empty());
    lemma_at(id, s, ev, i);
    if i == 0 {
        assert(ev.take(0) =~= Seq::<ClientEvent>::empty());
    } else {
        lemma_at(id, s, ev, i - 1);
    }
}

/// A report goes to whom it was routed: the answer to a client's command to that
/// client alone, and the printer's own reports to all. It goes out once, and only
/// after it was taken into what is kept.
pub proof fn a_report_goes_where_it_was_routed(ev: Seq<PumpEvent>, i: int)
    requires
        passed_on(ev),
        0 <= i < ev.len(),
    ensures
        ev[i] matches PumpEvent::Sent(to) ==> i > 0 && ev[i - 1] == PumpEvent::Routed(to),
        ev[i] matches PumpEvent::Routed(to) ==> i + 1 < ev.len() && ev[i + 1]
            == PumpEvent::Sent(to),
        exists|k: int| 0 <= k < ev.len() && (#[trigger] ev[k]) is Sent,
        forall|k: int, l: int|
            0 <= k < l < ev.len() ==> !((#[trigger] ev[k]) is Sent && (#[trigger] ev[l]) is Sent),
        ev[i] is Sent ==> exists|k: int| 0 <= k < i && (#[trigger] ev[k]) is Applied,
        ev[0] == PumpEvent::Received(Upstream::Report),
{
    assert(ev[3] is Sent);
    assert(ev[1] is Applied);
}

/// A report that is for this client, and that it asked for, is written to it as it
/// came; so is one that is for all.
pub proof fn a_report_is_written_as_it_came(
    id: u64,
    ev: Seq<ClientEvent>,
    i: int,
    report: Fanout,
    limit_ms: Option<u64>,
)
    requires
        !(run_to(id, Stand::Idle(Seq::empty()), ev) is Astray),
        0 <= i < ev.len() - 2,
        ev[i] == (ClientEvent::Input { limit_ms, input: ClientInput::Report(report) }),
        ev[i + 1] == ClientEvent::Wants(true),
        report is All || (report matches Fanout::One(to, _) && to == id),
    ensures
        ev[i + 2] matches ClientEvent::Wrote { bytes, res } && bytes == match report {
            Fanout::All(b) => b@,
            Fanout::One(_, b) => b@,
        },
{
    let s = Stand::Idle(Seq::empty());
    lemma_at(id, s, ev, i);
    lemma_at(id, s, ev, i + 1);
    lemma_at(id, s, ev, i + 2);
}

/// A client that fell behind and wants reports is brought up to date with the
/// printer's whole state.
pub proof fn a_client_that_fell_behind_is_brought_up_to_date(
    id: u64,
    ev: Seq<ClientEvent>,
    i: int,
    n: u64,
    limit_ms: Option<u64>,
)
    requires
        !(run_to(id, Stand::Idle(Seq::empty()), ev) is Astray),
        0 <= i < ev.len() - 3,
        ev[i] == (ClientEvent::Input { limit_ms, input: ClientInput::Lagged(n) }),
        ev[i + 1] == ClientEvent::Wants(true),
    ensures
        ev[i + 2] matches ClientEvent::Snapshot(state) && (state matches Some(b) ==> (
        ev[i + 3] matches ClientEvent::Wrote { bytes, res } && bytes == b)),
{
    let s = Stand::Idle(Seq::empty());
    lemma_at(id, s, ev, i);
    lemma_at(id, s, ev, i + 1);
    lemma_at(id, s, ev, i + 2);
    lemma_at(id, s, ev, i + 3);
}

/// A client is waited for no longer than half again the silence it announced, and
/// without end where it announced none.
pub proof fn a_silence_is_waited_for_half_again(
    id: u64,
    ev: Seq<ClientEvent>,
    i: int,
    limit_ms: Option<u64>,
    input: ClientInput,
)
    requires
        !(run_to(id, Stand::Idle(Seq::empty()), ev) is Astray),
        0 <= i < ev.len(),
        ev[i] == (ClientEvent::Input { limit_ms, input }),
    ensures
        i > 0,
        ev[i - 1] matches ClientEvent::KeepAlive(secs) && {
            &&& secs == 0 <==> limit_ms is None
            &&& limit_ms matches Some(ms) ==> 2 * ms == 3 * (secs * 1000)
        },
        input is Silent ==> run_to(id, Stand::Idle(Seq::empty()), ev.take(i + 1)) matches Stand::Over(
            Err(_),
        ),
{
    let s = Stand::Idle(Seq::empty());
    lemma_at(id, s, ev, i);
    if i == 0 {
        assert(ev.take(0) =~= Seq::<ClientEvent>::empty());
    } else {
        lemma_at(id, s, ev, i - 1);
    }
}

/// All the bytes that came from a client.
pub open spec fn came(ev: Seq<ClientEvent>) -> Seq<u8>
    decreases ev.len(),
{
    if ev.len() == 0 {
        Seq::empty()
    } else {
        match ev.last() {
            ClientEvent::Input { limit_ms: _, input: ClientInput::Bytes(b) } => came(ev.drop_last())
                + b@,
            _ => came(ev.drop_last()),
        }
    }
}

/// What is held of a client's bytes, where it is still served.
pub open spec fn buffer(s: Stand) -> Option<Seq<u8>> {
    match s {
        Stand::Idle(b) => Some(b),
        Stand::Waiting(b, _) => Some(b),
        Stand::Decoding(b) => Some(b),
        Stand::Handling(b) => Some(b),
        Stand::Answering(b, _, _) => Some(b),
        Stand::Requesting(b, _, _) => Some(b),
        Stand::Passing(b, _, _, _) => Some(b),
        Stand::Flushing(b) => Some(b),
        Stand::Reporting(b, _, _) => Some(b),
        Stand::Resyncing(b) => Some(b),
        Stand::Snapshotting(b) => Some(b),
        Stand::Writing(b, _) => Some(b),
        _ => None,
    }
}

/// How many bytes the packets took up that were carried out.
pub open spec fn used(ev: Seq<ClientEvent>) -> nat
    decreases ev.len(),
{
    if ev.len() == 0 {
        0
    } else {
        match ev.last() {
            ClientEvent::Decoded { buf, res: Ok(Some(n)) } => used(ev.drop_last()) + if n
                > buf.len() {
                buf.len()
            } else if n == 0 && buf.len() > 0 {
                1
            } else {
                n as nat
            },
            _ => used(ev.drop_last()),
        }
    }
}

proof fn lemma_held_is_what_came(id: u64, ev: Seq<ClientEvent>)
    ensures
        buffer(run_to(id, Stand::Idle(Seq::empty()), ev)) matches Some(b) ==> used(ev) <= came(
            ev,
        ).len() && b == came(ev).skip(used(ev) as int),
    decreases ev.len(),
{
    let s = Stand::Idle(Seq::empty());
    if ev.len() == 0 {
        assert(came(ev).skip(0) =~= Seq::<u8>::empty());
    } else {
        let less = ev.drop_last();
        lemma_held_is_what_came(id, less);
        let before = run_to(id, s, less);
        let now = run_to(id, s, ev);
        if buffer(now) is Some {
            assert(buffer(before) is Some);
            match ev.last() {
                ClientEvent::Input { limit_ms: _, input: ClientInput::Bytes(b) } => {
                    assert((came(less) + b@).skip(used(less) as int) =~= came(less).skip(
                        used(less) as int,
                    ) + b@);
                },
                ClientEvent::Decoded { buf, res: Ok(Some(n)) } => {
                    if buf.len() > 0 {
                        let k = taken(n, buf.len());
                        assert(came(less).skip(used(less) as int).skip(k as int) =~= came(less).skip(
                            (used(less) + k) as int,
                        ));
                    }
                },
                _ => {},
            }
        }
    }
}

/// No byte of a client is lost, made up or read twice: what is decoded is all that
/// came, without what the packets before took up.
pub proof fn every_byte_is_read_once(id: u64, ev: Seq<ClientEvent>, i: int)
    requires
        !(run_to(id, Stand::Idle(Seq::empty()), ev) is Astray),
        0 <= i < ev.len(),
        ev[i] is Decoded,
    ensures
        ev[i]->Decoded_buf == came(ev.take(i)).skip(used(ev.take(i)) as int),
{
    let s = Stand::Idle(Seq::empty());
    lemma_at(id, s, ev, i);
    lemma_held_is_what_came(id, ev.take(i));
}

/// Each packet is answered with what it came to: the answers are written in their
/// order, as long as writing them works.
pub proof fn a_packet_is_answered_in_order(id: u64, ev: Seq<ClientEvent>, i: int, r: Response, k: int)
    requires
        !(run_to(id, Stand::Idle(Seq::empty()), ev) is Astray),
        0 <= i,
        ev[i] == ClientEvent::Handled(r),
        0 <= k < r.send@.len(),
        i + 1 + k < ev.len(),
        forall|j: int|
            0 <= j < k ==> ((#[trigger] ev[i + 1 + j]) matches ClientEvent::Wrote { bytes, res }
                && res is Ok),
    ensures
        ev[i + 1 + k] matches ClientEvent::Wrote { bytes, res } && bytes == r.send@[k]@,
    decreases k,
{
    lemma_answering(id, ev, i, r, k);
    lemma_at(id, Stand::Idle(Seq::empty()), ev, i + 1 + k);
}

proof fn lemma_answering(id: u64, ev: Seq<ClientEvent>, i: int, r: Response, k: int)
    requires
        !(run_to(id, Stand::Idle(Seq::empty()), ev) is Astray),
        0 <= i,
        ev[i] == ClientEvent::Handled(r),
        0 <= k <= r.send@.len(),
        i + k < ev.len(),
        forall|j: int|
            0 <= j < k ==> ((#[trigger] ev[i + 1 + j]) matches ClientEvent::Wrote { bytes, res }
                && res is Ok),
    ensures
        exists|buf: Seq<u8>|
            run_to(id, Stand::Idle(Seq::empty()), ev.take(i + 1 + k)) == #[trigger] answering(
                buf,
                r,
                k,
            ),
    decreases k,
{
    let s = Stand::Idle(Seq::empty());
    if k == 0 {
        lemma_at(id, s, ev, i);
        let buf = run_to(id, s, ev.take(i))->Handling_0;
        assert(run_to(id, s, ev.take(i + 1)) == answering(buf, r, 0));
    } else {
        lemma_answering(id, ev, i, r, k - 1);
        lemma_at(id, s, ev, i + k);
        assert(ev[i + 1 + (k - 1)] is Wrote);
        let buf = choose|buf: Seq<u8>|
            run_to(id, s, ev.take(i + 1 + (k - 1))) == #[trigger] answering(buf, r, k - 1);
        assert(run_to(id, s, ev.take(i + 1 + k)) == answering(buf, r, k));
    }
}

proof fn lemma_requesting(id: u64, ev: Seq<ClientEvent>, i: int, r: Response, j: int)
    requires
        !(run_to(id, Stand::Idle(Seq::empty()), ev) is Astray),
        0 <= i,
        ev[i] == ClientEvent::Handled(r),
        forall|k: int|
            0 <= k < r.send@.len() ==> ((#[trigger] ev[i + 1 + k]) matches ClientEvent::Wrote {
                bytes,
                res,
            } && res is Ok),
        0 <= j <= r.upstream@.len(),
        i + r.send@.len() + 2 * j < ev.len(),
    ensures
        exists|buf: Seq<u8>|
            run_to(id, Stand::Idle(Seq::empty()), ev.take(i + 1 + r.send@.len() + 2 * j))
                == #[trigger] requesting(buf, r, j),
    decreases j,
{
    let s = Stand::Idle(Seq::empty());
    let n = r.send@.len() as int;
    if j == 0 {
        lemma_answering(id, ev, i, r, n);
        let buf = choose|buf: Seq<u8>|
            run_to(id, s, ev.take(i + 1 + n)) == #[trigger] answering(buf, r, n);
        assert(run_to(id, s, ev.take(i + 1 + n)) == requesting(buf, r, 0));
    } else {
        lemma_requesting(id, ev, i, r, j - 1);
        let at = i + 1 + n + 2 * (j - 1);
        lemma_at(id, s, ev, at);
        lemma_at(id, s, ev, at + 1);
        let buf = choose|buf: Seq<u8>| run_to(id, s, ev.take(at)) == #[trigger] requesting(
            buf,
            r,
            j - 1,
        );
        assert(run_to(id, s, ev.take(at + 2)) == requesting(buf, r, j));
    }
}

/// What a packet asks of the printer is asked of it, each request in its turn,
/// after the answers were written.
pub proof fn a_packet_s_requests_are_passed_on(
    id: u64,
    ev: Seq<ClientEvent>,
    i: int,
    r: Response,
    j: int,
)
    requires
        !(run_to(id, Stand::Idle(Seq::empty()), ev) is Astray),
        0 <= i,
        ev[i] == ClientEvent::Handled(r),
        forall|k: int|
            0 <= k < r.send@.len() ==> ((#[trigger] ev[i + 1 + k]) matches ClientEvent::Wrote {
                bytes,
                res,
            } && res is Ok),
        0 <= j < r.upstream@.len(),
        i + 2 + r.send@.len() + 2 * j < ev.len(),
    ensures
        ev[i + 1 + r.send@.len() + 2 * j] matches ClientEvent::Rewritten { payload, out } && payload
            == r.upstream@[j]@ && ev[i + 2 + r.send@.len() + 2 * j] == ClientEvent::Forwarded(out),
{
    let s = Stand::Idle(Seq::empty());
    lemma_requesting(id, ev, i, r, j);
    let at = i + 1 + r.send@.len() + 2 * j;
    lemma_at(id, s, ev, at);
    lemma_at(id, s, ev, at + 1);
}

/// A client is only let go in order when it left, when the reports ended, or when
/// its own packet asked for it; and then it is.
pub proof fn a_client_is_let_go_for_a_reason(id: u64, ev: Seq<ClientEvent>, i: int)
    requires
        !(run_to(id, Stand::Idle(Seq::empty()), ev) is Astray),
        0 <= i < ev.len(),
        run_to(id, Stand::Idle(Seq::empty()), ev.take(i + 1)) == Stand::Over(Ok(())),
        !(run_to(id, Stand::Idle(Seq::empty()), ev.take(i)) is Over),
    ensures
        match ev[i] {
            ClientEvent::Input { limit_ms: _, input: ClientInput::Bytes(b) } => b@.len() == 0,
            ClientEvent::Input { limit_ms: _, input: ClientInput::Closed } => true,
            ClientEvent::Flushed(res) => res is Ok,
            _ => false,
        },
{
    lemma_at(id, Stand::Idle(Seq::empty()), ev, i);
}

} // verus!
