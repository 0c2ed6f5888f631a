//! Recording a camera's stream: copying one connection until it ends, and
//! reconnecting for as long as the recording is wanted.
//!
//! What a recording does outside goes through a [`StreamPort`], and a [`Tap`]
//! keeps the log of it: every question and its answer, in order. The contracts
//! are over that log.
use vstd::prelude::*;

verus! {

/// How a single connection's copy ended.
#[derive(Debug, Clone, Copy, PartialEq, Eq, Structural)]
pub enum CopyEnd {
    /// The stream was closed: reconnect if still recording.
    Eof,
    /// The recording was asked to stop.
    Cancelled,
    /// The most bytes that may be written are written.
    CapReached,
    /// A read or a write failed: reconnect, counting it as a failure. What was
    /// written before it still counts.
    Errored,
}

/// What a whole recording came to.
#[derive(Debug, Clone, Copy, PartialEq, Eq, Structural)]
pub struct RecordStats {
    /// Bytes written, over all connections.
    pub bytes: u64,
    /// Streams opened.
    pub connections: u32,
    /// Attempts that failed: an open, or a read or write in the middle.
    pub failures: u32,
}

/// What a recording asks of the outside.
pub trait StreamPort {
    /// Whether the recording is to stop.
    fn cancelled(&mut self) -> bool;

    /// Pause before another attempt.
    fn backoff(&mut self, attempt: u32);

    /// Open the stream afresh; whether that worked.
    fn open(&mut self) -> bool;

    /// Read from the open stream, up to `max` bytes; no bytes at its end, none
    /// where it failed.
    fn read(&mut self, max: usize) -> Option<Vec<u8>>;

    /// Write to the recording; how many of the bytes went through, from the first
    /// on. Fewer than all of them is a failure.
    fn write(&mut self, bytes: &[u8]) -> usize;
}

/// One question to the outside and its answer.
pub enum StreamEvent {
    Cancelled(bool),
    Backoff(u32),
    Opened(bool),
    /// Up to so many bytes were asked for.
    Read { max: usize, res: Option<Seq<u8>> },
    /// These bytes were handed over, and so many of them went through.
    Wrote(Seq<u8>, usize),
}

/// A port and the log of what went through it.
pub struct Tap<P> {
    port: P,
    events: Ghost<Seq<StreamEvent>>,
}

impl<P: StreamPort> Tap<P> {
    /// What went through the port so far.
    pub closed spec fn log(self) -> Seq<StreamEvent> {
        self.events@
    }

    /// The port as it is now.
    pub closed spec fn inner(self) -> P {
        self.port
    }

    pub fn new(port: P) -> (r: Tap<P>)
        ensures
            r.inner() == port,
            r.log() == Seq::<StreamEvent>::empty(),
    {
        Tap { port, events: Ghost(Seq::empty()) }
    }

    /// The port again.
    pub fn into_port(self) -> (r: P)
        ensures
            r == self.inner(),
    {
        self.port
    }

    fn cancelled(&mut self) -> (r: bool)
        ensures
            final(self).log() == old(self).log().push(StreamEvent::Cancelled(r)),
    {
        let r: bool = self.port.cancelled();
        self.events = Ghost(self.events@.push(StreamEvent::Cancelled(r)));
        r
    }

    fn backoff(&mut self, attempt: u32)
        ensures
            final(self).log() == old(self).log().push(StreamEvent::Backoff(attempt)),
    {
        self.port.backoff(attempt);
        self.events = Ghost(self.events@.push(StreamEvent::Backoff(attempt)));
    }

    fn open(&mut self) -> (r: bool)
        ensures
            final(self).log() == old(self).log().push(StreamEvent::Opened(r)),
    {
        let r: bool = self.port.open();
        self.events = Ghost(self.events@.push(StreamEvent::Opened(r)));
        r
    }

    fn read(&mut self, max: usize) -> (r: Option<Vec<u8>>)
        ensures
            final(self).log() == old(self).log().push(
                StreamEvent::Read { max, res: crate::files::opt_bytes(r) },
            ),
    {
        let r = self.port.read(max);
        self.events =
        Ghost(
            self.events@.push(StreamEvent::Read { max, res: crate::files::opt_bytes(r) }),
        );
        r
    }

    fn write(&mut self, bytes: &[u8]) -> (r: usize)
        ensures
            final(self).log() == old(self).log().push(StreamEvent::Wrote(bytes@, r)),
    {
        let r: usize = self.port.write(bytes);
        self.events = Ghost(self.events@.push(StreamEvent::Wrote(bytes@, r)));
        r
    }
}

// ── One connection ──────────────────────────────────────────────────────────

/// What of a piece still fits under the cap.
pub open spec fn fitting(b: Seq<u8>, room: nat) -> Seq<u8> {
    if b.len() <= room {
        b
    } else {
        b.take(room as int)
    }
}

/// How many bytes whole rounds have written: each asks whether to stop and is
/// told no, asks for `size` bytes, reads something that fits, and writes all of it.
/// None where `ev` is anything else.
pub open spec fn rounds(ev: Seq<StreamEvent>, cap: nat, size: usize) -> Option<nat>
    decreases ev.len(),
{
    if ev.len() == 0 {
        Some(0)
    } else if ev.len() < 3 {
        None
    } else {
        let n = ev.len();
        match (rounds(ev.take(n - 3), cap, size), ev[n - 3], ev[n - 2], ev[n - 1]) {
            (
                Some(w),
                StreamEvent::Cancelled(false),
                StreamEvent::Read { max, res: Some(b) },
                StreamEvent::Wrote(out, k),
            ) => if w < cap && max == size && 0 < b.len() <= cap - w && out == b && k >= b.len() {
                Some(w + b.len())
            } else {
                None
            },
            _ => None,
        }
    }
}

/// `ev` is a whole copy under `cap`, by pieces of up to `size`, that ended as `end`
/// with `n` bytes written: whole rounds, and then what ended it.
pub open spec fn copy_ended(
    ev: Seq<StreamEvent>,
    cap: nat,
    size: usize,
    end: CopyEnd,
    n: nat,
) -> bool {
    let len = ev.len();
    match end {
        // Asked to stop: nothing is read after that.
        CopyEnd::Cancelled => len >= 1 && ev[len - 1] == StreamEvent::Cancelled(true) && rounds(
            ev.take(len - 1),
            cap,
            size,
        ) == Some(n),
        // The stream has no more.
        CopyEnd::Eof => {
            &&& len >= 2
            &&& ev[len - 2] == StreamEvent::Cancelled(false)
            &&& ev[len - 1] == (StreamEvent::Read { max: size, res: Some(Seq::<u8>::empty()) })
            &&& rounds(ev.take(len - 2), cap, size) == Some(n)
            &&& n < cap
        },
        // The cap was met exactly, or by the part of a piece that still fits.
        CopyEnd::CapReached => {
            ||| {
                &&& len >= 1
                &&& ev[len - 1] == StreamEvent::Cancelled(false)
                &&& rounds(ev.take(len - 1), cap, size) == Some(n)
                &&& n >= cap
            }
            ||| {
                &&& len >= 3
                &&& ev[len - 3] == StreamEvent::Cancelled(false)
                &&& ev[len - 2] matches StreamEvent::Read { max, res: Some(b) }
                &&& max == size
                &&& rounds(ev.take(len - 3), cap, size) matches Some(w)
                &&& w < cap
                &&& b.len() > cap - w
                &&& ev[len - 1] matches StreamEvent::Wrote(out, k)
                &&& out == b.take(cap - w)
                &&& k >= cap - w
                &&& n == cap
            }
        },
        // A read failed, or a write did: what was written before it counts, also
        // the part of a piece that went through.
        CopyEnd::Errored => {
            ||| {
                &&& len >= 2
                &&& ev[len - 2] == StreamEvent::Cancelled(false)
                &&& ev[len - 1] == (StreamEvent::Read { max: size, res: None })
                &&& rounds(ev.take(len - 2), cap, size) == Some(n)
                &&& n < cap
            }
            ||| {
                &&& len >= 3
                &&& ev[len - 3] == StreamEvent::Cancelled(false)
                &&& ev[len - 2] matches StreamEvent::Read { max, res: Some(b) }
                &&& max == size
                &&& b.len() > 0
                &&& rounds(ev.take(len - 3), cap, size) matches Some(w)
                &&& w < cap
                &&& ev[len - 1] matches StreamEvent::Wrote(out, k)
                &&& out == fitting(b, (cap - w) as nat)
                &&& k < out.len()
                &&& n == w + k
            }
        },
    }
}

/// Copy the open stream to the recording until it ends, is asked to stop, meets
/// the cap, or fails. What was written is always told, also after a failure, and
/// never more than `cap_remaining`. `buf_size` bytes are read at a time.
pub fn copy_until<P: StreamPort>(tap: &mut Tap<P>, cap_remaining: u64, buf_size: usize) -> (r: (
    CopyEnd,
    u64,
))
    ensures
        old(tap).log().is_prefix_of(final(tap).log()),
        copy_ended(
            final(tap).log().skip(old(tap).log().len() as int),
            cap_remaining as nat,
            buf_size,
            r.0,
            r.1 as nat,
        ),
        r.1 <= cap_remaining,
{
    let ghost start = tap.log();
    let ghost s: int = start.len() as int;
    let mut written: u64 = 0;
    proof {
        assert(tap.log().skip(s) =~= Seq::<StreamEvent>::empty());
    }
    loop
        invariant
            start == old(tap).log(),
            s == start.len(),
            start.is_prefix_of(tap.log()),
            written <= cap_remaining,
            rounds(tap.log().skip(s), cap_remaining as nat, buf_size) == Some(written as nat),
        decreases cap_remaining - written,
    {
        let ghost base = tap.log();
        let ghost done = base.skip(s);
        if tap.cancelled() {
            proof {
                let ev = tap.log().skip(s);
                assert(ev.take(ev.len() - 1) =~= done);
            }
            return (CopyEnd::Cancelled, written);
        }
        if written >= cap_remaining {
            proof {
                let ev = tap.log().skip(s);
                assert(ev.take(ev.len() - 1) =~= done);
            }
            return (CopyEnd::CapReached, written);
        }
        let piece = match tap.read(buf_size) {
            Some(b) => b,
            None => {
                proof {
                    let ev = tap.log().skip(s);
                    assert(ev.take(ev.len() - 2) =~= done);
                }
                return (CopyEnd::Errored, written);
            },
        };
        let n: usize = piece.len();
        if n == 0 {
            proof {
                let ev = tap.log().skip(s);
                assert(ev.take(ev.len() - 2) =~= done);
                assert(piece@ =~= Seq::<u8>::empty());
            }
            return (CopyEnd::Eof, written);
        }
        let room: u64 = cap_remaining - written;
        let take: usize = if n as u64 <= room {
            n
        } else {
            room as usize
        };
        let part = vstd::slice::slice_subrange(piece.as_slice(), 0, take);
        proof {
            assert(part@ =~= fitting(piece@, room as nat));
        }
        let through: usize = tap.write(part);
        proof {
            let ev = tap.log().skip(s);
            assert(ev.take(ev.len() - 3) =~= done);
        }
        if through < take {
            return (CopyEnd::Errored, written + through as u64);
        }
        written = written + take as u64;
        if take < n {
            return (CopyEnd::CapReached, written);
        }
    }
}

// ── A whole recording ───────────────────────────────────────────────────────

/// How an attempt begins, `a` attempts having been made: not asked to stop, and
/// after the first a pause that is not cut short.
pub open spec fn attempt_head(a: nat) -> Seq<StreamEvent> {
    if a == 0 {
        seq![StreamEvent::Cancelled(false)]
    } else {
        seq![
            StreamEvent::Cancelled(false),
            StreamEvent::Backoff(a as u32),
            StreamEvent::Cancelled(false),
        ]
    }
}

/// `ev` is one attempt that leads on to another: an open that failed, or a
/// connection that ended or broke off.
pub open spec fn attempt(
    ev: Seq<StreamEvent>,
    a: nat,
    max: nat,
    size: usize,
    prev: RecordStats,
    next: RecordStats,
) -> bool {
    let h = attempt_head(a);
    &&& prev.bytes < max
    &&& h.len() < ev.len()
    &&& ev.take(h.len() as int) == h
    &&& match ev[h.len() as int] {
        StreamEvent::Opened(false) => ev.len() == h.len() + 1 && next == (RecordStats {
            failures: (prev.failures + 1) as u32,
            ..prev
        }),
        StreamEvent::Opened(true) => {
            let c = ev.skip(h.len() as int + 1);
            let n = (next.bytes - prev.bytes) as nat;
            &&& next.bytes >= prev.bytes
            &&& next.connections == prev.connections + 1
            &&& {
                ||| copy_ended(c, (max - prev.bytes) as nat, size, CopyEnd::Eof, n) && next.failures
                    == prev.failures
                ||| copy_ended(c, (max - prev.bytes) as nat, size, CopyEnd::Errored, n) && next.failures
                    == prev.failures + 1
            }
        },
        _ => false,
    }
}

/// Some rows of events, one behind the other.
pub open spec fn in_a_row(segs: Seq<Seq<StreamEvent>>) -> Seq<StreamEvent>
    decreases segs.len(),
{
    if segs.len() == 0 {
        Seq::empty()
    } else {
        in_a_row(segs.drop_last()) + segs.last()
    }
}

/// `segs` are attempts, each of which leads on to the next; `st` is what the
/// recording had come to before each and after the last.
pub open spec fn attempts(
    segs: Seq<Seq<StreamEvent>>,
    st: Seq<RecordStats>,
    max: nat,
    size: usize,
) -> bool {
    &&& st.len() == segs.len() + 1
    &&& st[0] == (RecordStats { bytes: 0, connections: 0, failures: 0 })
    &&& forall|i: int|
        0 <= i < segs.len() ==> attempt(
            #[trigger] segs[i],
            i as nat,
            max,
            size,
            st[i],
            st[i + 1],
        )
}

/// What ends a recording after `a` attempts that came to `prev`: it is asked to
/// stop, before an attempt or during its pause; the cap is met; or a connection
/// ends in one of these ways. A recording whose attempts can no longer be
/// counted ends too.
pub open spec fn last_words(
    ev: Seq<StreamEvent>,
    a: nat,
    max: nat,
    size: usize,
    prev: RecordStats,
    stats: RecordStats,
) -> bool {
    let h = attempt_head(a);
    ||| ev == seq![StreamEvent::Cancelled(true)] && stats == prev
    ||| ev == seq![StreamEvent::Cancelled(false)] && prev.bytes >= max && stats == prev
    ||| {
        &&& a > 0
        &&& prev.bytes < max
        &&& ev == seq![
            StreamEvent::Cancelled(false),
            StreamEvent::Backoff(a as u32),
            StreamEvent::Cancelled(true),
        ]
        &&& stats == prev
    }
    ||| {
        let c = ev.skip(h.len() as int + 1);
        let n = (stats.bytes - prev.bytes) as nat;
        &&& prev.bytes < max
        &&& h.len() < ev.len()
        &&& ev.take(h.len() as int) == h
        &&& ev[h.len() as int] == StreamEvent::Opened(true)
        &&& stats.bytes >= prev.bytes
        &&& stats.connections == prev.connections + 1
        &&& stats.failures == prev.failures
        &&& {
            ||| copy_ended(c, (max - prev.bytes) as nat, size, CopyEnd::Cancelled, n)
            ||| copy_ended(c, (max - prev.bytes) as nat, size, CopyEnd::CapReached, n)
        }
    }
    ||| a == u32::MAX && ev.len() == 0 && stats == prev
}

/// `ev` is the attempts `segs` and then `last`, which ended it at `stats`.
pub open spec fn recorded_as(
    ev: Seq<StreamEvent>,
    max: nat,
    size: usize,
    stats: RecordStats,
    segs: Seq<Seq<StreamEvent>>,
    st: Seq<RecordStats>,
    last: Seq<StreamEvent>,
) -> bool {
    &&& attempts(segs, st, max, size)
    &&& ev == in_a_row(segs) + last
    &&& last_words(last, segs.len(), max, size, st.last(), stats)
}

/// `ev` is a whole recording, read by pieces of up to `size`, that came to `stats`.
pub open spec fn recorded(
    ev: Seq<StreamEvent>,
    max: nat,
    size: usize,
    stats: RecordStats,
) -> bool {
    exists|segs: Seq<Seq<StreamEvent>>, st: Seq<RecordStats>, last: Seq<StreamEvent>|
        recorded_as(ev, max, size, stats, segs, st, last)
}

/// How many bytes are asked for at a time: at least one, since asking for none
/// would look like the end of the stream for ever.
pub open spec fn piece_size(buf_size: usize) -> usize {
    if buf_size == 0 {
        1
    } else {
        buf_size
    }
}

/// Record the stream: open it, copy it, and reconnect after its end or a failure
/// until asked to stop or `max_bytes` are written. A source that keeps failing is
/// retried: the recording runs for as long as it is wanted, up to the number of
/// attempts that can be counted.
pub fn record_loop<P: StreamPort>(tap: &mut Tap<P>, max_bytes: u64, buf_size: usize) -> (r:
    RecordStats)
    ensures
        old(tap).log().is_prefix_of(final(tap).log()),
        recorded(
            final(tap).log().skip(old(tap).log().len() as int),
            max_bytes as nat,
            piece_size(buf_size),
            r,
        ),
        r.bytes <= max_bytes,
{
    let mut stats = RecordStats { bytes: 0, connections: 0, failures: 0 };
    let size: usize = if buf_size == 0 {
        1
    } else {
        buf_size
    };
    let mut made: u32 = 0;
    let ghost start = tap.log();
    let ghost s: int = start.len() as int;
    let ghost max: nat = max_bytes as nat;
    let ghost mut segs: Seq<Seq<StreamEvent>> = Seq::empty();
    let ghost mut st: Seq<RecordStats> = seq![stats];
    proof {
        assert(tap.log().skip(s) =~= in_a_row(segs));
    }
    while made < u32::MAX
        invariant
            start == old(tap).log(),
            s == start.len(),
            max == max_bytes,
            size == piece_size(buf_size),
            start.is_prefix_of(tap.log()),
            stats.bytes <= max_bytes,
            stats.connections <= made,
            stats.failures <= made,
            made == segs.len(),
            attempts(segs, st, max, size),
            st.last() == stats,
            tap.log().skip(s) == in_a_row(segs),
        decreases u32::MAX - made,
    {
        let ghost base = tap.log();
        let ghost done = base.skip(s);
        let ghost prev = stats;
        let ghost a: nat = made as nat;
        let stop: bool = tap.cancelled();
        if stop || stats.bytes >= max_bytes {
            proof {
                let last = seq![StreamEvent::Cancelled(stop)];
                assert(tap.log().skip(s) =~= done + last);
                assert(last_words(last, a, max, size, prev, stats));
                assert(recorded_as(tap.log().skip(s), max, size, stats, segs, st, last));
            }
            return stats;
        }
        if made > 0 {
            tap.backoff(made);
            if tap.cancelled() {
                proof {
                    let last = seq![
                        StreamEvent::Cancelled(false),
                        StreamEvent::Backoff(made),
                        StreamEvent::Cancelled(true),
                    ];
                    assert(tap.log().skip(s) =~= done + last);
                    assert(last_words(last, a, max, size, prev, stats));
                    assert(recorded_as(tap.log().skip(s), max, size, stats, segs, st, last));
                }
                return stats;
            }
        }
        let ghost h = attempt_head(a);
        proof {
            assert(tap.log().skip(s) =~= done + h);
        }
        let opened: bool = tap.open();
        let ghost opening = tap.log();
        let ghost mut last = h + seq![StreamEvent::Opened(opened)];
        proof {
            assert(opening.skip(s) =~= done + last);
            assert(last.take(h.len() as int) =~= h);
        }
        if opened {
            let ghost held = opening.len() as int;
            let (end, n) = copy_until(tap, max_bytes - stats.bytes, size);
            stats.connections = stats.connections + 1;
            stats.bytes = stats.bytes + n;
            proof {
                let c = tap.log().skip(held);
                last = last + c;
                assert(tap.log() =~= opening + c);
                assert(tap.log().skip(s) =~= done + last);
                assert(last.take(h.len() as int) =~= h);
                assert(last.skip(h.len() as int + 1) =~= c);
                assert(tap.log().subrange(0, s) =~= opening.subrange(0, s));
            }
            if end == CopyEnd::Errored {
                stats.failures = stats.failures + 1;
            } else if end == CopyEnd::Cancelled || end == CopyEnd::CapReached {
                proof {
                    assert(last_words(last, a, max, size, prev, stats));
                    assert(recorded_as(tap.log().skip(s), max, size, stats, segs, st, last));
                }
                return stats;
            }
        } else {
            stats.failures = stats.failures + 1;
        }
        made = made + 1;
        proof {
            assert(attempt(last, a, max, size, prev, stats));
            let more = segs.push(last);
            let then_st = st.push(stats);
            assert(attempts(more, then_st, max, size)) by {
                assert forall|i: int| 0 <= i < more.len() implies attempt(
                    #[trigger] more[i],
                    i as nat,
                    max,
                    size,
                    then_st[i],
                    then_st[i + 1],
                ) by {
                    if i < segs.len() {
                        assert(more[i] == segs[i]);
                    }
                }
            }
            assert(more.drop_last() =~= segs);
            assert(tap.log().skip(s) =~= in_a_row(more));
            segs = more;
            st = then_st;
        }
    }
    proof {
        let last = Seq::<StreamEvent>::empty();
        assert(tap.log().skip(s) =~= in_a_row(segs) + last);
        assert(recorded_as(tap.log().skip(s), max, size, stats, segs, st, last));
    }
    stats
}

// ── Laws ────────────────────────────────────────────────────────────────────

/// What one event read.
pub open spec fn read_by(e: StreamEvent) -> Seq<u8> {
    match e {
        StreamEvent::Read { max: _, res: Some(b) } => b,
        _ => Seq::empty(),
    }
}

/// What one event wrote: what went through of what was handed over.
pub open spec fn written_by(e: StreamEvent) -> Seq<u8> {
    match e {
        StreamEvent::Wrote(b, k) => fitting(b, k as nat),
        _ => Seq::empty(),
    }
}

/// All that was read, in order.
pub open spec fn input(ev: Seq<StreamEvent>) -> Seq<u8>
    decreases ev.len(),
{
    if ev.len() == 0 {
        Seq::empty()
    } else {
        input(ev.drop_last()) + read_by(ev.last())
    }
}

/// All that was written, in order.
pub open spec fn output(ev: Seq<StreamEvent>) -> Seq<u8>
    decreases ev.len(),
{
    if ev.len() == 0 {
        Seq::empty()
    } else {
        output(ev.drop_last()) + written_by(ev.last())
    }
}

/// The last `k` events split off one by one, up to three of them.
proof fn lemma_peel(ev: Seq<StreamEvent>)
    ensures
        ev.len() >= 1 ==> {
            &&& output(ev) == output(ev.take(ev.len() - 1)) + written_by(ev[ev.len() - 1])
            &&& input(ev) == input(ev.take(ev.len() - 1)) + read_by(ev[ev.len() - 1])
        },
        ev.len() >= 2 ==> {
            &&& output(ev.take(ev.len() - 1)) == output(ev.take(ev.len() - 2)) + written_by(
                ev[ev.len() - 2],
            )
            &&& input(ev.take(ev.len() - 1)) == input(ev.take(ev.len() - 2)) + read_by(
                ev[ev.len() - 2],
            )
        },
        ev.len() >= 3 ==> {
            &&& output(ev.take(ev.len() - 2)) == output(ev.take(ev.len() - 3)) + written_by(
                ev[ev.len() - 3],
            )
            &&& input(ev.take(ev.len() - 2)) == input(ev.take(ev.len() - 3)) + read_by(
                ev[ev.len() - 3],
            )
        },
{
    let n = ev.len() as int;
    if n >= 1 {
        assert(ev.drop_last() =~= ev.take(n - 1));
    }
    if n >= 2 {
        assert(ev.take(n - 1).drop_last() =~= ev.take(n - 2));
        assert(ev.take(n - 1).last() == ev[n - 2]);
    }
    if n >= 3 {
        assert(ev.take(n - 2).drop_last() =~= ev.take(n - 3));
        assert(ev.take(n - 2).last() == ev[n - 3]);
    }
}

proof fn lemma_rounds(ev: Seq<StreamEvent>, cap: nat, size: usize)
    ensures
        rounds(ev, cap, size) matches Some(w) ==> output(ev) == input(ev) && output(ev).len() == w && w
            <= cap,
    decreases ev.len(),
{
    if ev.len() >= 3 && rounds(ev, cap, size) is Some {
        let n = ev.len();
        lemma_rounds(ev.take(n - 3), cap, size);
        lemma_peel(ev);
        let b = read_by(ev[n - 2]);
        let before = output(ev.take(n - 3));
        assert(output(ev) =~= before + b);
        assert(input(ev) =~= before + b);
    }
}

/// Every write went through.
pub open spec fn all_through(ev: Seq<StreamEvent>) -> bool {
    forall|i: int|
        0 <= i < ev.len() ==> ((#[trigger] ev[i]) matches StreamEvent::Wrote(b, k) ==> k >= b.len())
}

/// A copy writes what it read, in order and nothing else; it counts every byte
/// that went through, also before a failure and in the middle of a write; it never
/// writes past its cap; where the stream simply ended it has written all of it; and
/// where no write failed, what it wrote is what it read, cut at the cap.
pub proof fn a_copy_is_faithful(
    ev: Seq<StreamEvent>,
    cap: nat,
    size: usize,
    end: CopyEnd,
    n: nat,
)
    requires
        copy_ended(ev, cap, size, end, n),
    ensures
        output(ev).is_prefix_of(input(ev)),
        output(ev).len() == n,
        n <= cap,
        end == CopyEnd::Eof || end == CopyEnd::Cancelled ==> output(ev) == input(ev),
        end == CopyEnd::CapReached ==> n == cap,
        all_through(ev) ==> output(ev) == fitting(input(ev), cap),
{
    let len = ev.len() as int;
    lemma_peel(ev);
    let tail: int = match end {
        CopyEnd::Cancelled => 1,
        CopyEnd::Eof => 2,
        CopyEnd::CapReached => if ev[len - 1] is Wrote {
            3
        } else {
            1
        },
        CopyEnd::Errored => if ev[len - 1] is Wrote {
            3
        } else {
            2
        },
    };
    let before = ev.take(len - tail);
    lemma_rounds(before, cap, size);
    if tail == 3 {
        let b = read_by(ev[len - 2]);
        let w = written_by(ev[len - 1]);
        assert(output(ev) =~= output(before) + w);
        assert(input(ev) =~= output(before) + b);
        assert(w.is_prefix_of(b));
        assert(output(ev) =~= input(ev).subrange(0, output(ev).len() as int));
        if all_through(ev) {
            assert(ev[len - 1] is Wrote);
            assert(output(ev) =~= fitting(input(ev), cap));
        }
    } else {
        assert(output(ev) =~= output(before));
        assert(input(ev) =~= input(before));
    }
}

proof fn lemma_appends(a: Seq<StreamEvent>, b: Seq<StreamEvent>)
    ensures
        output(a + b) == output(a) + output(b),
        input(a + b) == input(a) + input(b),
    decreases b.len(),
{
    if b.len() == 0 {
        assert(a + b =~= a);
        assert(output(a) + output(b) =~= output(a));
        assert(input(a) + input(b) =~= input(a));
    } else {
        lemma_appends(a, b.drop_last());
        assert((a + b).drop_last() =~= a + b.drop_last());
        assert((a + b).last() == b.last());
        assert(output(a + b) =~= output(a) + output(b));
        assert(input(a + b) =~= input(a) + input(b));
    }
}

/// An event that moves no bytes.
pub open spec fn idle(e: StreamEvent) -> bool {
    !(e is Wrote) && !(e is Read)
}

/// Events that read and write nothing.
proof fn lemma_silent(ev: Seq<StreamEvent>)
    requires
        forall|i: int| 0 <= i < ev.len() ==> idle(#[trigger] ev[i]),
    ensures
        output(ev) == Seq::<u8>::empty(),
        input(ev) == Seq::<u8>::empty(),
    decreases ev.len(),
{
    if ev.len() > 0 {
        assert forall|i: int| 0 <= i < ev.drop_last().len() implies idle(
            #[trigger] ev.drop_last()[i],
        ) by {
            assert(idle(ev[i]));
        }
        lemma_silent(ev.drop_last());
        assert(idle(ev[ev.len() - 1]));
        assert(output(ev) =~= Seq::<u8>::empty());
        assert(input(ev) =~= Seq::<u8>::empty());
    }
}

/// The bytes of a connection are those behind its opening.
proof fn lemma_connection(ev: Seq<StreamEvent>, a: nat)
    requires
        attempt_head(a).len() < ev.len(),
        ev.take(attempt_head(a).len() as int) == attempt_head(a),
        ev[attempt_head(a).len() as int] is Opened,
    ensures
        output(ev) == output(ev.skip(attempt_head(a).len() as int + 1)),
        input(ev) == input(ev.skip(attempt_head(a).len() as int + 1)),
{
    let k = attempt_head(a).len() as int;
    let front = ev.take(k + 1);
    assert forall|i: int| 0 <= i < front.len() implies idle(#[trigger] front[i]) by {
        if i < k {
            assert(ev.take(k)[i] == front[i]);
        }
    }
    lemma_silent(front);
    assert(ev =~= front + ev.skip(k + 1));
    lemma_appends(front, ev.skip(k + 1));
    assert(output(ev) =~= output(ev.skip(k + 1)));
    assert(input(ev) =~= input(ev.skip(k + 1)));
}

proof fn lemma_attempt(
    ev: Seq<StreamEvent>,
    a: nat,
    max: nat,
    size: usize,
    prev: RecordStats,
    next: RecordStats,
)
    requires
        attempt(ev, a, max, size, prev, next),
        prev.bytes <= max,
    ensures
        prev.bytes + output(ev).len() == next.bytes,
        next.bytes <= max,
        all_through(ev) ==> output(ev) == input(ev),
{
    lemma_connection(ev, a);
    let k = attempt_head(a).len() as int;
    let c = ev.skip(k + 1);
    let room = (max - prev.bytes) as nat;
    let n = (next.bytes - prev.bytes) as nat;
    if ev[k] == StreamEvent::Opened(true) {
        if copy_ended(c, room, size, CopyEnd::Eof, n) {
            a_copy_is_faithful(c, room, size, CopyEnd::Eof, n);
        } else {
            a_copy_is_faithful(c, room, size, CopyEnd::Errored, n);
            if all_through(ev) {
                lemma_through_part(ev, k + 1, ev.len() as int);
                lemma_unwritten_read(c, room, size, n);
            }
        }
    } else {
        assert(c =~= Seq::<StreamEvent>::empty());
        assert(output(c).len() == 0);
        assert(output(c) =~= input(c));
    }
}

/// A copy that failed though every write went through failed to read: it has
/// written all that it read.
proof fn lemma_unwritten_read(c: Seq<StreamEvent>, cap: nat, size: usize, n: nat)
    requires
        copy_ended(c, cap, size, CopyEnd::Errored, n),
        all_through(c),
    ensures
        output(c) == input(c),
{
    let len = c.len() as int;
    lemma_peel(c);
    assert(!(c[len - 1] is Wrote));
    lemma_rounds(c.take(len - 2), cap, size);
    assert(output(c) =~= output(c.take(len - 2)));
    assert(input(c) =~= input(c.take(len - 2)));
}

proof fn lemma_through_part(ev: Seq<StreamEvent>, i: int, j: int)
    requires
        all_through(ev),
        0 <= i <= j <= ev.len(),
    ensures
        all_through(ev.subrange(i, j)),
        j == ev.len() ==> all_through(ev.skip(i)),
{
    let part = ev.subrange(i, j);
    assert forall|k: int| 0 <= k < part.len() implies ((#[trigger] part[k]) matches StreamEvent::Wrote(
        b,
        n,
    ) ==> n >= b.len()) by {
        assert(part[k] == ev[i + k]);
    }
    if j == ev.len() {
        assert(part =~= ev.skip(i));
    }
}

proof fn lemma_attempts(
    segs: Seq<Seq<StreamEvent>>,
    st: Seq<RecordStats>,
    max: nat,
    size: usize,
)
    requires
        attempts(segs, st, max, size),
    ensures
        output(in_a_row(segs)).len() == st.last().bytes,
        st.last().bytes <= max,
        all_through(in_a_row(segs)) ==> output(in_a_row(segs)) == input(in_a_row(segs)),
    decreases segs.len(),
{
    if segs.len() == 0 {
        assert(output(in_a_row(segs)).len() == 0);
        assert(output(in_a_row(segs)) =~= input(in_a_row(segs)));
    } else {
        let n = segs.len() as int;
        let less = segs.drop_last();
        let before = st.drop_last();
        assert(attempts(less, before, max, size)) by {
            assert forall|i: int| 0 <= i < less.len() implies attempt(
                #[trigger] less[i],
                i as nat,
                max,
                size,
                before[i],
                before[i + 1],
            ) by {
                assert(less[i] == segs[i]);
            }
        }
        lemma_attempts(less, before, max, size);
        assert(segs[n - 1] == segs.last());
        lemma_attempt(segs.last(), (n - 1) as nat, max, size, st[n - 1], st[n]);
        lemma_appends(in_a_row(less), segs.last());
        let all = in_a_row(segs);
        if all_through(all) {
            let k = in_a_row(less).len() as int;
            lemma_through_part(all, 0, k);
            lemma_through_part(all, k, all.len() as int);
            assert(all.subrange(0, k) =~= in_a_row(less));
            assert(all.skip(k) =~= segs.last());
        }
    }
}

/// What ended a recording, by its bytes.
proof fn lemma_last_words(
    last: Seq<StreamEvent>,
    a: nat,
    max: nat,
    size: usize,
    prev: RecordStats,
    stats: RecordStats,
)
    requires
        last_words(last, a, max, size, prev, stats),
        prev.bytes <= max,
    ensures
        prev.bytes + output(last).len() == stats.bytes,
        stats.bytes <= max,
        all_through(last) ==> output(last) == fitting(input(last), (max - prev.bytes) as nat),
{
    let h = attempt_head(a);
    let k = h.len() as int;
    if last.len() > k && last.take(k) == h && last[k] == StreamEvent::Opened(true) {
        lemma_connection(last, a);
        let c = last.skip(k + 1);
        let room = (max - prev.bytes) as nat;
        let n = (stats.bytes - prev.bytes) as nat;
        if copy_ended(c, room, size, CopyEnd::Cancelled, n) {
            a_copy_is_faithful(c, room, size, CopyEnd::Cancelled, n);
        } else {
            a_copy_is_faithful(c, room, size, CopyEnd::CapReached, n);
        }
        if all_through(last) {
            lemma_through_part(last, k + 1, last.len() as int);
        }
    } else {
        lemma_silent(last);
    }
}

/// A recording counts every byte it wrote and never writes past its cap. Where no
/// write failed, the recording is what was read, over all connections, cut at the
/// cap.
pub proof fn a_recording_keeps_to_its_cap(
    ev: Seq<StreamEvent>,
    max: nat,
    size: usize,
    stats: RecordStats,
)
    requires
        recorded(ev, max, size, stats),
    ensures
        output(ev).len() == stats.bytes,
        stats.bytes <= max,
        all_through(ev) ==> output(ev) == fitting(input(ev), max),
{
    let (segs, st, last) = choose|
        segs: Seq<Seq<StreamEvent>>,
        st: Seq<RecordStats>,
        last: Seq<StreamEvent>,
    | recorded_as(ev, max, size, stats, segs, st, last);
    let row = in_a_row(segs);
    let k = row.len() as int;
    lemma_attempts(segs, st, max, size);
    lemma_last_words(last, segs.len(), max, size, st.last(), stats);
    lemma_appends(row, last);
    if all_through(ev) {
        lemma_through_part(ev, 0, k);
        lemma_through_part(ev, k, ev.len() as int);
        assert(ev.subrange(0, k) =~= row);
        assert(ev.skip(k) =~= last);
        assert(output(ev) =~= fitting(input(ev), max));
    }
}

/// How many streams were opened, or failed to open.
pub open spec fn opens(ev: Seq<StreamEvent>, ok: bool) -> int
    decreases ev.len(),
{
    if ev.len() == 0 {
        0
    } else {
        opens(ev.drop_last(), ok) + (if ev.last() == StreamEvent::Opened(ok) {
            1int
        } else {
            0int
        })
    }
}

proof fn lemma_opens_join(a: Seq<StreamEvent>, b: Seq<StreamEvent>, ok: bool)
    ensures
        opens(a + b, ok) == opens(a, ok) + opens(b, ok),
    decreases b.len(),
{
    if b.len() == 0 {
        assert(a + b =~= a);
    } else {
        lemma_opens_join(a, b.drop_last(), ok);
        assert((a + b).drop_last() =~= a + b.drop_last());
        assert((a + b).last() == b.last());
    }
}

proof fn lemma_opens_none(ev: Seq<StreamEvent>, ok: bool)
    requires
        forall|i: int| 0 <= i < ev.len() ==> !((#[trigger] ev[i]) is Opened),
    ensures
        opens(ev, ok) == 0,
    decreases ev.len(),
{
    if ev.len() > 0 {
        let less = ev.drop_last();
        assert forall|i: int| 0 <= i < less.len() implies !((#[trigger] less[i]) is Opened) by {
            assert(less[i] == ev[i]);
        }
        lemma_opens_none(less, ok);
        assert(ev.last() == ev[ev.len() - 1]);
    }
}

proof fn lemma_rounds_open_none(ev: Seq<StreamEvent>, cap: nat, size: usize)
    requires
        rounds(ev, cap, size) is Some,
    ensures
        forall|i: int| 0 <= i < ev.len() ==> !((#[trigger] ev[i]) is Opened),
    decreases ev.len(),
{
    if ev.len() >= 3 {
        let n = ev.len() as int;
        let less = ev.take(n - 3);
        lemma_rounds_open_none(less, cap, size);
        assert forall|i: int| 0 <= i < n implies !((#[trigger] ev[i]) is Opened) by {
            if i < n - 3 {
                assert(less[i] == ev[i]);
            }
        }
    }
}

proof fn lemma_copy_opens_none(
    ev: Seq<StreamEvent>,
    cap: nat,
    size: usize,
    end: CopyEnd,
    n: nat,
    ok: bool,
)
    requires
        copy_ended(ev, cap, size, end, n),
    ensures
        opens(ev, ok) == 0,
{
    let len = ev.len() as int;
    let tail: int = if ev[len - 1] is Wrote {
        3
    } else if ev[len - 1] is Read {
        2
    } else {
        1
    };
    let less = ev.take(len - tail);
    lemma_rounds_open_none(less, cap, size);
    assert forall|i: int| 0 <= i < len implies !((#[trigger] ev[i]) is Opened) by {
        if i < len - tail {
            assert(less[i] == ev[i]);
        }
    }
    lemma_opens_none(ev, ok);
}

proof fn lemma_connected(ev: Seq<StreamEvent>, a: nat, ok: bool)
    requires
        ({
            let h = attempt_head(a);
            &&& h.len() < ev.len()
            &&& ev.take(h.len() as int) == h
            &&& ev[h.len() as int] is Opened
            &&& opens(ev.skip(h.len() as int + 1), ok) == 0
        }),
    ensures
        opens(ev, ok) == (if ev[attempt_head(a).len() as int] == StreamEvent::Opened(ok) {
            1int
        } else {
            0int
        }),
{
    let h = attempt_head(a);
    let k = h.len() as int;
    let c = ev.skip(k + 1);
    let mid = seq![ev[k]];
    assert(ev =~= h + mid + c);
    lemma_opens_none(h, ok);
    lemma_opens_join(h, mid, ok);
    lemma_opens_join(h + mid, c, ok);
    assert(mid.drop_last() =~= Seq::<StreamEvent>::empty());
    reveal_with_fuel(opens, 2);
}

proof fn lemma_attempt_opens(
    ev: Seq<StreamEvent>,
    a: nat,
    max: nat,
    size: usize,
    prev: RecordStats,
    next: RecordStats,
)
    requires
        attempt(ev, a, max, size, prev, next),
        prev.failures < u32::MAX,
    ensures
        next.connections == prev.connections + opens(ev, true),
        prev.failures + opens(ev, false) <= next.failures <= prev.failures + 1,
{
    let k = attempt_head(a).len() as int;
    let c = ev.skip(k + 1);
    if ev[k] == StreamEvent::Opened(false) {
        assert(c =~= Seq::<StreamEvent>::empty());
    } else {
        let n = (next.bytes - prev.bytes) as nat;
        let cap = (max - prev.bytes) as nat;
        if copy_ended(c, cap, size, CopyEnd::Eof, n) {
            lemma_copy_opens_none(c, cap, size, CopyEnd::Eof, n, true);
            lemma_copy_opens_none(c, cap, size, CopyEnd::Eof, n, false);
        } else {
            lemma_copy_opens_none(c, cap, size, CopyEnd::Errored, n, true);
            lemma_copy_opens_none(c, cap, size, CopyEnd::Errored, n, false);
        }
    }
    lemma_connected(ev, a, true);
    lemma_connected(ev, a, false);
}

proof fn lemma_attempts_open(
    segs: Seq<Seq<StreamEvent>>,
    st: Seq<RecordStats>,
    max: nat,
    size: usize,
    n: int,
)
    requires
        attempts(segs, st, max, size),
        0 <= n <= segs.len(),
        segs.len() < u32::MAX,
    ensures
        st[n].connections == opens(in_a_row(segs.take(n)), true),
        opens(in_a_row(segs.take(n)), false) <= st[n].failures <= n,
    decreases n,
{
    if n == 0 {
        assert(segs.take(0) =~= Seq::<Seq<StreamEvent>>::empty());
    } else {
        lemma_attempts_open(segs, st, max, size, n - 1);
        assert(attempt(segs[n - 1], (n - 1) as nat, max, size, st[n - 1], st[n]));
        lemma_attempt_opens(segs[n - 1], (n - 1) as nat, max, size, st[n - 1], st[n]);
        let t = segs.take(n);
        assert(t.drop_last() =~= segs.take(n - 1));
        assert(t.last() == segs[n - 1]);
        lemma_opens_join(in_a_row(segs.take(n - 1)), segs[n - 1], true);
        lemma_opens_join(in_a_row(segs.take(n - 1)), segs[n - 1], false);
    }
}

/// A recording counts every stream that it opened, once, and no attempt that failed to
/// open one is left out of its failures.
pub proof fn a_recording_counts_its_connections(
    ev: Seq<StreamEvent>,
    max: nat,
    size: usize,
    stats: RecordStats,
    segs: Seq<Seq<StreamEvent>>,
    st: Seq<RecordStats>,
    last: Seq<StreamEvent>,
)
    requires
        recorded_as(ev, max, size, stats, segs, st, last),
        segs.len() < u32::MAX,
    ensures
        stats.connections == opens(ev, true),
        opens(ev, false) <= stats.failures <= segs.len(),
{
    let n = segs.len() as int;
    lemma_attempts_open(segs, st, max, size, n);
    assert(segs.take(n) =~= segs);
    lemma_opens_join(in_a_row(segs), last, true);
    lemma_opens_join(in_a_row(segs), last, false);
    let prev = st.last();
    let k = attempt_head(n as nat).len() as int;
    if last.len() > k && last[k] == StreamEvent::Opened(true) {
        let c = last.skip(k + 1);
        let m = (stats.bytes - prev.bytes) as nat;
        let cap = (max - prev.bytes) as nat;
        if copy_ended(c, cap, size, CopyEnd::Cancelled, m) {
            lemma_copy_opens_none(c, cap, size, CopyEnd::Cancelled, m, true);
            lemma_copy_opens_none(c, cap, size, CopyEnd::Cancelled, m, false);
        } else {
            lemma_copy_opens_none(c, cap, size, CopyEnd::CapReached, m, true);
            lemma_copy_opens_none(c, cap, size, CopyEnd::CapReached, m, false);
        }
        lemma_connected(last, n as nat, true);
        lemma_connected(last, n as nat, false);
    } else {
        lemma_opens_none(last, true);
        lemma_opens_none(last, false);
    }
}

/// Bytes are asked for as many at a time as was wanted, and never none.
pub proof fn a_piece_is_never_empty(buf_size: usize)
    ensures
        piece_size(buf_size) > 0,
        buf_size > 0 ==> piece_size(buf_size) == buf_size,
{
}

} // verus!
