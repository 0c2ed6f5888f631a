//! The camera port of the emulated printer: whole frames out of a stream, and one
//! viewer at a time in front of them.
//!
//! What is done outside goes through ports, and taps keep the log of it. What is
//! done is stated by machines that read those logs.
use vstd::prelude::*;

use crate::number::{decimal, digits};
use crate::text::{debug_text, join2, join3, join5, quoted, same_text};

verus! {

/// How long the packet is that a viewer says who it is with.
pub const AUTH_PACKET: usize = 80;

// ── Frames out of a stream ──────────────────────────────────────────────────

/// Where a frame lies in what is held, and how much of it the frame uses up.
#[derive(Clone, Copy, Debug, PartialEq, Eq, Structural)]
pub struct FrameAt {
    pub start: usize,
    pub end: usize,
    pub used: usize,
}

/// What taking a stream apart asks of the outside.
pub trait MjpegPort {
    /// Whether the content type names a boundary between the frames.
    fn has_boundary(&mut self, content_type: &str) -> bool;

    /// Whether no one is left to show the frames to.
    fn closed(&mut self) -> bool;

    /// The first whole frame in what is held; none where there is none yet.
    fn next_frame(&mut self, buf: &Vec<u8>) -> Result<Option<FrameAt>, String>;

    fn is_jpeg(&mut self, frame: &Vec<u8>) -> bool;

    /// Show a frame to whoever looks.
    fn publish(&mut self, frame: &Vec<u8>);

    /// Read on; nothing at the end of the stream.
    fn read(&mut self) -> Result<Vec<u8>, String>;
}

/// One thing that was asked of the outside and its answer.
#[allow(inconsistent_fields)]
pub enum MjpegEvent {
    Boundary { content_type: Seq<char>, found: bool },
    Closed(bool),
    Framed { buf: Seq<u8>, res: Result<Option<FrameAt>, String> },
    Jpeg { frame: Seq<u8>, yes: bool },
    Published(Seq<u8>),
    Read(Result<Vec<u8>, String>),
}

/// A port and the log of what went through it.
pub struct MjpegTap<P> {
    port: P,
    events: Ghost<Seq<MjpegEvent>>,
}

impl<P: MjpegPort> MjpegTap<P> {
    /// What went through the port so far.
    pub closed spec fn log(self) -> Seq<MjpegEvent> {
        self.events@
    }

    /// The port as it is now.
    pub closed spec fn inner(self) -> P {
        self.port
    }

    pub fn new(port: P) -> (r: MjpegTap<P>)
        ensures
            r.inner() == port,
            r.log() == Seq::<MjpegEvent>::empty(),
    {
        MjpegTap { port, events: Ghost(Seq::empty()) }
    }

    /// The port again.
    pub fn into_port(self) -> (r: P)
        ensures
            r == self.inner(),
    {
        self.port
    }

    fn has_boundary(&mut self, content_type: &str) -> (r: bool)
        ensures
            final(self).log() == old(self).log().push(MjpegEvent::Boundary { content_type: content_type@, found: r }),
    {
        let r: bool = self.port.has_boundary(content_type);
        self.events = Ghost(self.events@.push(MjpegEvent::Boundary { content_type: content_type@, found: r }));
        r
    }

    fn closed(&mut self) -> (r: bool)
        ensures
            final(self).log() == old(self).log().push(MjpegEvent::Closed(r)),
    {
        let r: bool = self.port.closed();
        self.events = Ghost(self.events@.push(MjpegEvent::Closed(r)));
        r
    }

    fn next_frame(&mut self, buf: &Vec<u8>) -> (r: Result<Option<FrameAt>, String>)
        ensures
            final(self).log() == old(self).log().push(MjpegEvent::Framed { buf: buf@, res: r }),
    {
        let r = self.port.next_frame(buf);
        self.events = Ghost(self.events@.push(MjpegEvent::Framed { buf: buf@, res: r }));
        r
    }

    fn is_jpeg(&mut self, frame: &Vec<u8>) -> (r: bool)
        ensures
            final(self).log() == old(self).log().push(MjpegEvent::Jpeg { frame: frame@, yes: r }),
    {
        let r: bool = self.port.is_jpeg(frame);
        self.events = Ghost(self.events@.push(MjpegEvent::Jpeg { frame: frame@, yes: r }));
        r
    }

    fn publish(&mut self, frame: &Vec<u8>)
        ensures
            final(self).log() == old(self).log().push(MjpegEvent::Published(frame@)),
    {
        self.port.publish(frame);
        self.events = Ghost(self.events@.push(MjpegEvent::Published(frame@)));
    }

    fn read(&mut self) -> (r: Result<Vec<u8>, String>)
        ensures
            final(self).log() == old(self).log().push(MjpegEvent::Read(r)),
    {
        let r = self.port.read();
        self.events = Ghost(self.events@.push(MjpegEvent::Read(r)));
        r
    }
}

/// How taking a stream apart ended.
pub type StreamEnd = Result<(), Seq<char>>;

/// Where taking a stream apart stands, with what is held of it.
pub enum MjpegStand {
    Start,
    Top(Seq<u8>),
    /// Taking out the frames that are whole.
    Draining(Seq<u8>),
    /// With a frame, and what is left after it.
    Judging(Seq<u8>, Seq<u8>),
    Publishing(Seq<u8>, Seq<u8>),
    Reading(Seq<u8>),
    Over(StreamEnd),
    /// Something else was done.
    Astray,
}

pub open spec fn no_boundary(content_type: Seq<char>) -> Seq<char> {
    "content-type "@ + debug_text(content_type)
        + " names no multipart boundary; is this a stream URL?"@
}

pub open spec fn no_frame(held: nat) -> Seq<char> {
    "no frame boundary in "@ + digits(held) + " bytes; the source is not the stream it claimed"@
}

/// The bytes of the frame: within what is held, whatever was said of it.
pub open spec fn frame_in(buf: Seq<u8>, at: FrameAt) -> Seq<u8> {
    let end = if at.end as nat > buf.len() {
        buf.len()
    } else {
        at.end as nat
    };
    let start = if at.start as nat > end {
        end
    } else {
        at.start as nat
    };
    buf.subrange(start as int, end as int)
}

/// What is left after the frame: it uses up a byte at least.
pub open spec fn rest_after(buf: Seq<u8>, at: FrameAt) -> Seq<u8> {
    let used = if at.used as nat > buf.len() {
        buf.len()
    } else if at.used == 0 {
        1
    } else {
        at.used as nat
    };
    buf.skip(used as int)
}

/// What taking a stream apart does where it stands, and where that takes it.
pub open spec fn mjpeg_step(
    content_type: Seq<char>,
    max_buffer: nat,
    s: MjpegStand,
    e: MjpegEvent,
) -> MjpegStand {
    match (s, e) {
        (MjpegStand::Start, MjpegEvent::Boundary { content_type: c, found }) => if c
            != content_type {
            MjpegStand::Astray
        } else if found {
            MjpegStand::Top(Seq::empty())
        } else {
            MjpegStand::Over(Err(no_boundary(content_type)))
        },
        (MjpegStand::Top(buf), MjpegEvent::Closed(gone)) => if gone {
            MjpegStand::Over(Ok(()))
        } else {
            MjpegStand::Draining(buf)
        },
        (MjpegStand::Draining(buf), MjpegEvent::Framed { buf: b, res }) => if b != buf {
            MjpegStand::Astray
        } else {
            match res {
                Err(e) => MjpegStand::Over(Err(e@)),
                Ok(Some(at)) if buf.len() > 0 => MjpegStand::Judging(
                    frame_in(buf, at),
                    rest_after(buf, at),
                ),
                _ => if buf.len() > max_buffer {
                    MjpegStand::Over(Err(no_frame(buf.len())))
                } else {
                    MjpegStand::Reading(buf)
                },
            }
        },
        (MjpegStand::Judging(frame, rest), MjpegEvent::Jpeg { frame: f, yes }) => if f != frame {
            MjpegStand::Astray
        } else if yes {
            MjpegStand::Publishing(frame, rest)
        } else {
            MjpegStand::Draining(rest)
        },
        (MjpegStand::Publishing(frame, rest), MjpegEvent::Published(f)) => if f != frame {
            MjpegStand::Astray
        } else {
            MjpegStand::Draining(rest)
        },
        (MjpegStand::Reading(buf), MjpegEvent::Read(res)) => match res {
            Err(e) => MjpegStand::Over(Err(e@)),
            Ok(b) => if b@.len() == 0 {
                MjpegStand::Over(Ok(()))
            } else {
                MjpegStand::Top(buf + b@)
            },
        },
        _ => MjpegStand::Astray,
    }
}

/// Where doing all of `ev` takes it.
pub open spec fn mjpeg_run(
    content_type: Seq<char>,
    max_buffer: nat,
    ev: Seq<MjpegEvent>,
) -> MjpegStand
    decreases ev.len(),
{
    if ev.len() == 0 {
        MjpegStand::Start
    } else {
        mjpeg_step(
            content_type,
            max_buffer,
            mjpeg_run(content_type, max_buffer, ev.drop_last()),
            ev.last(),
        )
    }
}

/// How many reads there were.
pub open spec fn reads(ev: Seq<MjpegEvent>) -> int
    decreases ev.len(),
{
    if ev.len() == 0 {
        0
    } else {
        reads(ev.drop_last()) + (if ev.last() is Read {
            1int
        } else {
            0int
        })
    }
}

proof fn lemma_mjpeg(
    ct: Seq<char>,
    max: nat,
    start: Seq<MjpegEvent>,
    log: Seq<MjpegEvent>,
    e: MjpegEvent,
)
    requires
        start.is_prefix_of(log),
    ensures
        start.is_prefix_of(log.push(e)),
        mjpeg_run(ct, max, log.push(e).skip(start.len() as int)) == mjpeg_step(
            ct,
            max,
            mjpeg_run(ct, max, log.skip(start.len() as int)),
            e,
        ),
        reads(log.push(e).skip(start.len() as int)) == reads(log.skip(start.len() as int)) + (
        if e is Read {
            1int
        } else {
            0int
        }),
{
    let all = log.push(e).skip(start.len() as int);
    assert(all.drop_last() =~= log.skip(start.len() as int));
    assert(all.last() == e);
}

fn bytes_of(buf: &Vec<u8>, from: usize, to: usize) -> (r: Vec<u8>)
    requires
        from <= to <= buf@.len(),
    ensures
        r@ == buf@.subrange(from as int, to as int),
{
    let mut out: Vec<u8> = Vec::new();
    let mut i: usize = from;
    while i < to
        invariant
            from <= i <= to <= buf@.len(),
            out@ == buf@.subrange(from as int, i as int),
        decreases to - i,
    {
        out.push(buf[i]);
        proof {
            assert(out@ =~= buf@.subrange(from as int, i + 1));
        }
        i += 1;
    }
    out
}

/// Take out and show every whole frame that is held.
fn drain<P: MjpegPort>(
    tap: &mut MjpegTap<P>,
    buf: &mut Vec<u8>,
    max_buffer: usize,
    Ghost(ct): Ghost<Seq<char>>,
    Ghost(start): Ghost<Seq<MjpegEvent>>,
) -> (r: Result<(), String>)
    requires
        start.is_prefix_of(old(tap).log()),
        mjpeg_run(ct, max_buffer as nat, old(tap).log().skip(start.len() as int))
            == MjpegStand::Draining(old(buf)@),
    ensures
        start.is_prefix_of(final(tap).log()),
        reads(final(tap).log().skip(start.len() as int)) == reads(
            old(tap).log().skip(start.len() as int),
        ),
        match r {
            Ok(_) => mjpeg_run(ct, max_buffer as nat, final(tap).log().skip(start.len() as int))
                == MjpegStand::Reading(final(buf)@),
            Err(e) => mjpeg_run(ct, max_buffer as nat, final(tap).log().skip(start.len() as int))
                == MjpegStand::Over(Err(e@)),
        },
{
    loop
        invariant
            start.is_prefix_of(tap.log()),
            reads(tap.log().skip(start.len() as int)) == reads(
                old(tap).log().skip(start.len() as int),
            ),
            mjpeg_run(ct, max_buffer as nat, tap.log().skip(start.len() as int))
                == MjpegStand::Draining(buf@),
        decreases buf@.len(),
    {
        let ghost before = tap.log();
        let found = tap.next_frame(buf);
        proof {
            lemma_mjpeg(
                ct,
                max_buffer as nat,
                start,
                before,
                MjpegEvent::Framed { buf: buf@, res: found },
            );
        }
        let at: Option<FrameAt> = match found {
            Err(e) => {
                return Err(e);
            },
            Ok(at) => at,
        };
        if at.is_none() || buf.len() == 0 {
            if buf.len() > max_buffer {
                let n = decimal(buf.len() as u64);
                return Err(
                    join3(
                        "no frame boundary in ",
                        n.as_str(),
                        " bytes; the source is not the stream it claimed",
                    ),
                );
            }
            return Ok(());
        }
        if let Some(at) = at {
            let end: usize = if at.end > buf.len() {
                buf.len()
            } else {
                at.end
            };
            let from: usize = if at.start > end {
                end
            } else {
                at.start
            };
            let used: usize = if at.used > buf.len() {
                buf.len()
            } else if at.used == 0 {
                1
            } else {
                at.used
            };
            let frame = bytes_of(buf, from, end);
            let n: usize = buf.len();
            let rest = bytes_of(buf, used, n);
            proof {
                assert(frame@ == frame_in(buf@, at));
                assert(rest@ =~= rest_after(buf@, at));
            }
            *buf = rest;
            let ghost before = tap.log();
            let yes: bool = tap.is_jpeg(&frame);
            proof {
                lemma_mjpeg(
                    ct,
                    max_buffer as nat,
                    start,
                    before,
                    MjpegEvent::Jpeg { frame: frame@, yes },
                );
            }
            if yes {
                let ghost before = tap.log();
                tap.publish(&frame);
                proof {
                    lemma_mjpeg(
                        ct,
                        max_buffer as nat,
                        start,
                        before,
                        MjpegEvent::Published(frame@),
                    );
                }
            }
        }
    }
}

/// Read one stream to its end and show each frame of it. The frames that are whole
/// are taken out before more is read, so that a fast camera does not fill the
/// memory; a stream without frames is given up.
pub fn pump_mjpeg<P: MjpegPort>(
    tap: &mut MjpegTap<P>,
    content_type: &str,
    max_buffer: usize,
) -> (r: Result<(), String>)
    ensures
        old(tap).log().is_prefix_of(final(tap).log()),
        ({
            let ev = final(tap).log().skip(old(tap).log().len() as int);
            let end = mjpeg_run(content_type@, max_buffer as nat, ev);
            match r {
                Ok(_) => end == MjpegStand::Over(Ok(())) || (end is Top && reads(ev) == u64::MAX),
                Err(e) => end == MjpegStand::Over(Err(e@)),
            }
        }),
{
    let ghost start = tap.log();
    let ghost ct = content_type@;
    proof {
        assert(tap.log().skip(start.len() as int) =~= Seq::<MjpegEvent>::empty());
    }
    let ghost before = tap.log();
    let found: bool = tap.has_boundary(content_type);
    proof {
        lemma_mjpeg(
            ct,
            max_buffer as nat,
            start,
            before,
            MjpegEvent::Boundary { content_type: ct, found },
        );
    }
    if !found {
        let q = quoted(content_type);
        return Err(
            join3(
                "content-type ",
                q.as_str(),
                " names no multipart boundary; is this a stream URL?",
            ),
        );
    }
    let mut buf: Vec<u8> = Vec::new();
    let mut count: u64 = 0;
    proof {
        assert(buf@ =~= Seq::<u8>::empty());
    }
    while count < u64::MAX
        invariant
            ct == content_type@,
            start == old(tap).log(),
            start.is_prefix_of(tap.log()),
            reads(tap.log().skip(start.len() as int)) == count,
            mjpeg_run(ct, max_buffer as nat, tap.log().skip(start.len() as int))
                == MjpegStand::Top(buf@),
        decreases u64::MAX - count,
    {
        let ghost before = tap.log();
        let gone: bool = tap.closed();
        proof {
            lemma_mjpeg(ct, max_buffer as nat, start, before, MjpegEvent::Closed(gone));
        }
        if gone {
            return Ok(());
        }
        if let Err(e) = drain(tap, &mut buf, max_buffer, Ghost(ct), Ghost(start)) {
            return Err(e);
        }
        let ghost before = tap.log();
        let read = tap.read();
        proof {
            lemma_mjpeg(ct, max_buffer as nat, start, before, MjpegEvent::Read(read));
        }
        match read {
            Err(e) => {
                return Err(e);
            },
            Ok(b) => {
                if b.len() == 0 {
                    return Ok(());
                }
                crate::emulate::hold(&mut buf, &b);
            },
        }
        count += 1;
    }
    Ok(())
}

/// What becomes of a picture that was fetched.
#[derive(Debug)]
pub enum SnapshotStep {
    /// It is shown.
    Publish(Vec<u8>),
    /// It is not, and whoever runs the server is told.
    Say(String),
}

/// What becomes of a picture that was fetched: only a JPEG is shown.
pub fn snapshot_step(res: Result<Vec<u8>, String>, jpeg: bool) -> (r: SnapshotStep)
    ensures
        match res {
            Ok(frame) => if jpeg {
                r == SnapshotStep::Publish(frame)
            } else {
                r matches SnapshotStep::Say(t) && t@ == "emulate-camera: source returned "@
                    + digits(frame@.len()) + " bytes that are not a JPEG; skipped"@
            },
            Err(e) => r matches SnapshotStep::Say(t) && t@ == "emulate-camera: snapshot failed: "@
                + e@,
        },
{
    match res {
        Ok(frame) => if jpeg {
            SnapshotStep::Publish(frame)
        } else {
            let n = decimal(frame.len() as u64);
            SnapshotStep::Say(
                join3(
                    "emulate-camera: source returned ",
                    n.as_str(),
                    " bytes that are not a JPEG; skipped",
                ),
            )
        },
        Err(e) => SnapshotStep::Say(join2("emulate-camera: snapshot failed: ", e.as_str())),
    }
}

// ── One viewer ──────────────────────────────────────────────────────────────

/// What comes from a viewer that has not said who it is.
#[derive(Debug)]
pub enum AuthInput {
    /// Bytes; none once it has gone.
    Bytes(Vec<u8>),
    Failed(String),
    /// Nothing came in time.
    Late,
}

/// What serving a viewer asks of the outside.
pub trait ViewerPort {
    /// The access code in the packet that is held; none where it is not whole.
    fn parse_auth(&mut self, buf: &Vec<u8>) -> Result<Option<String>, String>;

    /// Wait for more of the packet, for 10 s at most.
    fn receive(&mut self) -> AuthInput;

    /// The frame that is shown now.
    fn latest(&mut self) -> Option<Vec<u8>>;

    /// Send a frame, behind the header that says how long it is.
    fn write_frame(&mut self, frame: &Vec<u8>) -> Result<(), String>;

    /// Wait for another frame; whether there can be one.
    fn changed(&mut self) -> bool;
}

/// One thing that was asked of the outside and its answer.
#[allow(inconsistent_fields)]
pub enum ViewerEvent {
    Parsed { buf: Seq<u8>, res: Result<Option<String>, String> },
    Received(AuthInput),
    Latest(Option<Seq<u8>>),
    Wrote { frame: Seq<u8>, res: Result<(), String> },
    Changed(bool),
}

/// A port and the log of what went through it.
pub struct ViewerTap<P> {
    port: P,
    events: Ghost<Seq<ViewerEvent>>,
}

impl<P: ViewerPort> ViewerTap<P> {
    /// What went through the port so far.
    pub closed spec fn log(self) -> Seq<ViewerEvent> {
        self.events@
    }

    /// The port as it is now.
    pub closed spec fn inner(self) -> P {
        self.port
    }

    pub fn new(port: P) -> (r: ViewerTap<P>)
        ensures
            r.inner() == port,
            r.log() == Seq::<ViewerEvent>::empty(),
    {
        ViewerTap { port, events: Ghost(Seq::empty()) }
    }

    /// The port again.
    pub fn into_port(self) -> (r: P)
        ensures
            r == self.inner(),
    {
        self.port
    }

    fn parse_auth(&mut self, buf: &Vec<u8>) -> (r: Result<Option<String>, String>)
        ensures
            final(self).log() == old(self).log().push(ViewerEvent::Parsed { buf: buf@, res: r }),
    {
        let r = self.port.parse_auth(buf);
        self.events = Ghost(self.events@.push(ViewerEvent::Parsed { buf: buf@, res: r }));
        r
    }

    fn receive(&mut self) -> (r: AuthInput)
        ensures
            final(self).log() == old(self).log().push(ViewerEvent::Received(r)),
    {
        let r = self.port.receive();
        self.events = Ghost(self.events@.push(ViewerEvent::Received(r)));
        r
    }

    fn latest(&mut self) -> (r: Option<Vec<u8>>)
        ensures
            final(self).log() == old(self).log().push(ViewerEvent::Latest(crate::emulate::opt_bytes(r))),
    {
        let r = self.port.latest();
        self.events = Ghost(self.events@.push(ViewerEvent::Latest(crate::emulate::opt_bytes(r))));
        r
    }

    fn write_frame(&mut self, frame: &Vec<u8>) -> (r: Result<(), String>)
        ensures
            final(self).log() == old(self).log().push(ViewerEvent::Wrote { frame: frame@, res: r }),
    {
        let r = self.port.write_frame(frame);
        self.events = Ghost(self.events@.push(ViewerEvent::Wrote { frame: frame@, res: r }));
        r
    }

    fn changed(&mut self) -> (r: bool)
        ensures
            final(self).log() == old(self).log().push(ViewerEvent::Changed(r)),
    {
        let r: bool = self.port.changed();
        self.events = Ghost(self.events@.push(ViewerEvent::Changed(r)));
        r
    }
}

/// How serving a viewer ended: with how many frames it was sent, or with why it
/// broke off.
pub type ViewerEnd = Result<int, Seq<char>>;

/// Where serving a viewer stands.
pub enum ViewerStand {
    /// With so much of the packet.
    Auth(Seq<u8>),
    Waiting(Seq<u8>),
    /// Let in, with so many frames sent.
    Looking(int),
    Sending(Seq<u8>, int),
    Idle(int),
    Over(ViewerEnd),
    /// Something else was done.
    Astray,
}

pub open spec fn too_long() -> Seq<char> {
    "authentication packet is longer than "@ + digits(AUTH_PACKET as nat) + " bytes"@
}

pub open spec fn gave_up(sent: int, len: nat) -> Seq<char> {
    "after "@ + digits(sent as nat) + " frame(s), "@ + digits(len) + " bytes"@
}

/// What serving a viewer does where it stands, and where that takes it.
pub open spec fn viewer_step(code: Seq<char>, s: ViewerStand, e: ViewerEvent) -> ViewerStand {
    match (s, e) {
        (ViewerStand::Auth(buf), ViewerEvent::Parsed { buf: b, res }) => if b != buf {
            ViewerStand::Astray
        } else {
            match res {
                Err(e) => ViewerStand::Over(Err(e@)),
                Ok(None) => ViewerStand::Waiting(buf),
                Ok(Some(c)) => if c@ == code {
                    ViewerStand::Looking(0)
                } else {
                    ViewerStand::Over(Err("wrong access code"@))
                },
            }
        },
        (ViewerStand::Waiting(buf), ViewerEvent::Received(input)) => match input {
            AuthInput::Bytes(b) => if b@.len() == 0 {
                ViewerStand::Over(Ok(0))
            } else if buf.len() + b@.len() > AUTH_PACKET {
                ViewerStand::Over(Err(too_long()))
            } else {
                ViewerStand::Auth(buf + b@)
            },
            AuthInput::Failed(e) => ViewerStand::Over(Err(e@)),
            AuthInput::Late => ViewerStand::Over(Err("no authentication within 10s"@)),
        },
        (ViewerStand::Looking(n), ViewerEvent::Latest(f)) => match f {
            Some(frame) => ViewerStand::Sending(frame, n),
            None => ViewerStand::Idle(n),
        },
        (ViewerStand::Sending(frame, n), ViewerEvent::Wrote { frame: f, res }) => if f != frame {
            ViewerStand::Astray
        } else if res is Ok {
            ViewerStand::Idle(n + 1)
        } else {
            ViewerStand::Over(Err(gave_up(n, frame.len())))
        },
        (ViewerStand::Idle(n), ViewerEvent::Changed(more)) => if more {
            ViewerStand::Looking(n)
        } else {
            ViewerStand::Over(Ok(n))
        },
        _ => ViewerStand::Astray,
    }
}

/// Where doing all of `ev` takes it.
pub open spec fn viewer_run(code: Seq<char>, ev: Seq<ViewerEvent>) -> ViewerStand
    decreases ev.len(),
{
    if ev.len() == 0 {
        ViewerStand::Auth(Seq::empty())
    } else {
        viewer_step(code, viewer_run(code, ev.drop_last()), ev.last())
    }
}

/// How often a frame was looked for.
pub open spec fn looks(ev: Seq<ViewerEvent>) -> int
    decreases ev.len(),
{
    if ev.len() == 0 {
        0
    } else {
        looks(ev.drop_last()) + (if ev.last() is Latest {
            1int
        } else {
            0int
        })
    }
}

proof fn lemma_viewer(
    code: Seq<char>,
    start: Seq<ViewerEvent>,
    log: Seq<ViewerEvent>,
    e: ViewerEvent,
)
    requires
        start.is_prefix_of(log),
    ensures
        start.is_prefix_of(log.push(e)),
        viewer_run(code, log.push(e).skip(start.len() as int)) == viewer_step(
            code,
            viewer_run(code, log.skip(start.len() as int)),
            e,
        ),
        looks(log.push(e).skip(start.len() as int)) == looks(log.skip(start.len() as int)) + (
        if e is Latest {
            1int
        } else {
            0int
        }),
{
    let all = log.push(e).skip(start.len() as int);
    assert(all.drop_last() =~= log.skip(start.len() as int));
    assert(all.last() == e);
}

/// Who is let in to look.
#[derive(Debug)]
pub struct CameraRelay {
    access_code: String,
}

impl CameraRelay {
    pub closed spec fn code(self) -> Seq<char> {
        self.access_code@
    }

    pub fn new(access_code: &str) -> (r: CameraRelay)
        ensures
            r.code() == access_code@,
    {
        CameraRelay { access_code: access_code.to_owned() }
    }

    /// Let a viewer in, where it gives the access code. `false` where it left before
    /// it had.
    fn let_viewer_in<P: ViewerPort>(
        &self,
        tap: &mut ViewerTap<P>,
        Ghost(start): Ghost<Seq<ViewerEvent>>,
    ) -> (r: Result<bool, String>)
        requires
            start == old(tap).log(),
        ensures
            start.is_prefix_of(final(tap).log()),
            looks(final(tap).log().skip(start.len() as int)) == 0,
            ({
                let end = viewer_run(self.code(), final(tap).log().skip(start.len() as int));
                match r {
                    Ok(true) => end == ViewerStand::Looking(0),
                    Ok(false) => end == ViewerStand::Over(Ok(0)),
                    Err(e) => end == ViewerStand::Over(Err(e@)),
                }
            }),
    {
        let ghost code = self.code();
        let mut buf: Vec<u8> = Vec::new();
        proof {
            assert(tap.log().skip(start.len() as int) =~= Seq::<ViewerEvent>::empty());
            assert(buf@ =~= Seq::<u8>::empty());
        }
        loop
            invariant
                code == self.code(),
                start.is_prefix_of(tap.log()),
                looks(tap.log().skip(start.len() as int)) == 0,
                buf@.len() <= AUTH_PACKET,
                viewer_run(code, tap.log().skip(start.len() as int)) == ViewerStand::Auth(buf@),
            decreases AUTH_PACKET - buf@.len(),
        {
            let ghost before = tap.log();
            let parsed = tap.parse_auth(&buf);
            proof {
                lemma_viewer(code, start, before, ViewerEvent::Parsed { buf: buf@, res: parsed });
            }
            match parsed {
                Err(e) => {
                    return Err(e);
                },
                Ok(Some(given)) => {
                    if same_text(given.as_str(), self.access_code.as_str()) {
                        return Ok(true);
                    }
                    return Err("wrong access code".to_owned());
                },
                Ok(None) => {},
            }
            let ghost before = tap.log();
            let input = tap.receive();
            proof {
                lemma_viewer(code, start, before, ViewerEvent::Received(input));
            }
            match input {
                AuthInput::Bytes(b) => {
                    if b.len() == 0 {
                        return Ok(false);
                    }
                    if b.len() > AUTH_PACKET || buf.len() + b.len() > AUTH_PACKET {
                        let n = decimal(AUTH_PACKET as u64);
                        return Err(
                            join3(
                                "authentication packet is longer than ",
                                n.as_str(),
                                " bytes",
                            ),
                        );
                    }
                    crate::emulate::hold(&mut buf, &b);
                },
                AuthInput::Failed(e) => {
                    return Err(e);
                },
                AuthInput::Late => {
                    return Err("no authentication within 10s".to_owned());
                },
            }
        }
    }

    /// Serve one viewer: let it in by the access code, show it the frame there is,
    /// and then each new one until it goes away. How many frames it was sent.
    pub fn serve_one<P: ViewerPort>(&self, tap: &mut ViewerTap<P>) -> (r: Result<u64, String>)
        ensures
            old(tap).log().is_prefix_of(final(tap).log()),
            ({
                let ev = final(tap).log().skip(old(tap).log().len() as int);
                let end = viewer_run(self.code(), ev);
                match r {
                    Ok(n) => end == ViewerStand::Over(Ok(n as int)) || (end
                        == ViewerStand::Looking(n as int) && looks(ev) == u64::MAX),
                    Err(e) => end == ViewerStand::Over(Err(e@)),
                }
            }),
    {
        let ghost start = tap.log();
        let ghost code = self.code();
        match self.let_viewer_in(tap, Ghost(start)) {
            Ok(true) => {},
            Ok(false) => {
                return Ok(0);
            },
            Err(e) => {
                return Err(e);
            },
        }
        let mut sent: u64 = 0;
        let mut count: u64 = 0;
        while count < u64::MAX
            invariant
                start == old(tap).log(),
                code == self.code(),
                start.is_prefix_of(tap.log()),
                sent <= count,
                looks(tap.log().skip(start.len() as int)) == count,
                viewer_run(code, tap.log().skip(start.len() as int)) == ViewerStand::Looking(
                    sent as int,
                ),
            decreases u64::MAX - count,
        {
            let ghost before = tap.log();
            let frame = tap.latest();
            proof {
                lemma_viewer(
                    code,
                    start,
                    before,
                    ViewerEvent::Latest(crate::emulate::opt_bytes(frame)),
                );
            }
            if let Some(f) = frame {
                let ghost before = tap.log();
                let wrote = tap.write_frame(&f);
                proof {
                    lemma_viewer(
                        code,
                        start,
                        before,
                        ViewerEvent::Wrote { frame: f@, res: wrote },
                    );
                }
                if wrote.is_err() {
                    let n = decimal(sent);
                    let len = decimal(f.len() as u64);
                    return Err(
                        join5("after ", n.as_str(), " frame(s), ", len.as_str(), " bytes"),
                    );
                }
                sent += 1;
            }
            let ghost before = tap.log();
            let more: bool = tap.changed();
            proof {
                lemma_viewer(code, start, before, ViewerEvent::Changed(more));
            }
            if !more {
                return Ok(sent);
            }
            count += 1;
        }
        Ok(sent)
    }
}

// ── Laws ────────────────────────────────────────────────────────────────────

/// The viewer gave the access code.
pub open spec fn code_given(e: ViewerEvent, code: Seq<char>) -> bool {
    e matches ViewerEvent::Parsed { buf, res: Ok(Some(c)) } && c@ == code
}

pub open spec fn let_in(s: ViewerStand) -> bool {
    s is Looking || s is Sending || s is Idle
}

proof fn lemma_let_in(code: Seq<char>, ev: Seq<ViewerEvent>)
    requires
        let_in(viewer_run(code, ev)),
    ensures
        exists|i: int| 0 <= i < ev.len() && code_given(#[trigger] ev[i], code),
    decreases ev.len(),
{
    let less = ev.drop_last();
    if let_in(viewer_run(code, less)) {
        lemma_let_in(code, less);
        let i = choose|i: int| 0 <= i < less.len() && code_given(#[trigger] less[i], code);
        assert(ev[i] == less[i]);
    } else {
        assert(code_given(ev[ev.len() - 1], code));
    }
}

/// No one sees a frame who has not given the access code before.
pub proof fn no_code_no_picture(code: Seq<char>, ev: Seq<ViewerEvent>, i: int)
    requires
        !(viewer_run(code, ev) is Astray),
        0 <= i < ev.len(),
        ev[i] is Wrote,
    ensures
        exists|j: int| 0 <= j < i && code_given(#[trigger] ev[j], code),
    decreases ev.len(),
{
    let less = ev.drop_last();
    if i < less.len() {
        no_code_no_picture(code, less, i);
        assert(less[i] == ev[i]);
        let j = choose|j: int| 0 <= j < i && code_given(#[trigger] less[j], code);
        assert(ev[j] == less[j]);
    } else {
        lemma_let_in(code, less);
        let j = choose|j: int| 0 <= j < less.len() && code_given(#[trigger] less[j], code);
        assert(ev[j] == less[j]);
    }
}

/// Only pictures are shown: what is shown was just found to be one.
pub proof fn only_pictures_are_shown(ct: Seq<char>, max: nat, ev: Seq<MjpegEvent>, i: int)
    requires
        !(mjpeg_run(ct, max, ev) is Astray),
        0 <= i < ev.len(),
        ev[i] is Published,
    ensures
        i > 0,
        ev[i - 1] == (MjpegEvent::Jpeg { frame: ev[i]->Published_0, yes: true }),
    decreases ev.len(),
{
    let less = ev.drop_last();
    if i < less.len() {
        only_pictures_are_shown(ct, max, less, i);
        assert(less[i] == ev[i]);
        assert(less[i - 1] == ev[i - 1]);
    } else {
        reveal_with_fuel(mjpeg_run, 3);
        if less.len() > 0 {
            assert(less.last() == ev[i - 1]);
        }
    }
}

/// What is held of a stream while more is read stays within its limit.
pub proof fn a_stream_without_frames_is_given_up(ct: Seq<char>, max: nat, ev: Seq<MjpegEvent>)
    ensures
        mjpeg_run(ct, max, ev) matches MjpegStand::Reading(buf) ==> buf.len() <= max,
    decreases ev.len(),
{
    if ev.len() > 0 {
        a_stream_without_frames_is_given_up(ct, max, ev.drop_last());
    }
}

/// All that a viewer sent, in order.
pub open spec fn viewer_sent(ev: Seq<ViewerEvent>) -> Seq<u8>
    decreases ev.len(),
{
    if ev.len() == 0 {
        Seq::empty()
    } else {
        viewer_sent(ev.drop_last()) + (match ev.last() {
            ViewerEvent::Received(AuthInput::Bytes(b)) => b@,
            _ => Seq::empty(),
        })
    }
}

/// How many frames went out whole.
pub open spec fn frames_out(ev: Seq<ViewerEvent>) -> int
    decreases ev.len(),
{
    if ev.len() == 0 {
        0
    } else {
        frames_out(ev.drop_last()) + (match ev.last() {
            ViewerEvent::Wrote { frame, res: Ok(_) } => 1int,
            _ => 0int,
        })
    }
}

/// Who a viewer says it is is read out of all that it sent; it is let in with the code
/// and with nothing else; and the frames that are counted are those that went out.
pub proof fn a_viewer_is_heard_and_counted(code: Seq<char>, ev: Seq<ViewerEvent>)
    requires
        !(viewer_run(code, ev) is Astray),
    ensures
        viewer_run(code, ev) matches ViewerStand::Auth(b) ==> b == viewer_sent(ev) && b.len() <= 80,
        viewer_run(code, ev) matches ViewerStand::Waiting(b) ==> b == viewer_sent(ev),
        viewer_run(code, ev) matches ViewerStand::Looking(n) ==> n == frames_out(ev),
        viewer_run(code, ev) matches ViewerStand::Sending(f, n) ==> n == frames_out(ev),
        viewer_run(code, ev) matches ViewerStand::Idle(n) ==> n == frames_out(ev),
        viewer_run(code, ev) matches ViewerStand::Over(Ok(n)) ==> n == frames_out(ev),
        (viewer_run(code, ev) is Auth || viewer_run(code, ev) is Waiting) ==> frames_out(ev) == 0,
    decreases ev.len(),
{
    if ev.len() > 0 {
        a_viewer_is_heard_and_counted(code, ev.drop_last());
        let more = match ev.last() {
            ViewerEvent::Received(AuthInput::Bytes(b)) => b@,
            _ => Seq::<u8>::empty(),
        };
        assert(viewer_sent(ev) =~= viewer_sent(ev.drop_last()) + more);
    }
}

/// A wrong code ends it there and then, and the right one does not.
pub proof fn a_wrong_code_ends_it(code: Seq<char>, ev: Seq<ViewerEvent>, c: String)
    requires
        viewer_run(code, ev) is Auth,
    ensures
        ({
            let next = viewer_run(
                code,
                ev.push(ViewerEvent::Parsed { buf: viewer_sent(ev), res: Ok(Some(c)) }),
            );
            &&& c@ == code ==> next == ViewerStand::Looking(0)
            &&& c@ != code ==> (next matches ViewerStand::Over(Err(_)))
        }),
{
    a_viewer_is_heard_and_counted(code, ev);
    let all = ev.push(ViewerEvent::Parsed { buf: viewer_sent(ev), res: Ok(Some(c)) });
    assert(all.drop_last() =~= ev);
}

/// What is sent to a viewer is the latest frame, as it was just looked up.
pub proof fn the_latest_frame_is_sent(code: Seq<char>, ev: Seq<ViewerEvent>, i: int)
    requires
        !(viewer_run(code, ev) is Astray),
        0 <= i < ev.len(),
        ev[i] is Wrote,
    ensures
        i > 0,
        ev[i - 1] matches ViewerEvent::Latest(Some(f)) && f == ev[i]->Wrote_frame,
    decreases ev.len(),
{
    let less = ev.drop_last();
    if i < less.len() {
        the_latest_frame_is_sent(code, less, i);
        assert(less[i] == ev[i]);
        assert(less[i - 1] == ev[i - 1]);
    } else {
        reveal_with_fuel(viewer_run, 3);
        assert(less.len() > 0);
        assert(less.last() == ev[i - 1]);
    }
}

/// All that was read of a stream, in order.
pub open spec fn stream_read(ev: Seq<MjpegEvent>) -> Seq<u8>
    decreases ev.len(),
{
    if ev.len() == 0 {
        Seq::empty()
    } else {
        stream_read(ev.drop_last()) + (match ev.last() {
            MjpegEvent::Read(Ok(b)) => b@,
            _ => Seq::empty(),
        })
    }
}

/// What is held of a stream where taking it apart stands.
pub open spec fn held_of(s: MjpegStand) -> Option<Seq<u8>> {
    match s {
        MjpegStand::Top(b) => Some(b),
        MjpegStand::Draining(b) => Some(b),
        MjpegStand::Judging(_, rest) => Some(rest),
        MjpegStand::Publishing(_, rest) => Some(rest),
        MjpegStand::Reading(b) => Some(b),
        _ => None,
    }
}

/// What is held of a stream is always the end of what was read of it: nothing is put
/// in, moved or taken out of its middle.
pub proof fn what_is_held_is_the_end_of_the_stream(ct: Seq<char>, max: nat, ev: Seq<MjpegEvent>)
    requires
        !(mjpeg_run(ct, max, ev) is Astray),
    ensures
        held_of(mjpeg_run(ct, max, ev)) matches Some(b) ==> b.is_suffix_of(stream_read(ev)),
        mjpeg_run(ct, max, ev) is Start ==> stream_read(ev).len() == 0,
    decreases ev.len(),
{
    if ev.len() > 0 {
        let less = ev.drop_last();
        what_is_held_is_the_end_of_the_stream(ct, max, less);
        let before = mjpeg_run(ct, max, less);
        let more = match ev.last() {
            MjpegEvent::Read(Ok(b)) => b@,
            _ => Seq::<u8>::empty(),
        };
        let all = stream_read(ev);
        let was = stream_read(less);
        assert(all == was + more);
        if let Some(b) = held_of(mjpeg_run(ct, max, ev)) {
            if ev.last() is Read {
                let h = held_of(before)->0;
                assert(b =~= h + more);
                assert(was.subrange(was.len() - h.len(), was.len() as int) == h);
                assert(all.subrange(all.len() - b.len(), all.len() as int) =~= b);
            } else {
                assert(all =~= was);
                if ev.last() is Boundary {
                    assert(all.subrange(all.len() as int, all.len() as int) =~= b);
                } else {
                    let h = held_of(before)->0;
                    assert(was.subrange(was.len() - h.len(), was.len() as int) == h);
                    let used = h.len() - b.len();
                    assert(0 <= used <= h.len() && b =~= h.skip(used));
                    assert(all.subrange(all.len() - b.len(), all.len() as int) =~= b);
                }
            }
        }
    }
}

/// A frame is the part of what is held that was marked as one, and what follows it stays
/// to be looked at.
pub proof fn a_frame_is_what_was_marked(buf: Seq<u8>, at: FrameAt)
    requires
        at.start <= at.end <= at.used <= buf.len(),
        at.used > 0,
    ensures
        frame_in(buf, at).len() == at.end - at.start,
        forall|j: int|
            0 <= j < at.end - at.start ==> #[trigger] frame_in(buf, at)[j] == buf[at.start + j],
        rest_after(buf, at).len() == buf.len() - at.used,
        buf.take(at.used as int) + rest_after(buf, at) == buf,
{
    assert(buf.take(at.used as int) + rest_after(buf, at) =~= buf);
}

/// What is judged to be a picture is the frame that was marked just before in what is
/// held.
pub proof fn a_picture_comes_out_of_the_stream(
    ct: Seq<char>,
    max: nat,
    ev: Seq<MjpegEvent>,
    i: int,
)
    requires
        !(mjpeg_run(ct, max, ev) is Astray),
        0 <= i < ev.len(),
        ev[i] is Jpeg,
    ensures
        i > 0,
        ev[i - 1] matches MjpegEvent::Framed { buf, res: Ok(Some(at)) } && (at.start <= at.end
            <= buf.len() ==> ev[i]->Jpeg_frame == buf.subrange(at.start as int, at.end as int)),
    decreases ev.len(),
{
    let less = ev.drop_last();
    if i < less.len() {
        a_picture_comes_out_of_the_stream(ct, max, less, i);
        assert(less[i] == ev[i]);
        assert(less[i - 1] == ev[i - 1]);
    } else {
        reveal_with_fuel(mjpeg_run, 3);
        assert(less.len() > 0);
        assert(less.last() == ev[i - 1]);
    }
}

} // verus!
