//! A preview of the parked frame of each layer: reading the frames of a stream,
//! handing them to the detector, and writing out what it finds.
//!
//! What is done outside goes through a [`ParkPort`], and a [`ParkTap`] keeps the
//! log of it. What a whole run does is stated by a machine that reads that log.
use vstd::prelude::*;

use crate::number::{decimal, digits, padded, padded_decimal};
use crate::slicer::{inside, join_path};
use crate::text::{join3, join5, texts};

verus! {

/// The size of the frames that the detector looks at.
pub const DECODE_W: usize = 64;

pub const DECODE_H: usize = 36;

/// The filter that makes one stream into the full frames and the small grey ones,
/// in step. The rate is a number as it is written.
pub open spec fn park_filter(fps: Seq<char>, w: usize, h: usize) -> Seq<char> {
    "[0:v]fps="@ + fps + ",split=2[full][det];[det]scale="@ + digits(w as nat) + ":"@ + digits(
        h as nat,
    ) + ",format=gray[gray]"@
}

/// The arguments of the tool that takes a stream apart: grey frames to its output,
/// for the detector, and full frames into a directory, by the same numbers.
pub fn live_park_args(stream_url: &str, ring_dir: &str, fps: &str, w: usize, h: usize) -> (r: Vec<
    String,
>)
    ensures
        texts(r@) == seq![
            "-v"@,
            "error"@,
            "-f"@,
            "mpjpeg"@,
            "-i"@,
            stream_url@,
            "-filter_complex"@,
            park_filter(fps@, w, h),
            "-map"@,
            "[gray]"@,
            "-f"@,
            "rawvideo"@,
            "pipe:1"@,
            "-map"@,
            "[full]"@,
            "-start_number"@,
            "0"@,
            "-q:v"@,
            "3"@,
            inside(ring_dir@, "full_%09d.jpg"@),
        ],
{
    let ws = decimal(w as u64);
    let hs = decimal(h as u64);
    let head = join5(
        "[0:v]fps=",
        fps,
        ",split=2[full][det];[det]scale=",
        ws.as_str(),
        ":",
    );
    let filter = join3(head.as_str(), hs.as_str(), ",format=gray[gray]");
    let args: Vec<String> = vec![
        "-v".to_owned(),
        "error".to_owned(),
        "-f".to_owned(),
        "mpjpeg".to_owned(),
        "-i".to_owned(),
        stream_url.to_owned(),
        "-filter_complex".to_owned(),
        filter,
        "-map".to_owned(),
        "[gray]".to_owned(),
        "-f".to_owned(),
        "rawvideo".to_owned(),
        "pipe:1".to_owned(),
        "-map".to_owned(),
        "[full]".to_owned(),
        "-start_number".to_owned(),
        "0".to_owned(),
        "-q:v".to_owned(),
        "3".to_owned(),
        join_path(ring_dir, "full_%09d.jpg"),
    ];
    proof {
        assert(texts(args@) =~= seq![
            "-v"@,
            "error"@,
            "-f"@,
            "mpjpeg"@,
            "-i"@,
            stream_url@,
            "-filter_complex"@,
            park_filter(fps@, w, h),
            "-map"@,
            "[gray]"@,
            "-f"@,
            "rawvideo"@,
            "pipe:1"@,
            "-map"@,
            "[full]"@,
            "-start_number"@,
            "0"@,
            "-q:v"@,
            "3"@,
            inside(ring_dir@, "full_%09d.jpg"@),
        ]);
    }
    args
}

/// The full frame of this number.
pub open spec fn ring_path(ring_dir: Seq<char>, idx: u64) -> Seq<char> {
    inside(ring_dir, "full_"@ + padded(idx as nat, 9) + ".jpg"@)
}

/// The full frame of this number.
pub fn ring_jpeg_path(ring_dir: &str, idx: u64) -> (r: String)
    ensures
        r@ == ring_path(ring_dir@, idx),
{
    let d = padded_decimal(idx, 9);
    let file = join3("full_", d.as_str(), ".jpg");
    join_path(ring_dir, file.as_str())
}

// ── The outside ─────────────────────────────────────────────────────────────

/// A frame in which the head is parked. Its figures are numbers as they are
/// written.
#[derive(Debug)]
pub struct Park {
    pub idx: u64,
    pub t: String,
    pub left_mass: String,
    pub sharpness: String,
    pub confidence: String,
    /// It is a better one of the park before it.
    pub replace: bool,
}

/// What a run of the detector asks of the outside.
pub trait ParkPort {
    /// Whether the run is to end.
    fn cancelled(&mut self) -> bool;

    /// Read at most so many bytes of the grey stream; none at its end.
    fn read(&mut self, want: usize) -> Result<Vec<u8>, String>;

    /// Hand a frame to the detector; a park that it is now sure of.
    fn detect(&mut self, frame: &Vec<u8>, idx: u64) -> Option<Park>;

    /// The park that the detector still held, at the end.
    fn flush(&mut self) -> Option<Park>;

    /// Wait a little for a full frame; whether it is there.
    fn await_ring(&mut self, path: &str) -> bool;

    fn copy(&mut self, from: &str, to: &str) -> Result<(), String>;

    fn rename(&mut self, from: &str, to: &str) -> Result<(), String>;

    /// Add a line to a file, which is made where it is not there.
    fn append(&mut self, path: &str, line: &str) -> Result<(), String>;
}

/// One thing that was asked of the outside and its answer.
#[allow(inconsistent_fields)]
pub enum ParkEvent {
    Cancelled(bool),
    Read { want: usize, res: Result<Vec<u8>, String> },
    Pushed { frame: Seq<u8>, idx: u64, res: Option<Park> },
    Flushed(Option<Park>),
    Ring { path: Seq<char>, ready: bool },
    Copied { from: Seq<char>, to: Seq<char>, res: Result<(), String> },
    Renamed { from: Seq<char>, to: Seq<char>, res: Result<(), String> },
    Appended { path: Seq<char>, line: Seq<char>, res: Result<(), String> },
}

/// A port and the log of what went through it.
pub struct ParkTap<P> {
    port: P,
    events: Ghost<Seq<ParkEvent>>,
}

impl<P: ParkPort> ParkTap<P> {
    /// What went through the port so far.
    pub closed spec fn log(self) -> Seq<ParkEvent> {
        self.events@
    }

    /// The port as it is now.
    pub closed spec fn inner(self) -> P {
        self.port
    }

    pub fn new(port: P) -> (r: ParkTap<P>)
        ensures
            r.inner() == port,
            r.log() == Seq::<ParkEvent>::empty(),
    {
        ParkTap { port, events: Ghost(Seq::empty()) }
    }

    /// The port again.
    pub fn into_port(self) -> (r: P)
        ensures
            r == self.inner(),
    {
        self.port
    }

    fn cancelled(&mut self) -> (r: bool)
        ensures
            final(self).log() == old(self).log().push(ParkEvent::Cancelled(r)),
    {
        let r: bool = self.port.cancelled();
        self.events = Ghost(self.events@.push(ParkEvent::Cancelled(r)));
        r
    }

    fn read(&mut self, want: usize) -> (r: Result<Vec<u8>, String>)
        ensures
            final(self).log() == old(self).log().push(ParkEvent::Read { want, res: r }),
    {
        let r = self.port.read(want);
        self.events = Ghost(self.events@.push(ParkEvent::Read { want, res: r }));
        r
    }

    fn detect(&mut self, frame: &Vec<u8>, idx: u64) -> (r: Option<Park>)
        ensures
            final(self).log() == old(self).log().push(
                ParkEvent::Pushed { frame: frame@, idx, res: r },
            ),
    {
        let r = self.port.detect(frame, idx);
        self.events = Ghost(self.events@.push(ParkEvent::Pushed { frame: frame@, idx, res: r }));
        r
    }

    fn flush(&mut self) -> (r: Option<Park>)
        ensures
            final(self).log() == old(self).log().push(ParkEvent::Flushed(r)),
    {
        let r = self.port.flush();
        self.events = Ghost(self.events@.push(ParkEvent::Flushed(r)));
        r
    }

    fn await_ring(&mut self, path: &str) -> (r: bool)
        ensures
            final(self).log() == old(self).log().push(
                ParkEvent::Ring { path: path@, ready: r },
            ),
    {
        let r: bool = self.port.await_ring(path);
        self.events = Ghost(self.events@.push(ParkEvent::Ring { path: path@, ready: r }));
        r
    }

    fn copy(&mut self, from: &str, to: &str) -> (r: Result<(), String>)
        ensures
            final(self).log() == old(self).log().push(
                ParkEvent::Copied { from: from@, to: to@, res: r },
            ),
    {
        let r = self.port.copy(from, to);
        self.events = Ghost(self.events@.push(ParkEvent::Copied { from: from@, to: to@, res: r }));
        r
    }

    fn rename(&mut self, from: &str, to: &str) -> (r: Result<(), String>)
        ensures
            final(self).log() == old(self).log().push(
                ParkEvent::Renamed { from: from@, to: to@, res: r },
            ),
    {
        let r = self.port.rename(from, to);
        self.events = Ghost(self.events@.push(ParkEvent::Renamed { from: from@, to: to@, res: r }));
        r
    }

    fn append(&mut self, path: &str, line: &str) -> (r: Result<(), String>)
        ensures
            final(self).log() == old(self).log().push(
                ParkEvent::Appended { path: path@, line: line@, res: r },
            ),
    {
        let r = self.port.append(path, line);
        self.events =
        Ghost(self.events@.push(ParkEvent::Appended { path: path@, line: line@, res: r }));
        r
    }
}

// ── Writing a park ──────────────────────────────────────────────────────────

/// Writes out the parks of a run. A better frame of a park takes the place of the
/// one before it, so that there is one frame per park.
#[derive(Debug)]
pub struct ParkWriter {
    out_dir: String,
    emitted: u64,
}

pub open spec fn bool_text(b: bool) -> Seq<char> {
    if b {
        "true"@
    } else {
        "false"@
    }
}

/// The line of the index on a park.
pub open spec fn park_line(n: u64, p: Park, replace: bool) -> Seq<char> {
    "{\"confidence\":"@ + p.confidence@ + ",\"idx\":"@ + digits(p.idx as nat) + ",\"left_mass\":"@
        + p.left_mass@ + ",\"n\":"@ + digits(n as nat) + ",\"replace\":"@ + bool_text(replace)
        + ",\"sharpness\":"@ + p.sharpness@ + ",\"t\":"@ + p.t@ + "}"@
}

fn line_of(n: u64, p: &Park, replace: bool) -> (r: String)
    ensures
        r@ == park_line(n, *p, replace),
{
    let idx = decimal(p.idx);
    let num = decimal(n);
    let again = if replace {
        "true"
    } else {
        "false"
    };
    let a = join5(
        "{\"confidence\":",
        p.confidence.as_str(),
        ",\"idx\":",
        idx.as_str(),
        ",\"left_mass\":",
    );
    let b = join5(a.as_str(), p.left_mass.as_str(), ",\"n\":", num.as_str(), ",\"replace\":");
    let c = join5(b.as_str(), again, ",\"sharpness\":", p.sharpness.as_str(), ",\"t\":");
    join3(c.as_str(), p.t.as_str(), "}")
}

/// The frame takes the place of the one before it: it says so, and there is one.
pub open spec fn replaces(p: Park, emitted: u64) -> bool {
    p.replace && emitted > 0
}

/// The number that the frame is written under.
pub open spec fn frame_number(p: Park, emitted: u64) -> u64 {
    if replaces(p, emitted) {
        (emitted - 1) as u64
    } else {
        emitted
    }
}

/// How many frames there are once this one is written.
pub open spec fn emitted_after(p: Park, emitted: u64) -> u64 {
    if replaces(p, emitted) {
        emitted
    } else {
        (emitted + 1) as u64
    }
}

pub open spec fn tmp_path(dir: Seq<char>) -> Seq<char> {
    inside(dir, "latest_park.jpg.tmp"@)
}

pub open spec fn latest_path(dir: Seq<char>) -> Seq<char> {
    inside(dir, "latest_park.jpg"@)
}

pub open spec fn frame_path(dir: Seq<char>, n: u64) -> Seq<char> {
    inside(dir, "park_"@ + padded(n as nat, 6) + ".jpg"@)
}

pub open spec fn index_path(dir: Seq<char>) -> Seq<char> {
    inside(dir, "parks.jsonl"@)
}

pub open spec fn write_failed(r: Result<u64, String>, e: Seq<char>) -> bool {
    r matches Err(x) && x@ == e
}

/// `ev` is all that writing a park does. The latest frame is copied beside its
/// place and moved there, so that no one reads half of it.
pub open spec fn park_written(
    ev: Seq<ParkEvent>,
    dir: Seq<char>,
    p: Park,
    ring: Seq<char>,
    emitted: u64,
    r: Result<u64, String>,
) -> bool {
    let n = frame_number(p, emitted);
    &&& ev.len() >= 1
    &&& ev[0] matches ParkEvent::Copied { from, to, res }
    &&& from == ring
    &&& to == tmp_path(dir)
    &&& match res {
        Err(e) => ev.len() == 1 && write_failed(r, e@),
        Ok(_) => {
            &&& ev.len() >= 2
            &&& ev[1] matches ParkEvent::Renamed { from: f1, to: t1, res: r1 }
            &&& f1 == tmp_path(dir)
            &&& t1 == latest_path(dir)
            &&& match r1 {
                Err(e) => ev.len() == 2 && write_failed(r, e@),
                Ok(_) => {
                    &&& ev.len() >= 3
                    &&& ev[2] matches ParkEvent::Copied { from: f2, to: t2, res: r2 }
                    &&& f2 == ring
                    &&& t2 == frame_path(dir, n)
                    &&& match r2 {
                        Err(e) => ev.len() == 3 && write_failed(r, e@),
                        Ok(_) => {
                            &&& ev.len() == 4
                            &&& ev[3] matches ParkEvent::Appended { path, line, res: r3 }
                            &&& path == index_path(dir)
                            &&& line == park_line(n, p, replaces(p, emitted))
                            &&& match r3 {
                                Err(e) => write_failed(r, e@),
                                Ok(_) => r == Ok::<u64, String>(n),
                            }
                        },
                    }
                },
            }
        },
    }
}

impl ParkWriter {
    pub closed spec fn dir(self) -> Seq<char> {
        self.out_dir@
    }

    /// How many parks were written.
    pub closed spec fn count(self) -> u64 {
        self.emitted
    }

    pub fn new(out_dir: &str) -> (r: ParkWriter)
        ensures
            r.dir() == out_dir@,
            r.count() == 0,
    {
        ParkWriter { out_dir: out_dir.to_owned(), emitted: 0 }
    }

    /// How many parks were written; one that takes the place of another does not
    /// count.
    pub fn emitted(&self) -> (r: u64)
        ensures
            r == self.count(),
    {
        self.emitted
    }

    /// Write a park out: as the latest frame, under its number, and in the index.
    /// The number it was written under.
    pub fn write<P: ParkPort>(&mut self, tap: &mut ParkTap<P>, p: &Park, ring: &str) -> (r: Result<
        u64,
        String,
    >)
        requires
            old(self).count() < u64::MAX,
        ensures
            final(self).dir() == old(self).dir(),
            old(tap).log().is_prefix_of(final(tap).log()),
            park_written(
                final(tap).log().skip(old(tap).log().len() as int),
                old(self).dir(),
                *p,
                ring@,
                old(self).count(),
                r,
            ),
            final(self).count() == (if r is Ok {
                emitted_after(*p, old(self).count())
            } else {
                old(self).count()
            }),
    {
        let replace: bool = p.replace && self.emitted > 0;
        let n: u64 = if replace {
            self.emitted - 1
        } else {
            self.emitted
        };
        let dir = self.out_dir.as_str();
        let tmp = join_path(dir, "latest_park.jpg.tmp");
        let latest = join_path(dir, "latest_park.jpg");
        if let Err(e) = tap.copy(ring, tmp.as_str()) {
            return Err(e);
        }
        if let Err(e) = tap.rename(tmp.as_str(), latest.as_str()) {
            return Err(e);
        }
        let d = padded_decimal(n, 6);
        let file = join3("park_", d.as_str(), ".jpg");
        let frame = join_path(dir, file.as_str());
        if let Err(e) = tap.copy(ring, frame.as_str()) {
            return Err(e);
        }
        let line = line_of(n, p, replace);
        let index = join_path(dir, "parks.jsonl");
        if let Err(e) = tap.append(index.as_str(), line.as_str()) {
            return Err(e);
        }
        if !replace {
            self.emitted = self.emitted + 1;
        }
        Ok(n)
    }
}

// ── A run of the detector ───────────────────────────────────────────────────

/// What a run came to.
#[derive(Clone, Copy, Debug, PartialEq, Eq, Structural, Default)]
pub struct ParkRunStats {
    /// Frames that were read.
    pub frames: u64,
    /// Parks that were written: distinct frames. One that takes the place of another
    /// overwrites it and adds none.
    pub parks: u64,
    /// Parks whose full frame never came, or that could not be written: a layer
    /// that is missing shows.
    pub dropped: u64,
}

/// Where a run stands.
pub enum Phase {
    /// Before a frame.
    Top,
    /// Within a frame, of which this was read.
    Reading(Seq<u8>),
    /// With a whole frame.
    Framed(Seq<u8>),
    /// With a park, whose full frame is waited for; the last one where the stream
    /// has ended.
    Found(Park, bool),
    /// The full frame is there.
    Copying(Park, bool),
    Renaming(Park, bool),
    Numbering(Park, bool),
    Noting(Park, bool),
    /// After the last frame.
    Ending,
    Over,
    /// Something else was done.
    Astray,
}

pub struct RunState {
    pub phase: Phase,
    pub frames: int,
    /// Frames that were added.
    pub parks: int,
    /// Frames that took the place of another.
    pub replaced: int,
    pub dropped: int,
    pub emitted: u64,
}

/// What a run is about.
pub struct RunOf {
    pub frame_size: nat,
    pub ring_dir: Seq<char>,
    pub out_dir: Seq<char>,
}

pub open spec fn run_begins(emitted: u64) -> RunState {
    RunState { phase: Phase::Top, frames: 0, parks: 0, replaced: 0, dropped: 0, emitted }
}

/// After a park: on with the stream, or over where it was the last.
pub open spec fn onward(last: bool) -> Phase {
    if last {
        Phase::Over
    } else {
        Phase::Top
    }
}

pub open spec fn gone_astray(s: RunState) -> RunState {
    RunState { phase: Phase::Astray, ..s }
}

/// After a park was written: a frame was added, or took the place of another.
pub open spec fn park_kept(s: RunState, p: Park, last: bool) -> RunState {
    let again = replaces(p, s.emitted);
    RunState {
        phase: onward(last),
        parks: if again {
            s.parks
        } else {
            s.parks + 1
        },
        replaced: if again {
            s.replaced + 1
        } else {
            s.replaced
        },
        emitted: emitted_after(p, s.emitted),
        ..s
    }
}

pub open spec fn park_dropped(s: RunState, last: bool) -> RunState {
    RunState { phase: onward(last), dropped: s.dropped + 1, ..s }
}

/// The bytes of a read that count: no more than were asked for.
pub open spec fn counted(b: Seq<u8>, want: nat) -> Seq<u8> {
    if b.len() > want {
        b.take(want as int)
    } else {
        b
    }
}

/// With this much of a frame.
pub open spec fn gathered(got: Seq<u8>, size: nat) -> Phase {
    if got.len() == size {
        Phase::Framed(got)
    } else {
        Phase::Reading(got)
    }
}

/// One more frame or park could not be counted: the run then ends as with its
/// stream.
pub open spec fn uncountable(s: RunState) -> bool {
    s.frames >= u64::MAX - 1 || s.emitted >= u64::MAX - 1
}

/// What a run may do where it stands, and where that takes it.
pub open spec fn step(c: RunOf, s: RunState, e: ParkEvent) -> RunState {
    match (s.phase, e) {
        (Phase::Top, ParkEvent::Cancelled(stop)) => RunState {
            phase: if stop {
                Phase::Ending
            } else {
                gathered(Seq::empty(), c.frame_size)
            },
            ..s
        },
        (Phase::Reading(got), ParkEvent::Read { want, res }) => if want != c.frame_size
            - got.len() {
            gone_astray(s)
        } else {
            match res {
                Ok(b) => if b@.len() == 0 {
                    RunState { phase: Phase::Ending, ..s }
                } else {
                    RunState {
                        phase: gathered(got + counted(b@, want as nat), c.frame_size),
                        ..s
                    }
                },
                Err(_) => RunState { phase: Phase::Ending, ..s },
            }
        },
        (Phase::Framed(f), ParkEvent::Pushed { frame, idx, res }) => if frame != f || idx
            != s.frames {
            gone_astray(s)
        } else {
            match res {
                Some(p) => RunState { phase: Phase::Found(p, false), frames: s.frames + 1, ..s },
                None => RunState { phase: Phase::Top, frames: s.frames + 1, ..s },
            }
        },
        (Phase::Top, ParkEvent::Flushed(res)) => if !uncountable(s) {
            gone_astray(s)
        } else {
            match res {
                Some(p) => RunState { phase: Phase::Found(p, true), ..s },
                None => RunState { phase: Phase::Over, ..s },
            }
        },
        (Phase::Ending, ParkEvent::Flushed(res)) => match res {
            Some(p) => RunState { phase: Phase::Found(p, true), ..s },
            None => RunState { phase: Phase::Over, ..s },
        },
        (Phase::Found(p, last), ParkEvent::Ring { path, ready }) => if path != ring_path(
            c.ring_dir,
            p.idx,
        ) {
            gone_astray(s)
        } else if ready {
            RunState { phase: Phase::Copying(p, last), ..s }
        } else {
            park_dropped(s, last)
        },
        (Phase::Copying(p, last), ParkEvent::Copied { from, to, res }) => if from != ring_path(
            c.ring_dir,
            p.idx,
        ) || to != tmp_path(c.out_dir) {
            gone_astray(s)
        } else if res is Ok {
            RunState { phase: Phase::Renaming(p, last), ..s }
        } else {
            park_dropped(s, last)
        },
        (Phase::Renaming(p, last), ParkEvent::Renamed { from, to, res }) => if from != tmp_path(
            c.out_dir,
        ) || to != latest_path(c.out_dir) {
            gone_astray(s)
        } else if res is Ok {
            RunState { phase: Phase::Numbering(p, last), ..s }
        } else {
            park_dropped(s, last)
        },
        (Phase::Numbering(p, last), ParkEvent::Copied { from, to, res }) => if from != ring_path(
            c.ring_dir,
            p.idx,
        ) || to != frame_path(c.out_dir, frame_number(p, s.emitted)) {
            gone_astray(s)
        } else if res is Ok {
            RunState { phase: Phase::Noting(p, last), ..s }
        } else {
            park_dropped(s, last)
        },
        (Phase::Noting(p, last), ParkEvent::Appended { path, line, res }) => if path != index_path(
            c.out_dir,
        ) || line != park_line(frame_number(p, s.emitted), p, replaces(p, s.emitted)) {
            gone_astray(s)
        } else if res is Ok {
            park_kept(s, p, last)
        } else {
            park_dropped(s, last)
        },
        _ => gone_astray(s),
    }
}

/// Where doing all of `ev` takes a run.
pub open spec fn run_to(c: RunOf, s: RunState, ev: Seq<ParkEvent>) -> RunState
    decreases ev.len(),
{
    if ev.len() == 0 {
        s
    } else {
        step(c, run_to(c, s, ev.drop_last()), ev.last())
    }
}

/// What a run has done so far, one event further.
proof fn lemma_step(c: RunOf, s: RunState, start: Seq<ParkEvent>, log: Seq<ParkEvent>, e: ParkEvent)
    requires
        start.is_prefix_of(log),
    ensures
        start.is_prefix_of(log.push(e)),
        run_to(c, s, log.push(e).skip(start.len() as int)) == step(
            c,
            run_to(c, s, log.skip(start.len() as int)),
            e,
        ),
{
    let all = log.push(e).skip(start.len() as int);
    assert(all.drop_last() =~= log.skip(start.len() as int));
    assert(all.last() == e);
}

proof fn lemma_run_on(c: RunOf, s: RunState, a: Seq<ParkEvent>, b: Seq<ParkEvent>)
    ensures
        run_to(c, s, a + b) == run_to(c, run_to(c, s, a), b),
    decreases b.len(),
{
    if b.len() == 0 {
        assert(a + b =~= a);
    } else {
        assert((a + b).drop_last() =~= a + b.drop_last());
        lemma_run_on(c, s, a, b.drop_last());
    }
}

/// Writing a park takes the run past it.
proof fn lemma_written(
    c: RunOf,
    s: RunState,
    ev: Seq<ParkEvent>,
    p: Park,
    last: bool,
    r: Result<u64, String>,
)
    requires
        s.phase == Phase::Copying(p, last),
        park_written(ev, c.out_dir, p, ring_path(c.ring_dir, p.idx), s.emitted, r),
    ensures
        run_to(c, s, ev) == (if r is Ok {
            park_kept(s, p, last)
        } else {
            park_dropped(s, last)
        }),
{
    reveal_with_fuel(run_to, 5);
    let e1 = ev.take(1);
    assert(ev.take(0) =~= Seq::<ParkEvent>::empty());
    assert(ev.take(1).drop_last() =~= ev.take(0));
    if ev.len() >= 2 {
        assert(ev.take(2).drop_last() =~= ev.take(1));
    }
    if ev.len() >= 3 {
        assert(ev.take(3).drop_last() =~= ev.take(2));
    }
    if ev.len() >= 4 {
        assert(ev.take(4).drop_last() =~= ev.take(3));
    }
    assert(ev.take(ev.len() as int) =~= ev);
}

/// Read a whole frame; none at the end of the stream, or where it breaks off.
fn read_full<P: ParkPort>(
    tap: &mut ParkTap<P>,
    frame_size: usize,
    Ghost(c): Ghost<RunOf>,
    Ghost(s): Ghost<RunState>,
    Ghost(start): Ghost<Seq<ParkEvent>>,
) -> (r: Option<Vec<u8>>)
    requires
        start.is_prefix_of(old(tap).log()),
        c.frame_size == frame_size,
        run_to(c, s, old(tap).log().skip(start.len() as int)).phase == gathered(
            Seq::empty(),
            c.frame_size,
        ),
    ensures
        start.is_prefix_of(final(tap).log()),
        ({
            let was = run_to(c, s, old(tap).log().skip(start.len() as int));
            let now = run_to(c, s, final(tap).log().skip(start.len() as int));
            now == (RunState {
                phase: match r {
                    Some(f) => Phase::Framed(f@),
                    None => Phase::Ending,
                },
                ..was
            })
        }),
{
    let mut got: Vec<u8> = Vec::new();
    let ghost was = run_to(c, s, old(tap).log().skip(start.len() as int));
    proof {
        assert(got@ =~= Seq::<u8>::empty());
    }
    while got.len() < frame_size
        invariant
            got@.len() <= frame_size,
            c.frame_size == frame_size,
            start.is_prefix_of(tap.log()),
            was == run_to(c, s, old(tap).log().skip(start.len() as int)),
            run_to(c, s, tap.log().skip(start.len() as int)) == (RunState {
                phase: gathered(got@, c.frame_size),
                ..was
            }),
        decreases frame_size - got@.len(),
    {
        let want: usize = frame_size - got.len();
        let ghost before = tap.log();
        let read = tap.read(want);
        proof {
            lemma_step(c, s, start, before, ParkEvent::Read { want, res: read });
        }
        match read {
            Ok(b) => {
                if b.len() == 0 {
                    return None;
                }
                let ghost had = got@;
                let n: usize = if b.len() > want {
                    want
                } else {
                    b.len()
                };
                let mut i: usize = 0;
                while i < n
                    invariant
                        i <= n <= b@.len(),
                        got@ == had + b@.take(i as int),
                    decreases n - i,
                {
                    got.push(b[i]);
                    proof {
                        assert(b@.take(i + 1) =~= b@.take(i as int).push(b@[i as int]));
                        assert(got@ =~= had + b@.take(i + 1));
                    }
                    i += 1;
                }
                proof {
                    assert(b@.take(n as int) =~= counted(b@, want as nat));
                }
            },
            Err(_) => {
                return None;
            },
        }
    }
    Some(got)
}

/// Write out a park, once its full frame is there. Whether that added a frame; none
/// where the park was dropped.
fn emit<P: ParkPort>(
    tap: &mut ParkTap<P>,
    writer: &mut ParkWriter,
    ring_dir: &str,
    p: &Park,
    last: bool,
    Ghost(c): Ghost<RunOf>,
    Ghost(s): Ghost<RunState>,
    Ghost(start): Ghost<Seq<ParkEvent>>,
) -> (r: Option<bool>)
    requires
        start.is_prefix_of(old(tap).log()),
        c.ring_dir == ring_dir@,
        c.out_dir == old(writer).dir(),
        old(writer).count() < u64::MAX,
        run_to(c, s, old(tap).log().skip(start.len() as int)).phase == Phase::Found(*p, last),
        run_to(c, s, old(tap).log().skip(start.len() as int)).emitted == old(writer).count(),
    ensures
        start.is_prefix_of(final(tap).log()),
        final(writer).dir() == old(writer).dir(),
        ({
            let was = run_to(c, s, old(tap).log().skip(start.len() as int));
            let now = run_to(c, s, final(tap).log().skip(start.len() as int));
            &&& now == (match r {
                Some(_) => park_kept(was, *p, last),
                None => park_dropped(was, last),
            })
            &&& r matches Some(added) ==> added == !replaces(*p, old(writer).count())
            &&& now.emitted == final(writer).count()
        }),
        final(writer).count() <= old(writer).count() + 1,
{
    let path = ring_jpeg_path(ring_dir, p.idx);
    let ghost before = tap.log();
    let ready: bool = tap.await_ring(path.as_str());
    proof {
        lemma_step(c, s, start, before, ParkEvent::Ring { path: path@, ready });
    }
    if !ready {
        return None;
    }
    let ghost mid = tap.log();
    let had: u64 = writer.emitted();
    let w = writer.write(tap, p, path.as_str());
    proof {
        let a = mid.skip(start.len() as int);
        let b = tap.log().skip(mid.len() as int);
        let whole = tap.log().skip(start.len() as int);
        assert(tap.log().subrange(0, start.len() as int) =~= mid.subrange(0, start.len() as int));
        assert(whole =~= a + b);
        lemma_run_on(c, s, a, b);
        lemma_written(c, run_to(c, s, a), b, *p, last, w);
    }
    match w {
        Ok(_) => Some(writer.emitted() > had),
        Err(_) => None,
    }
}

/// The counts with one more park.
fn count_park(stats: &mut ParkRunStats, kept: Option<bool>)
    requires
        old(stats).parks < u64::MAX,
        old(stats).dropped < u64::MAX,
    ensures
        final(stats).frames == old(stats).frames,
        final(stats).parks == old(stats).parks + (if kept == Some(true) {
            1int
        } else {
            0int
        }),
        final(stats).dropped == old(stats).dropped + (if kept is None {
            1int
        } else {
            0int
        }),
{
    match kept {
        Some(added) => {
            if added {
                stats.parks = stats.parks + 1;
            }
        },
        None => {
            stats.dropped = stats.dropped + 1;
        },
    }
}

/// Where a run stands before a frame, as its counts tell it.
pub open spec fn stands(s: RunState, stats: ParkRunStats, emitted: u64) -> bool {
    &&& s.frames == stats.frames
    &&& s.parks == stats.parks
    &&& s.dropped == stats.dropped
    &&& s.emitted == emitted
}

/// Drive the detector over a grey stream and write out each park that it finds.
/// The run ends with the stream, or once it is told to; the detector then gives
/// what it still held.
pub fn detect_stream<P: ParkPort>(
    tap: &mut ParkTap<P>,
    frame_size: usize,
    ring_dir: &str,
    writer: &mut ParkWriter,
) -> (r: ParkRunStats)
    requires
        old(writer).count() < u64::MAX,
    ensures
        old(tap).log().is_prefix_of(final(tap).log()),
        final(writer).dir() == old(writer).dir(),
        final(writer).count() == old(writer).count() + r.parks,
        ({
            let c = RunOf {
                frame_size: frame_size as nat,
                ring_dir: ring_dir@,
                out_dir: old(writer).dir(),
            };
            let end = run_to(
                c,
                run_begins(old(writer).count()),
                final(tap).log().skip(old(tap).log().len() as int),
            );
            &&& end.phase is Over
            &&& stands(end, r, final(writer).count())
        }),
{
    let ghost start = tap.log();
    let ghost s0 = run_begins(writer.count());
    let ghost c = RunOf {
        frame_size: frame_size as nat,
        ring_dir: ring_dir@,
        out_dir: writer.dir(),
    };
    let mut stats = ParkRunStats { frames: 0, parks: 0, dropped: 0 };
    proof {
        assert(tap.log().skip(start.len() as int) =~= Seq::<ParkEvent>::empty());
    }
    loop
        invariant
            start == old(tap).log(),
            start.is_prefix_of(tap.log()),
            c == (RunOf {
                frame_size: frame_size as nat,
                ring_dir: ring_dir@,
                out_dir: old(writer).dir(),
            }),
            s0 == run_begins(old(writer).count()),
            old(writer).count() < u64::MAX,
            writer.dir() == old(writer).dir(),
            writer.count() < u64::MAX,
            writer.count() == old(writer).count() + stats.parks,
            stats.parks + stats.dropped <= stats.frames <= u64::MAX - 1,
            run_to(c, s0, tap.log().skip(start.len() as int)).phase is Top,
            stands(run_to(c, s0, tap.log().skip(start.len() as int)), stats, writer.count()),
        decreases u64::MAX - stats.frames,
    {
        let full: bool = stats.frames >= u64::MAX - 1 || writer.emitted() >= u64::MAX - 1;
        let frame: Option<Vec<u8>> = if full {
            None
        } else {
            let ghost before = tap.log();
            let stop: bool = tap.cancelled();
            proof {
                lemma_step(c, s0, start, before, ParkEvent::Cancelled(stop));
            }
            if stop {
                None
            } else {
                read_full(tap, frame_size, Ghost(c), Ghost(s0), Ghost(start))
            }
        };
        match frame {
            None => {
                let ghost before = tap.log();
                let held = tap.flush();
                proof {
                    lemma_step(c, s0, start, before, ParkEvent::Flushed(held));
                }
                if let Some(p) = held {
                    let kept = emit(
                        tap,
                        writer,
                        ring_dir,
                        &p,
                        true,
                        Ghost(c),
                        Ghost(s0),
                        Ghost(start),
                    );
                    count_park(&mut stats, kept);
                }
                return stats;
            },
            Some(f) => {
                let ghost before = tap.log();
                let found = tap.detect(&f, stats.frames);
                proof {
                    lemma_step(
                        c,
                        s0,
                        start,
                        before,
                        ParkEvent::Pushed { frame: f@, idx: stats.frames, res: found },
                    );
                }
                if let Some(p) = found {
                    let kept = emit(
                        tap,
                        writer,
                        ring_dir,
                        &p,
                        false,
                        Ghost(c),
                        Ghost(s0),
                        Ghost(start),
                    );
                    count_park(&mut stats, kept);
                }
                stats.frames = stats.frames + 1;
            },
        }
    }
}

// ── Laws ────────────────────────────────────────────────────────────────────

/// How many parks the detector found.
pub open spec fn parks_found(ev: Seq<ParkEvent>) -> int
    decreases ev.len(),
{
    if ev.len() == 0 {
        0
    } else {
        parks_found(ev.drop_last()) + (match ev.last() {
            ParkEvent::Pushed { frame, idx, res: Some(_) } => 1int,
            ParkEvent::Flushed(Some(_)) => 1int,
            _ => 0int,
        })
    }
}

/// How many frames the detector was handed.
pub open spec fn frames_handed(ev: Seq<ParkEvent>) -> int
    decreases ev.len(),
{
    if ev.len() == 0 {
        0
    } else {
        frames_handed(ev.drop_last()) + (if ev.last() is Pushed {
            1int
        } else {
            0int
        })
    }
}

/// A park that is neither written nor dropped yet.
pub open spec fn in_hand(p: Phase) -> int {
    match p {
        Phase::Found(..) | Phase::Copying(..) | Phase::Renaming(..) | Phase::Numbering(..)
        | Phase::Noting(..) => 1int,
        _ => 0int,
    }
}

proof fn lemma_astray(c: RunOf, s: RunState, ev: Seq<ParkEvent>)
    requires
        ev.len() > 0,
        !(run_to(c, s, ev).phase is Astray),
    ensures
        !(run_to(c, s, ev.drop_last()).phase is Astray),
{
}

/// No park is lost without a trace: each that the detector found added a frame, took
/// the place of one, was counted as dropped, or is the one in hand; every frame that
/// was read whole was handed to it; and the parks that count are the frames that
/// there are more of.
pub proof fn every_park_is_written_or_counted(c: RunOf, emitted: u64, ev: Seq<ParkEvent>)
    requires
        !(run_to(c, run_begins(emitted), ev).phase is Astray),
    ensures
        ({
            let end = run_to(c, run_begins(emitted), ev);
            &&& parks_found(ev) == end.parks + end.replaced + end.dropped + in_hand(
                end.phase,
            )
            &&& frames_handed(ev) == end.frames
            &&& emitted + end.parks <= u64::MAX ==> end.emitted == emitted + end.parks
        }),
    decreases ev.len(),
{
    if ev.len() > 0 {
        lemma_astray(c, run_begins(emitted), ev);
        every_park_is_written_or_counted(c, emitted, ev.drop_last());
    }
}

/// The frame that is shown is never written in place, so that no one who looks at
/// it sees half of it: it is only ever moved there.
pub proof fn the_latest_frame_is_moved_into_place(c: RunOf, s: RunState, ev: Seq<ParkEvent>, i: int)
    requires
        !(run_to(c, s, ev).phase is Astray),
        0 <= i < ev.len(),
    ensures
        ev[i] matches ParkEvent::Copied { from, to, res } ==> to != latest_path(c.out_dir),
        ev[i] matches ParkEvent::Appended { path, line, res } ==> path != latest_path(c.out_dir),
    decreases ev.len(),
{
    let less = ev.drop_last();
    lemma_astray(c, s, ev);
    if i < less.len() {
        the_latest_frame_is_moved_into_place(c, s, less, i);
        assert(less[i] == ev[i]);
    } else {
        reveal_strlit("latest_park.jpg.tmp");
        reveal_strlit("latest_park.jpg");
        reveal_strlit("parks.jsonl");
        reveal_strlit("park_");
        reveal_strlit(".jpg");
        reveal_strlit("/");
        let dir = c.out_dir;
        let k: int = if dir.len() == 0 {
            0
        } else if dir.last() == '/' {
            dir.len() as int
        } else {
            dir.len() as int + 1
        };
        assert(latest_path(dir)[k] == 'l');
        assert(tmp_path(dir).len() != latest_path(dir).len());
        assert(index_path(dir)[k] == 'p');
        if let ParkEvent::Copied { from, to, res } = ev[i] {
            let was = run_to(c, s, less);
            if let Phase::Numbering(p, last) = was.phase {
                assert(frame_path(dir, frame_number(p, was.emitted))[k] == 'p');
            }
        }
    }
}

/// A park that is written is the full frame of its own: it becomes the latest one and
/// the frame of the next number, or of the number before where it takes that one's
/// place; and the index has a line on it under that number.
pub proof fn a_park_is_written_as_found(
    ev: Seq<ParkEvent>,
    dir: Seq<char>,
    p: Park,
    ring: Seq<char>,
    emitted: u64,
    n: u64,
)
    requires
        park_written(ev, dir, p, ring, emitted, Ok(n)),
        dir.len() > 0,
        dir.last() != '/',
    ensures
        p.replace && emitted > 0 ==> n == emitted - 1,
        !p.replace || emitted == 0 ==> n == emitted,
        ev.len() == 4,
        ev[0] matches ParkEvent::Copied { from, to, res: Ok(_) } && from == ring && (
        ev[1] matches ParkEvent::Renamed { from: f, to: t, res: Ok(_) } && f == to && t == dir
            + "/"@ + "latest_park.jpg"@),
        ev[2] matches ParkEvent::Copied { from, to, res: Ok(_) } && from == ring && to == dir
            + "/"@ + ("park_"@ + padded(n as nat, 6) + ".jpg"@),
        ev[3] matches ParkEvent::Appended { path, line, res: Ok(_) } && path == dir + "/"@
            + "parks.jsonl"@ && line == park_line(n, p, p.replace && emitted > 0),
{
}

proof fn lemma_line_parts(n: u64, p: Park, replace: bool)
    ensures
        ({
            let c = "{\"confidence\":"@ + p.confidence@;
            let i = ",\"idx\":"@ + digits(p.idx as nat);
            let m = ",\"left_mass\":"@ + p.left_mass@;
            let k = ",\"n\":"@ + digits(n as nat);
            let r = ",\"replace\":"@ + bool_text(replace);
            let s = ",\"sharpness\":"@ + p.sharpness@;
            let t = ",\"t\":"@ + p.t@ + "}"@;
            park_line(n, p, replace) == c + i + m + k + r + s + t
        }),
{
    let c = "{\"confidence\":"@ + p.confidence@;
    let i = ",\"idx\":"@ + digits(p.idx as nat);
    let m = ",\"left_mass\":"@ + p.left_mass@;
    let k = ",\"n\":"@ + digits(n as nat);
    let r = ",\"replace\":"@ + bool_text(replace);
    let s = ",\"sharpness\":"@ + p.sharpness@;
    let t = ",\"t\":"@ + p.t@ + "}"@;
    assert(park_line(n, p, replace) =~= c + i + m + k + r + s + t);
}

proof fn lemma_six(
    c: Seq<char>,
    i: Seq<char>,
    m: Seq<char>,
    k: Seq<char>,
    r: Seq<char>,
    s: Seq<char>,
    t: Seq<char>,
)
    ensures
        crate::text::has_text(c + i + m + k + r + s + t, i + m),
        crate::text::has_text(c + i + m + k + r + s + t, k + r + s),
        t.is_suffix_of(c + i + m + k + r + s + t),
{
    let all = c + i + m + k + r + s + t;
    let a = k + r + s + t;
    assert(all =~= c + (i + m) + a);
    crate::text::lemma_stands_between(c, i + m, a);
    let b = c + i + m;
    assert(all =~= b + (k + r + s) + t);
    crate::text::lemma_stands_between(b, k + r + s, t);
    assert(all.subrange(all.len() - t.len(), all.len() as int) =~= t);
}

/// The line of the index on a park says which frame of the stream it is, under which
/// number it is kept, whether it took another's place, and when it was.
pub proof fn a_line_tells_its_park(n: u64, p: Park, replace: bool)
    ensures
        crate::text::has_text(
            park_line(n, p, replace),
            ",\"idx\":"@ + digits(p.idx as nat) + (",\"left_mass\":"@ + p.left_mass@),
        ),
        crate::text::has_text(
            park_line(n, p, replace),
            ",\"n\":"@ + digits(n as nat) + (",\"replace\":"@ + (if replace {
                "true"@
            } else {
                "false"@
            })) + (",\"sharpness\":"@ + p.sharpness@),
        ),
        (",\"t\":"@ + p.t@ + "}"@).is_suffix_of(park_line(n, p, replace)),
{
    lemma_line_parts(n, p, replace);
    lemma_six(
        "{\"confidence\":"@ + p.confidence@,
        ",\"idx\":"@ + digits(p.idx as nat),
        ",\"left_mass\":"@ + p.left_mass@,
        ",\"n\":"@ + digits(n as nat),
        ",\"replace\":"@ + bool_text(replace),
        ",\"sharpness\":"@ + p.sharpness@,
        ",\"t\":"@ + p.t@ + "}"@,
    );
}

proof fn lemma_sized(c: RunOf, emitted: u64, ev: Seq<ParkEvent>)
    ensures
        run_to(c, run_begins(emitted), ev).phase matches Phase::Framed(f) ==> f.len()
            == c.frame_size,
        run_to(c, run_begins(emitted), ev).phase matches Phase::Reading(g) ==> g.len()
            < c.frame_size,
    decreases ev.len(),
{
    if ev.len() > 0 {
        lemma_sized(c, emitted, ev.drop_last());
    }
}

/// The detector is handed whole frames, each under the number of those before it.
pub proof fn frames_are_handed_in_order(c: RunOf, emitted: u64, ev: Seq<ParkEvent>, i: int)
    requires
        !(run_to(c, run_begins(emitted), ev).phase is Astray),
        0 <= i < ev.len(),
        ev[i] is Pushed,
    ensures
        ev[i]->frame.len() == c.frame_size,
        ev[i]->idx == frames_handed(ev.take(i)),
    decreases ev.len(),
{
    let less = ev.drop_last();
    lemma_astray(c, run_begins(emitted), ev);
    if i < less.len() {
        frames_are_handed_in_order(c, emitted, less, i);
        assert(less[i] == ev[i]);
        assert(less.take(i) =~= ev.take(i));
    } else {
        lemma_sized(c, emitted, less);
        every_park_is_written_or_counted(c, emitted, less);
        assert(ev.take(i) =~= less);
    }
}

/// The full frame that is waited for is that of the park that was just found, by its
/// number in the stream; and what is copied first is that frame.
pub proof fn a_park_gets_its_own_frame(c: RunOf, emitted: u64, ev: Seq<ParkEvent>, i: int)
    requires
        !(run_to(c, run_begins(emitted), ev).phase is Astray),
        0 <= i < ev.len(),
        c.ring_dir.len() > 0,
        c.ring_dir.last() != '/',
    ensures
        ev[i] is Ring ==> i > 0 && {
            ||| ev[i - 1] matches ParkEvent::Pushed { frame, idx, res: Some(p) } && ev[i]->Ring_path
                == c.ring_dir + "/"@ + ("full_"@ + padded(p.idx as nat, 9) + ".jpg"@)
            ||| ev[i - 1] matches ParkEvent::Flushed(Some(p)) && ev[i]->Ring_path == c.ring_dir
                + "/"@ + ("full_"@ + padded(p.idx as nat, 9) + ".jpg"@)
        },
        ev[i] is Copied ==> i > 0 && {
            ||| ev[i - 1] == (ParkEvent::Ring { path: ev[i]->Copied_from, ready: true })
            ||| i > 1 && ev[i - 1] is Renamed && (ev[i - 2] matches ParkEvent::Copied {
                from,
                to,
                res,
            } && from == ev[i]->Copied_from && res is Ok)
        },
    decreases ev.len(),
{
    let s = run_begins(emitted);
    let less = ev.drop_last();
    lemma_astray(c, s, ev);
    if i < less.len() {
        a_park_gets_its_own_frame(c, emitted, less, i);
        assert(less[i] == ev[i]);
        if i > 0 {
            assert(less[i - 1] == ev[i - 1]);
        }
        if i > 1 {
            assert(less[i - 2] == ev[i - 2]);
        }
    } else if less.len() > 0 {
        lemma_astray(c, s, less);
        let early = less.drop_last();
        assert(less.last() == ev[i - 1]);
        assert(run_to(c, s, less) == step(c, run_to(c, s, early), less.last()));
        if early.len() > 0 {
            assert(early.last() == ev[i - 2]);
            assert(run_to(c, s, early) == step(
                c,
                run_to(c, s, early.drop_last()),
                early.last(),
            ));
        }
    }
}

/// One stream is split into the full frames and the small grey ones at one rate, the
/// small ones in the size that the detector takes.
pub proof fn the_detector_gets_its_size(fps: Seq<char>, w: usize, h: usize)
    ensures
        crate::text::has_text(park_filter(fps, w, h), "fps="@ + fps + ",split=2[full][det]"@),
        crate::text::has_text(
            park_filter(fps, w, h),
            "[det]scale="@ + digits(w as nat) + ":"@ + digits(h as nat) + ",format=gray[gray]"@,
        ),
{
    reveal_strlit("[0:v]fps=");
    reveal_strlit("fps=");
    reveal_strlit(",split=2[full][det];[det]scale=");
    reveal_strlit(",split=2[full][det]");
    reveal_strlit("[det]scale=");
    let t = park_filter(fps, w, h);
    let a = "fps="@ + fps + ",split=2[full][det]"@;
    assert(t.subrange(5, 5 + a.len() as int) =~= a);
    assert(crate::text::text_at(t, a, 5));
    let b = "[det]scale="@ + digits(w as nat) + ":"@ + digits(h as nat) + ",format=gray[gray]"@;
    let at: int = t.len() - b.len();
    assert(t.subrange(at, at + b.len()) =~= b);
    assert(crate::text::text_at(t, b, at));
}

/// The park that the detector gave, if it gave one.
pub open spec fn found_by(e: ParkEvent) -> Option<Park> {
    match e {
        ParkEvent::Pushed { frame, idx, res } => res,
        ParkEvent::Flushed(res) => res,
        _ => None,
    }
}

/// A frame is written under the next number, or under that of the frame before where it
/// takes its place: the numbers are those of the frames that there are, with no gap.
pub proof fn a_frame_gets_the_next_number(
    c: RunOf,
    emitted: u64,
    ev: Seq<ParkEvent>,
    i: int,
    have: u64,
)
    requires
        !(run_to(c, run_begins(emitted), ev).phase is Astray),
        0 < i < ev.len(),
        ev[i] is Copied,
        ev[i - 1] is Renamed,
        have == run_to(c, run_begins(emitted), ev.take(i)).emitted,
        c.out_dir.len() > 0,
        c.out_dir.last() != '/',
    ensures
        i >= 4,
        found_by(ev[i - 4]) matches Some(p) && {
            &&& p.replace && have > 0 ==> ev[i]->Copied_to == c.out_dir + "/"@ + ("park_"@ + padded(
                (have - 1) as nat,
                6,
            ) + ".jpg"@)
            &&& !p.replace || have == 0 ==> ev[i]->Copied_to == c.out_dir + "/"@ + ("park_"@
                + padded(have as nat, 6) + ".jpg"@)
        },
    decreases ev.len(),
{
    let s = run_begins(emitted);
    let e1 = ev.drop_last();
    lemma_astray(c, s, ev);
    if i < e1.len() {
        assert(e1.take(i) =~= ev.take(i));
        assert(e1[i] == ev[i] && e1[i - 1] == ev[i - 1]);
        a_frame_gets_the_next_number(c, emitted, e1, i, have);
        assert(e1[i - 4] == ev[i - 4]);
    } else {
        assert(ev.take(i) =~= e1);
        lemma_astray(c, s, e1);
        assert(e1.last() == ev[i - 1]);
        let e2 = e1.drop_last();
        assert(run_to(c, s, e1) == step(c, run_to(c, s, e2), e1.last()));
        assert(run_to(c, s, e1).phase is Numbering);
        assert(run_to(c, s, e2).phase is Renaming);
        assert(e2.len() > 0);
        let e3 = e2.drop_last();
        lemma_astray(c, s, e2);
        assert(run_to(c, s, e2) == step(c, run_to(c, s, e3), e2.last()));
        assert(run_to(c, s, e3).phase is Copying);
        assert(e3.len() > 0);
        let e4 = e3.drop_last();
        lemma_astray(c, s, e3);
        assert(run_to(c, s, e3) == step(c, run_to(c, s, e4), e3.last()));
        assert(run_to(c, s, e4).phase is Found);
        assert(e4.len() > 0);
        let e5 = e4.drop_last();
        lemma_astray(c, s, e4);
        assert(run_to(c, s, e4) == step(c, run_to(c, s, e5), e4.last()));
        assert(e4.last() == ev[i - 4]);
    }
}

} // verus!
