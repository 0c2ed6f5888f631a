//! What was captured: the video and the still of a run, and the index of its
//! parked frames.
//!
//! What is done on the disk goes through a [`CapturePort`], and a [`CaptureTap`]
//! keeps the log of it.
use vstd::prelude::*;

use crate::camera::{external, external_index, ExternalCamera};
use crate::json::{json_number_at, json_u64_at, number_text_at, u64_at};
use crate::number::{padded, padded_decimal};
use crate::paths::{capture_run_dir, captures_root, is_safe_segment, run_dir, safe_segment};
use crate::reply::{bad, bad_request, reply, server_error, Refusal, Reply, Task};
use crate::slicer::{inside, join_path};
use crate::text::{
    copied, join3, lines_of, opt_text, same_text, split_lines, texts, trim, trimmed, Strip,
};
use crate::timelapse::{first_active, live_park_source, most_recent, RunStatus};
use crate::trace::lemma_then;

verus! {

// ── Pictures of a camera ────────────────────────────────────────────────────

/// The refusal of a camera that gave nothing, or whose task was lost.
pub open spec fn picture_refusal<T>(res: Task<Result<T, String>>, lost: Seq<char>) -> Option<Refusal> {
    match res {
        Task::Done(Ok(_)) => None,
        Task::Done(Err(e)) => Some((502, e@)),
        Task::Lost => Some((500, lost)),
    }
}

/// What a camera gave, or the refusal.
pub fn camera_answer<T>(res: Task<Result<T, String>>, lost: &str) -> (r: Result<T, Reply>)
    ensures
        match r {
            Ok(v) => res == Task::Done(Ok::<T, String>(v)),
            Err(why) => picture_refusal(res, lost@) == Some(why@),
        },
{
    match res {
        Task::Done(Ok(v)) => Ok(v),
        Task::Done(Err(e)) => Err(reply(502, e)),
        Task::Lost => Err(server_error(lost.to_owned())),
    }
}

// ── The index of parked frames ──────────────────────────────────────────────

/// One parked frame: its number, when it was taken and how sure that is. The two
/// are numbers as they are written.
#[derive(Debug)]
pub struct ParkEntry {
    pub n: u64,
    pub t: Option<String>,
    pub confidence: Option<String>,
}

/// A parked frame, by its texts.
pub type ParkView = (u64, Option<Seq<char>>, Option<Seq<char>>);

impl View for ParkEntry {
    type V = ParkView;

    open spec fn view(&self) -> ParkView {
        (self.n, opt_text(self.t), opt_text(self.confidence))
    }
}

pub open spec fn entry_view(e: Option<ParkEntry>) -> Option<ParkView> {
    match e {
        Some(x) => Some(x@),
        None => None,
    }
}

/// The frame that these fields of a line tell of; a line without a number tells of
/// none.
pub open spec fn frame_with(
    n: Option<u64>,
    t: Option<Seq<char>>,
    confidence: Option<Seq<char>>,
) -> Option<ParkView> {
    match n {
        Some(n) => Some((n, t, confidence)),
        None => None,
    }
}

/// The frame that these fields of a line tell of.
pub fn frame_from(n: Option<u64>, t: Option<String>, confidence: Option<String>) -> (r: Option<
    ParkEntry,
>)
    ensures
        entry_view(r) == frame_with(n, opt_text(t), opt_text(confidence)),
{
    match n {
        Some(n) => Some(ParkEntry { n, t, confidence }),
        None => None,
    }
}

/// The frame that a line tells of, without the space around it; a blank line
/// tells of none.
pub open spec fn told(line: Seq<char>) -> Option<ParkView> {
    let l = trimmed(line, Strip::Space);
    if l.len() == 0 {
        None
    } else {
        frame_with(
            json_u64_at(l, "/n"@),
            json_number_at(l, "/t"@),
            json_number_at(l, "/confidence"@),
        )
    }
}

/// What the lines tell of, by number: the last line on a number counts.
pub open spec fn indexed(frames: Seq<Option<ParkView>>) -> Map<u64, ParkView>
    decreases frames.len(),
{
    if frames.len() == 0 {
        Map::empty()
    } else {
        let m = indexed(frames.drop_last());
        match frames.last() {
            Some(e) => m.insert(e.0, e),
            None => m,
        }
    }
}

/// `v` is the index `m`, in order of the numbers.
pub open spec fn lists(v: Seq<ParkEntry>, m: Map<u64, ParkView>) -> bool {
    &&& forall|i: int, j: int| 0 <= i < j < v.len() ==> (#[trigger] v[i]).n < (#[trigger] v[j]).n
    &&& forall|i: int|
        0 <= i < v.len() ==> m.dom().contains((#[trigger] v[i]).n) && m[v[i].n] == v[i]@
    &&& forall|n: u64| #[trigger]
        m.dom().contains(n) ==> exists|i: int| 0 <= i < v.len() && (#[trigger] v[i]).n == n
}

/// Where a number stands in the index, or would stand.
fn place_of(v: &Vec<ParkEntry>, n: u64) -> (r: usize)
    requires
        forall|i: int, j: int| 0 <= i < j < v@.len() ==> (#[trigger] v@[i]).n < (#[trigger] v@[j]).n,
    ensures
        r <= v@.len(),
        forall|i: int| 0 <= i < r ==> (#[trigger] v@[i]).n < n,
        forall|i: int| r <= i < v@.len() ==> (#[trigger] v@[i]).n >= n,
{
    let mut i: usize = 0;
    while i < v.len()
        invariant
            i <= v@.len(),
            forall|k: int| 0 <= k < i ==> (#[trigger] v@[k]).n < n,
            forall|a: int, b: int|
                0 <= a < b < v@.len() ==> (#[trigger] v@[a]).n < (#[trigger] v@[b]).n,
        decreases v@.len() - i,
    {
        if v[i].n >= n {
            return i;
        }
        i += 1;
    }
    i
}

/// Put a frame into the index; one of the same number gives way.
fn put_frame(v: &mut Vec<ParkEntry>, e: ParkEntry, Ghost(m): Ghost<Map<u64, ParkView>>)
    requires
        lists(old(v)@, m),
    ensures
        lists(final(v)@, m.insert(e.n, e@)),
{
    let k: usize = place_of(v, e.n);
    let ghost was = v@;
    let ghost n = e.n;
    let ghost seen = e@;
    let ghost next = m.insert(n, seen);
    if k < v.len() && v[k].n == e.n {
        v.set(k, e);
        proof {
            assert forall|x: u64| #[trigger] next.dom().contains(x) implies exists|i: int|
                0 <= i < v@.len() && (#[trigger] v@[i]).n == x by {
                if x == n {
                    assert(v@[k as int].n == n);
                } else {
                    assert(m.dom().contains(x));
                    let i = choose|i: int| 0 <= i < was.len() && (#[trigger] was[i]).n == x;
                    assert(v@[i].n == x);
                }
            }
        }
    } else {
        v.insert(k, e);
        proof {
            assert forall|i: int| 0 <= i < v@.len() implies v@[i] == (if i < k {
                was[i]
            } else if i == k {
                e
            } else {
                was[i - 1]
            }) by {}
            assert forall|i: int| 0 <= i < was.len() implies (#[trigger] was[i]).n != n by {
                if i >= k {
                    if i > k {
                        assert(was[k as int].n < was[i].n);
                    }
                }
            }
            assert forall|x: u64| #[trigger] next.dom().contains(x) implies exists|i: int|
                0 <= i < v@.len() && (#[trigger] v@[i]).n == x by {
                if x == n {
                    assert(v@[k as int].n == n);
                } else {
                    assert(m.dom().contains(x));
                    let i = choose|i: int| 0 <= i < was.len() && (#[trigger] was[i]).n == x;
                    if i < k {
                        assert(v@[i].n == x);
                    } else {
                        assert(v@[i + 1].n == x);
                    }
                }
            }
        }
    }
}

/// The frame that a line tells of.
fn frame_of(line: &str) -> (r: Option<ParkEntry>)
    ensures
        entry_view(r) == told(line@),
{
    let l = trim(line, Strip::Space);
    if l.as_str().is_empty() {
        return None;
    }
    let line = l.as_str();
    frame_from(
        u64_at(line, "/n"),
        number_text_at(line, "/t"),
        number_text_at(line, "/confidence"),
    )
}

/// What each line of a text tells of.
pub open spec fn told_lines(contents: Seq<char>) -> Seq<Option<ParkView>> {
    lines_of(contents).map_values(|l: Seq<char>| told(l))
}

/// What the lines tell of, by their views.
pub open spec fn frame_views(frames: Seq<Option<ParkEntry>>) -> Seq<Option<ParkView>> {
    frames.map_values(|e: Option<ParkEntry>| entry_view(e))
}

/// The index of the frames that lines tell of: one entry per number, in order. A
/// line that replaces a frame uses its number again, so the last one counts;
/// lines that tell of nothing are passed over.
pub fn index_of(frames: &Vec<Option<ParkEntry>>) -> (r: Vec<ParkEntry>)
    ensures
        lists(r@, indexed(frame_views(frames@))),
{
    let ghost all = frame_views(frames@);
    let mut out: Vec<ParkEntry> = Vec::new();
    let mut i: usize = 0;
    proof {
        assert(all.take(0) =~= Seq::<Option<ParkView>>::empty());
    }
    while i < frames.len()
        invariant
            i <= frames@.len(),
            all == frame_views(frames@),
            lists(out@, indexed(all.take(i as int))),
        decreases frames@.len() - i,
    {
        proof {
            let t = all.take(i + 1);
            assert(t.drop_last() =~= all.take(i as int));
            assert(t.last() == entry_view(frames@[i as int]));
        }
        if let Some(e) = &frames[i] {
            let own = ParkEntry { n: e.n, t: copied(&e.t), confidence: copied(&e.confidence) };
            put_frame(&mut out, own, Ghost(indexed(all.take(i as int))));
        }
        i += 1;
    }
    proof {
        assert(all.take(frames@.len() as int) =~= all);
    }
    out
}

/// The index of the parked frames in a text.
pub fn parse_parks_index(contents: &str) -> (r: Vec<ParkEntry>)
    ensures
        lists(r@, indexed(told_lines(contents@))),
{
    let lines = split_lines(contents);
    let mut frames: Vec<Option<ParkEntry>> = Vec::new();
    let mut i: usize = 0;
    while i < lines.len()
        invariant
            i <= lines@.len(),
            frames@.len() == i,
            forall|k: int| 0 <= k < i ==> entry_view(#[trigger] frames@[k]) == told(lines@[k]@),
        decreases lines@.len() - i,
    {
        frames.push(frame_of(lines[i].as_str()));
        i += 1;
    }
    proof {
        assert forall|k: int| 0 <= k < lines@.len() implies lines_of(contents@)[k]
            == #[trigger] lines@[k]@ by {
            assert(texts(lines@)[k] == lines@[k]@);
        }
        assert(texts(lines@).len() == lines@.len());
        assert(frame_views(frames@) =~= told_lines(contents@));
    }
    index_of(&frames)
}

/// The run that a camera's parked frames are read from: where they are, and
/// whether the run is active.
pub open spec fn park_source_is(
    runs: Seq<RunStatus>,
    id: Seq<char>,
    i: int,
    r: Option<(String, bool)>,
) -> bool {
    if texts(runs[i].cameras@).contains(id) {
        &&& r matches Some((dir, running))
        &&& running == runs[i].running
        &&& runs[i].out_dir matches Some(d)
        &&& dir@ == inside(d@, id)
    } else {
        r is None
    }
}

/// `r` is where a camera's parked frames are read from: of the run that the
/// preview follows.
pub open spec fn park_sourced(
    runs: Seq<RunStatus>,
    id: Seq<char>,
    r: Option<(String, bool)>,
) -> bool {
    ||| exists|i: int| #[trigger] first_active(runs, i) && park_source_is(runs, id, i, r)
    ||| {
        &&& forall|j: int| !first_active(runs, j)
        &&& exists|i: int| #[trigger] most_recent(runs, i) && park_source_is(runs, id, i, r)
    }
    ||| {
        &&& r is None
        &&& forall|j: int| 0 <= j < runs.len() ==> (#[trigger] runs[j]).out_dir is None
    }
}

fn has_camera(cameras: &Vec<String>, id: &str) -> (r: bool)
    ensures
        r == texts(cameras@).contains(id@),
{
    let ghost all = texts(cameras@);
    let mut i: usize = 0;
    while i < cameras.len()
        invariant
            i <= cameras@.len(),
            all == texts(cameras@),
            forall|k: int| 0 <= k < i ==> #[trigger] all[k] != id@,
        decreases cameras@.len() - i,
    {
        proof {
            assert(all[i as int] == cameras@[i as int]@);
        }
        if same_text(cameras[i].as_str(), id) {
            return true;
        }
        i += 1;
    }
    false
}

/// Where a camera's parked frames are, and whether their run is active; none
/// where the run that the preview follows does not capture from it. A name is
/// only ever used once it was found among the run's own cameras.
pub fn park_source(runs: &Vec<RunStatus>, id: &str) -> (r: Option<(String, bool)>)
    ensures
        park_sourced(runs@, id@, r),
{
    let i: usize = match live_park_source(runs) {
        Some(i) => i,
        None => {
            return None;
        },
    };
    let run = &runs[i];
    let r: Option<(String, bool)> = if has_camera(&run.cameras, id) {
        match &run.out_dir {
            Some(d) => Some((join_path(d.as_str(), id), run.running)),
            None => None,
        }
    } else {
        None
    };
    proof {
        assert(park_source_is(runs@, id@, i as int, r));
    }
    r
}

/// The file of a parked frame.
pub fn park_frame_path(dir: &str, n: u64) -> (r: String)
    ensures
        r@ == inside(dir@, "park_"@ + padded(n as nat, 6) + ".jpg"@),
{
    let d = padded_decimal(n, 6);
    let file = join3("park_", d.as_str(), ".jpg");
    join_path(dir, file.as_str())
}

// ── The disk ────────────────────────────────────────────────────────────────

/// What a directory holds the capture of.
#[derive(Clone, Copy, Debug, PartialEq, Eq, Structural)]
pub enum CaptureKind {
    Video,
    Park,
    Smooth,
}

/// What serving a capture asks of the disk and of the video tools.
pub trait CapturePort {
    fn is_dir(&mut self, path: &str) -> bool;

    fn is_file(&mut self, path: &str) -> bool;

    /// The names of the files in a directory.
    fn files(&mut self, dir: &str) -> Result<Vec<String>, String>;

    /// What these files are the capture of; none where they are none.
    fn classify(&mut self, files: &Vec<String>) -> Option<CaptureKind>;

    /// Turn a recorded stream into a video.
    fn transcode(&mut self, from: &str, to: &str) -> Result<(), String>;

    /// Put a video together from frames.
    fn assemble(&mut self, dir: &str, kind: CaptureKind, to: &str, fps: u32) -> Result<(), String>;

    /// Put a video together from the parked frame of each layer, picked by the
    /// tuning of this external camera.
    fn assemble_selected(&mut self, dir: &str, camera: usize, to: &str, fps: u32) -> Result<
        (),
        String,
    >;

    /// Take a still from a video.
    fn extract_thumb(&mut self, from: &str, to: &str) -> Result<(), String>;

    /// The file that stands for these frames.
    fn thumb_frame(&mut self, files: &Vec<String>, kind: CaptureKind) -> Option<String>;
}

/// One thing that was asked and its answer.
#[allow(inconsistent_fields)]
pub enum CaptureEvent {
    IsDir { path: Seq<char>, yes: bool },
    IsFile { path: Seq<char>, yes: bool },
    Files { dir: Seq<char>, res: Result<Vec<String>, String> },
    Classified { files: Seq<Seq<char>>, res: Option<CaptureKind> },
    Transcoded { from: Seq<char>, to: Seq<char>, res: Result<(), String> },
    Assembled {
        dir: Seq<char>,
        kind: CaptureKind,
        to: Seq<char>,
        fps: u32,
        res: Result<(), String>,
    },
    Selected { dir: Seq<char>, camera: usize, to: Seq<char>, fps: u32, res: Result<(), String> },
    Extracted { from: Seq<char>, to: Seq<char>, res: Result<(), String> },
    Frame { files: Seq<Seq<char>>, kind: CaptureKind, res: Option<String> },
}

/// A port and the log of what went through it.
pub struct CaptureTap<P> {
    port: P,
    events: Ghost<Seq<CaptureEvent>>,
}

impl<P: CapturePort> CaptureTap<P> {
    /// What went through the port so far.
    pub closed spec fn log(self) -> Seq<CaptureEvent> {
        self.events@
    }

    pub fn new(port: P) -> (r: CaptureTap<P>)
        ensures
            r.log() == Seq::<CaptureEvent>::empty(),
    {
        CaptureTap { port, events: Ghost(Seq::empty()) }
    }

    fn is_dir(&mut self, path: &str) -> (r: bool)
        ensures
            final(self).log() == old(self).log().push(
                CaptureEvent::IsDir { path: path@, yes: r },
            ),
    {
        let r: bool = self.port.is_dir(path);
        self.events = Ghost(self.events@.push(CaptureEvent::IsDir { path: path@, yes: r }));
        r
    }

    fn is_file(&mut self, path: &str) -> (r: bool)
        ensures
            final(self).log() == old(self).log().push(
                CaptureEvent::IsFile { path: path@, yes: r },
            ),
    {
        let r: bool = self.port.is_file(path);
        self.events = Ghost(self.events@.push(CaptureEvent::IsFile { path: path@, yes: r }));
        r
    }

    fn files(&mut self, dir: &str) -> (r: Result<Vec<String>, String>)
        ensures
            final(self).log() == old(self).log().push(CaptureEvent::Files { dir: dir@, res: r }),
    {
        let r = self.port.files(dir);
        self.events = Ghost(self.events@.push(CaptureEvent::Files { dir: dir@, res: r }));
        r
    }

    fn classify(&mut self, files: &Vec<String>) -> (r: Option<CaptureKind>)
        ensures
            final(self).log() == old(self).log().push(
                CaptureEvent::Classified { files: texts(files@), res: r },
            ),
    {
        let r = self.port.classify(files);
        self.events =
        Ghost(self.events@.push(CaptureEvent::Classified { files: texts(files@), res: r }));
        r
    }

    fn transcode(&mut self, from: &str, to: &str) -> (r: Result<(), String>)
        ensures
            final(self).log() == old(self).log().push(
                CaptureEvent::Transcoded { from: from@, to: to@, res: r },
            ),
    {
        let r = self.port.transcode(from, to);
        self.events =
        Ghost(self.events@.push(CaptureEvent::Transcoded { from: from@, to: to@, res: r }));
        r
    }

    fn assemble(&mut self, dir: &str, kind: CaptureKind, to: &str, fps: u32) -> (r: Result<
        (),
        String,
    >)
        ensures
            final(self).log() == old(self).log().push(
                CaptureEvent::Assembled { dir: dir@, kind, to: to@, fps, res: r },
            ),
    {
        let r = self.port.assemble(dir, kind, to, fps);
        self.events =
        Ghost(
            self.events@.push(CaptureEvent::Assembled { dir: dir@, kind, to: to@, fps, res: r }),
        );
        r
    }

    fn assemble_selected(&mut self, dir: &str, camera: usize, to: &str, fps: u32) -> (r: Result<
        (),
        String,
    >)
        ensures
            final(self).log() == old(self).log().push(
                CaptureEvent::Selected { dir: dir@, camera, to: to@, fps, res: r },
            ),
    {
        let r = self.port.assemble_selected(dir, camera, to, fps);
        self.events =
        Ghost(
            self.events@.push(CaptureEvent::Selected { dir: dir@, camera, to: to@, fps, res: r }),
        );
        r
    }

    fn extract_thumb(&mut self, from: &str, to: &str) -> (r: Result<(), String>)
        ensures
            final(self).log() == old(self).log().push(
                CaptureEvent::Extracted { from: from@, to: to@, res: r },
            ),
    {
        let r = self.port.extract_thumb(from, to);
        self.events =
        Ghost(self.events@.push(CaptureEvent::Extracted { from: from@, to: to@, res: r }));
        r
    }

    fn thumb_frame(&mut self, files: &Vec<String>, kind: CaptureKind) -> (r: Option<String>)
        ensures
            final(self).log() == old(self).log().push(
                CaptureEvent::Frame { files: texts(files@), kind, res: r },
            ),
    {
        let r = self.port.thumb_frame(files, kind);
        self.events =
        Ghost(self.events@.push(CaptureEvent::Frame { files: texts(files@), kind, res: r }));
        r
    }
}

/// Whose captures are looked at: a printer, and whether it answers for the runs
/// from before captures were kept by printer.
#[derive(Debug)]
pub struct CaptureOwner {
    pub id: String,
    pub legacy_captures: bool,
}

/// A capture is found at this path, or there is none.
pub type FoundCapture = Option<String>;

pub open spec fn found_at(r: FoundCapture, path: Seq<char>) -> bool {
    r matches Some(p) && p@ == path
}

/// The directory of a run.
pub open spec fn run_dir_of(owner: CaptureOwner, run: Seq<char>, own_exists: bool) -> Seq<char> {
    if own_exists || !owner.legacy_captures {
        run_dir(owner.id@, run)
    } else {
        "captures"@ + "/"@ + run
    }
}

/// `ev[0..2]` look for the directory of a camera in a run, and `dir` is it. A run
/// without one for the camera is of the old layout, all in one directory.
pub open spec fn camera_dir(
    ev: Seq<CaptureEvent>,
    owner: CaptureOwner,
    run: Seq<char>,
    cam: Seq<char>,
    dir: Seq<char>,
) -> bool {
    &&& ev.len() >= 2
    &&& ev[0] matches CaptureEvent::IsDir { path, yes }
    &&& path == run_dir(owner.id@, run)
    &&& ev[1] matches CaptureEvent::IsDir { path: sub, yes: has_sub }
    &&& sub == inside(run_dir_of(owner, run, yes), cam)
    &&& dir == (if has_sub {
        sub
    } else {
        run_dir_of(owner, run, yes)
    })
}

/// `ev[2..4]` look at what is in the directory; what it is the capture of, where
/// it is one.
pub open spec fn classified(ev: Seq<CaptureEvent>, dir: Seq<char>) -> Option<CaptureKind> {
    if ev.len() >= 4 {
        match (ev[2], ev[3]) {
            (
                CaptureEvent::Files { dir: d, res: Ok(files) },
                CaptureEvent::Classified { files: f, res },
            ) => if d == dir && f == texts(files@) {
                res
            } else {
                None
            },
            _ => None,
        }
    } else {
        None
    }
}

/// `ev` found nothing in the directory that is a capture.
pub open spec fn nothing_in(ev: Seq<CaptureEvent>, dir: Seq<char>) -> bool {
    ||| {
        &&& ev.len() == 3
        &&& ev[2] matches CaptureEvent::Files { dir: d, res }
        &&& d == dir
        &&& res is Err
    }
    ||| {
        &&& ev.len() == 4
        &&& ev[2] matches CaptureEvent::Files { dir: d, res }
        &&& d == dir
        &&& res matches Ok(files)
        &&& ev[3] == (CaptureEvent::Classified { files: texts(files@), res: None })
    }
}

/// `t` finds the video of a recorded stream, or makes it.
pub open spec fn plain_video(t: Seq<CaptureEvent>, dir: Seq<char>, r: FoundCapture) -> bool {
    let mp4 = inside(dir, "plain.mp4"@);
    let mjpeg = inside(dir, "plain.mjpeg"@);
    &&& t.len() >= 1
    &&& t[0] matches CaptureEvent::IsFile { path, yes }
    &&& path == mp4
    &&& if yes {
        t.len() == 1 && found_at(r, mp4)
    } else {
        &&& t.len() >= 2
        &&& t[1] matches CaptureEvent::IsFile { path: raw, yes: there }
        &&& raw == mjpeg
        &&& if there {
            &&& t.len() == 3
            &&& t[2] matches CaptureEvent::Transcoded { from, to, res }
            &&& from == mjpeg
            &&& to == mp4
            &&& if res is Ok {
                found_at(r, mp4)
            } else {
                r is None
            }
        } else {
            t.len() == 2 && r is None
        }
    }
}

/// `t` puts a video together from all frames.
pub open spec fn assembled(
    t: Seq<CaptureEvent>,
    dir: Seq<char>,
    kind: CaptureKind,
    fps: u32,
    r: FoundCapture,
) -> bool {
    let out = inside(dir, "timelapse.mp4"@);
    &&& t.len() == 1
    &&& t[0] matches CaptureEvent::Assembled { dir: d, kind: k, to, fps: f, res }
    &&& d == dir
    &&& k == kind
    &&& to == out
    &&& f == fps
    &&& if res is Ok {
        found_at(r, out)
    } else {
        r is None
    }
}

/// `t` puts a video together from the parked frame of each layer, where the
/// camera is tuned for it and that works; else from all frames.
pub open spec fn smooth_video(
    t: Seq<CaptureEvent>,
    dir: Seq<char>,
    select: Option<usize>,
    fps: u32,
    r: FoundCapture,
) -> bool {
    let out = inside(dir, "timelapse.mp4"@);
    match select {
        None => assembled(t, dir, CaptureKind::Smooth, fps, r),
        Some(c) => {
            &&& t.len() >= 1
            &&& t[0] matches CaptureEvent::Selected { dir: d, camera, to, fps: f, res }
            &&& d == dir
            &&& camera == c
            &&& to == out
            &&& f == fps
            &&& if res is Ok {
                t.len() == 1 && found_at(r, out)
            } else {
                assembled(t.skip(1), dir, CaptureKind::Smooth, fps, r)
            }
        },
    }
}

/// How fast a video plays: at least 1 and at most 60 frames a second.
pub open spec fn clamp_fps(fps: u32) -> u32 {
    if fps < 1 {
        1
    } else if fps > 60 {
        60
    } else {
        fps
    }
}

/// `select` is the external camera of this name, where its tuning picks frames.
pub open spec fn selects<P, S>(
    cam: Seq<char>,
    externals: Seq<ExternalCamera<P, S>>,
    select: Option<usize>,
) -> bool {
    match select {
        Some(i) => {
            &&& crate::camera::ext_index(cam) == Some(i as nat)
            &&& i < externals.len()
            &&& externals[i as int].select_tuning is Some
        },
        None => external(cam, externals) matches Some(e) ==> e.select_tuning is None,
    }
}

/// `ev` is all that finding the video of a capture does, and `r` where it is.
pub open spec fn video_found<P, S>(
    ev: Seq<CaptureEvent>,
    owner: CaptureOwner,
    run: Seq<char>,
    cam: Seq<char>,
    fps: u32,
    externals: Seq<ExternalCamera<P, S>>,
    r: Result<FoundCapture, Reply>,
) -> bool {
    if !safe_segment(run) || !safe_segment(cam) {
        ev.len() == 0 && (r matches Err(why) && why@ == bad("invalid capture path"@))
    } else {
        &&& r matches Ok(found)
        &&& exists|dir: Seq<char>| #[trigger]
            camera_dir(ev, owner, run, cam, dir) && match classified(ev, dir) {
                None => nothing_in(ev, dir) && found is None,
                Some(CaptureKind::Video) => plain_video(ev.skip(4), dir, found),
                Some(CaptureKind::Smooth) => exists|select: Option<usize>|
                    selects(cam, externals, select) && #[trigger] smooth_video(
                        ev.skip(4),
                        dir,
                        select,
                        clamp_fps(fps),
                        found,
                    ),
                Some(kind) => assembled(ev.skip(4), dir, kind, clamp_fps(fps), found),
            }
    }
}

/// How fast a video plays unless the caller says so.
pub fn default_fps() -> (r: u32)
    ensures
        r == 10,
{
    10
}

fn find_dir<P: CapturePort>(
    tap: &mut CaptureTap<P>,
    owner: &CaptureOwner,
    run: &str,
    cam: &str,
) -> (r: String)
    ensures
        old(tap).log().is_prefix_of(final(tap).log()),
        final(tap).log().len() == old(tap).log().len() + 2,
        camera_dir(
            final(tap).log().skip(old(tap).log().len() as int),
            *owner,
            run@,
            cam@,
            r@,
        ),
{
    let root = captures_root(owner.id.as_str());
    let own = join3(root.as_str(), "/", run);
    let exists_own: bool = tap.is_dir(own.as_str());
    let dir = capture_run_dir(owner.id.as_str(), owner.legacy_captures, run, exists_own);
    let sub = join_path(dir.as_str(), cam);
    if tap.is_dir(sub.as_str()) {
        sub
    } else {
        dir
    }
}

fn video_of_stream<P: CapturePort>(tap: &mut CaptureTap<P>, dir: &str) -> (r: FoundCapture)
    ensures
        old(tap).log().is_prefix_of(final(tap).log()),
        plain_video(final(tap).log().skip(old(tap).log().len() as int), dir@, r),
{
    let mp4 = join_path(dir, "plain.mp4");
    if tap.is_file(mp4.as_str()) {
        return Some(mp4);
    }
    let mjpeg = join_path(dir, "plain.mjpeg");
    if tap.is_file(mjpeg.as_str()) {
        return match tap.transcode(mjpeg.as_str(), mp4.as_str()) {
            Ok(_) => Some(mp4),
            Err(_) => None,
        };
    }
    None
}

fn video_of_frames<P: CapturePort>(
    tap: &mut CaptureTap<P>,
    dir: &str,
    kind: CaptureKind,
    fps: u32,
) -> (r: FoundCapture)
    ensures
        old(tap).log().is_prefix_of(final(tap).log()),
        assembled(final(tap).log().skip(old(tap).log().len() as int), dir@, kind, fps, r),
{
    let out = join_path(dir, "timelapse.mp4");
    match tap.assemble(dir, kind, out.as_str(), fps) {
        Ok(_) => Some(out),
        Err(_) => None,
    }
}

fn video_of_layers<P: CapturePort>(
    tap: &mut CaptureTap<P>,
    dir: &str,
    select: Option<usize>,
    fps: u32,
) -> (r: FoundCapture)
    ensures
        old(tap).log().is_prefix_of(final(tap).log()),
        smooth_video(final(tap).log().skip(old(tap).log().len() as int), dir@, select, fps, r),
{
    let ghost start = tap.log();
    if let Some(camera) = select {
        let out = join_path(dir, "timelapse.mp4");
        if let Ok(_) = tap.assemble_selected(dir, camera, out.as_str(), fps) {
            return Some(out);
        }
    }
    let ghost mid = tap.log();
    let r = video_of_frames(tap, dir, CaptureKind::Smooth, fps);
    proof {
        lemma_then(start, mid, tap.log());
    }
    r
}

fn select_of<P, S>(cam: &str, externals: &Vec<ExternalCamera<P, S>>) -> (r: Option<usize>)
    ensures
        selects(cam@, externals@, r),
{
    match external_index(cam) {
        Some(i) => if i < externals.len() && externals[i].select_tuning.is_some() {
            Some(i)
        } else {
            None
        },
        None => None,
    }
}

/// Where the video of a capture is; it is made where it can be. The names of the
/// run and the camera have to be plain: nothing outside the captures is reached.
pub fn capture_video<P: CapturePort, C, S>(
    tap: &mut CaptureTap<P>,
    owner: &CaptureOwner,
    run: &str,
    cam: &str,
    fps: u32,
    externals: &Vec<ExternalCamera<C, S>>,
) -> (r: Result<FoundCapture, Reply>)
    ensures
        old(tap).log().is_prefix_of(final(tap).log()),
        video_found(
            final(tap).log().skip(old(tap).log().len() as int),
            *owner,
            run@,
            cam@,
            fps,
            externals@,
            r,
        ),
{
    let ghost start = tap.log();
    if !is_safe_segment(run) || !is_safe_segment(cam) {
        return Err(bad_request("invalid capture path".to_owned()));
    }
    let rate: u32 = if fps < 1 {
        1
    } else if fps > 60 {
        60
    } else {
        fps
    };
    let select = select_of(cam, externals);
    let dir = find_dir(tap, owner, run, cam);
    let ghost head = tap.log();
    let listed = tap.files(dir.as_str());
    proof {
        assert(tap.log().skip(start.len() as int)[0] == head.skip(start.len() as int)[0]);
        assert(tap.log().skip(start.len() as int)[1] == head.skip(start.len() as int)[1]);
        assert(camera_dir(tap.log().skip(start.len() as int), *owner, run@, cam@, dir@));
    }
    let files = match listed {
        Ok(f) => f,
        Err(_) => {
            return Ok(None);
        },
    };
    let kind = tap.classify(&files);
    let ghost mid = tap.log();
    proof {
        assert(mid.skip(start.len() as int)[0] == head.skip(start.len() as int)[0]);
        assert(mid.skip(start.len() as int)[1] == head.skip(start.len() as int)[1]);
        assert(camera_dir(mid.skip(start.len() as int), *owner, run@, cam@, dir@));
    }
    let kind = match kind {
        Some(k) => k,
        None => {
            return Ok(None);
        },
    };
    let found = match kind {
        CaptureKind::Video => video_of_stream(tap, dir.as_str()),
        CaptureKind::Smooth => video_of_layers(tap, dir.as_str(), select, rate),
        CaptureKind::Park => video_of_frames(tap, dir.as_str(), CaptureKind::Park, rate),
    };
    proof {
        lemma_then(start, mid, tap.log());
        let ev = tap.log().skip(start.len() as int);
        assert(camera_dir(ev, *owner, run@, cam@, dir@));
        assert(classified(ev, dir@) == Some(kind));
        assert(selects(cam@, externals@, select));
        if kind is Smooth {
            assert(smooth_video(ev.skip(4), dir@, select, clamp_fps(fps), found));
        }
    }
    Ok(found)
}

/// `t` finds the still of a recorded video, or takes it.
pub open spec fn plain_thumb(t: Seq<CaptureEvent>, dir: Seq<char>, r: FoundCapture) -> bool {
    let thumb = inside(dir, "thumb.jpg"@);
    let mp4 = inside(dir, "plain.mp4"@);
    &&& t.len() >= 1
    &&& t[0] matches CaptureEvent::IsFile { path, yes }
    &&& path == thumb
    &&& if yes {
        t.len() == 1 && found_at(r, thumb)
    } else {
        &&& t.len() >= 3
        &&& t[1] matches CaptureEvent::IsFile { path: p1, yes: has_mp4 }
        &&& p1 == mp4
        &&& t[2] matches CaptureEvent::IsFile { path: p2, yes: there }
        &&& p2 == (if has_mp4 {
            mp4
        } else {
            inside(dir, "plain.mjpeg"@)
        })
        &&& if there {
            &&& t.len() == 4
            &&& t[3] matches CaptureEvent::Extracted { from, to, res }
            &&& from == p2
            &&& to == thumb
            &&& if res is Ok {
                found_at(r, thumb)
            } else {
                r is None
            }
        } else {
            t.len() == 3 && r is None
        }
    }
}

/// `t` finds the frame that stands for all.
pub open spec fn frame_thumb(
    t: Seq<CaptureEvent>,
    dir: Seq<char>,
    files: Seq<Seq<char>>,
    kind: CaptureKind,
    r: FoundCapture,
) -> bool {
    &&& t.len() == 1
    &&& t[0] matches CaptureEvent::Frame { files: f, kind: k, res }
    &&& f == files
    &&& k == kind
    &&& match res {
        Some(name) => found_at(r, inside(dir, name@)),
        None => r is None,
    }
}

/// `ev` is all that finding the still of a capture does, and `r` where it is.
pub open spec fn thumb_found(
    ev: Seq<CaptureEvent>,
    owner: CaptureOwner,
    run: Seq<char>,
    cam: Seq<char>,
    r: Result<FoundCapture, Reply>,
) -> bool {
    if !safe_segment(run) || !safe_segment(cam) {
        ev.len() == 0 && (r matches Err(why) && why@ == bad("invalid capture path"@))
    } else {
        &&& r matches Ok(found)
        &&& exists|dir: Seq<char>| #[trigger]
            camera_dir(ev, owner, run, cam, dir) && match classified(ev, dir) {
                None => nothing_in(ev, dir) && found is None,
                Some(CaptureKind::Video) => plain_thumb(ev.skip(4), dir, found),
                Some(kind) => frame_thumb(
                    ev.skip(4),
                    dir,
                    ev[3]->Classified_files,
                    kind,
                    found,
                ),
            }
    }
}

fn thumb_of_stream<P: CapturePort>(tap: &mut CaptureTap<P>, dir: &str) -> (r: FoundCapture)
    ensures
        old(tap).log().is_prefix_of(final(tap).log()),
        plain_thumb(final(tap).log().skip(old(tap).log().len() as int), dir@, r),
{
    let thumb = join_path(dir, "thumb.jpg");
    if tap.is_file(thumb.as_str()) {
        return Some(thumb);
    }
    let mp4 = join_path(dir, "plain.mp4");
    let src = if tap.is_file(mp4.as_str()) {
        mp4
    } else {
        join_path(dir, "plain.mjpeg")
    };
    if !tap.is_file(src.as_str()) {
        return None;
    }
    match tap.extract_thumb(src.as_str(), thumb.as_str()) {
        Ok(_) => Some(thumb),
        Err(_) => None,
    }
}

fn thumb_of_frames<P: CapturePort>(
    tap: &mut CaptureTap<P>,
    dir: &str,
    files: &Vec<String>,
    kind: CaptureKind,
) -> (r: FoundCapture)
    ensures
        old(tap).log().is_prefix_of(final(tap).log()),
        frame_thumb(
            final(tap).log().skip(old(tap).log().len() as int),
            dir@,
            texts(files@),
            kind,
            r,
        ),
{
    match tap.thumb_frame(files, kind) {
        Some(name) => Some(join_path(dir, name.as_str())),
        None => None,
    }
}

/// Where the still that stands for a capture is: of a video one that is taken
/// once and kept, else one of its frames.
pub fn capture_thumb<P: CapturePort>(
    tap: &mut CaptureTap<P>,
    owner: &CaptureOwner,
    run: &str,
    cam: &str,
) -> (r: Result<FoundCapture, Reply>)
    ensures
        old(tap).log().is_prefix_of(final(tap).log()),
        thumb_found(
            final(tap).log().skip(old(tap).log().len() as int),
            *owner,
            run@,
            cam@,
            r,
        ),
{
    let ghost start = tap.log();
    if !is_safe_segment(run) || !is_safe_segment(cam) {
        return Err(bad_request("invalid capture path".to_owned()));
    }
    let dir = find_dir(tap, owner, run, cam);
    let ghost head = tap.log();
    let listed = tap.files(dir.as_str());
    proof {
        assert(tap.log().skip(start.len() as int)[0] == head.skip(start.len() as int)[0]);
        assert(tap.log().skip(start.len() as int)[1] == head.skip(start.len() as int)[1]);
        assert(camera_dir(tap.log().skip(start.len() as int), *owner, run@, cam@, dir@));
    }
    let files = match listed {
        Ok(f) => f,
        Err(_) => {
            return Ok(None);
        },
    };
    let kind = tap.classify(&files);
    let ghost mid = tap.log();
    proof {
        assert(mid.skip(start.len() as int)[0] == head.skip(start.len() as int)[0]);
        assert(mid.skip(start.len() as int)[1] == head.skip(start.len() as int)[1]);
        assert(camera_dir(mid.skip(start.len() as int), *owner, run@, cam@, dir@));
    }
    let kind = match kind {
        Some(k) => k,
        None => {
            return Ok(None);
        },
    };
    let found = match kind {
        CaptureKind::Video => thumb_of_stream(tap, dir.as_str()),
        CaptureKind::Smooth => thumb_of_frames(tap, dir.as_str(), &files, CaptureKind::Smooth),
        CaptureKind::Park => thumb_of_frames(tap, dir.as_str(), &files, CaptureKind::Park),
    };
    proof {
        lemma_then(start, mid, tap.log());
        let ev = tap.log().skip(start.len() as int);
        assert(camera_dir(ev, *owner, run@, cam@, dir@));
        assert(classified(ev, dir@) == Some(kind));
    }
    Ok(found)
}

// ── Laws ────────────────────────────────────────────────────────────────────

/// A frame that is told of again takes the place of the one before it, and the
/// others stay: an index grows by at most the number that its last line tells of.
pub proof fn a_replaced_frame_keeps_its_number(
    frames: Seq<Option<ParkView>>,
    e: ParkView,
    n: u64,
)
    ensures
        indexed(frames.push(Some(e)))[e.0] == e,
        n != e.0 ==> indexed(frames.push(Some(e))).dom().contains(n) == indexed(
            frames,
        ).dom().contains(n),
        n != e.0 ==> indexed(frames.push(Some(e)))[n] == indexed(frames)[n],
        indexed(frames.push(None)) == indexed(frames),
{
    assert(frames.push(Some(e)).drop_last() =~= frames);
    assert(frames.push(None).drop_last() =~= frames);
}

/// Nothing is looked at on the disk for a name that is not a plain one.
pub proof fn a_capture_path_never_leaves_its_run<P, S>(
    ev: Seq<CaptureEvent>,
    owner: CaptureOwner,
    run: Seq<char>,
    cam: Seq<char>,
    fps: u32,
    externals: Seq<ExternalCamera<P, S>>,
    r: Result<FoundCapture, Reply>,
)
    requires
        video_found(ev, owner, run, cam, fps, externals, r),
        ev.len() > 0,
    ensures
        safe_segment(run),
        safe_segment(cam),
{
}

/// A video or a still is only told of where there is one: it was found on the disk,
/// or it was just made.
pub open spec fn came_about(e: CaptureEvent, path: Seq<char>) -> bool {
    match e {
        CaptureEvent::IsFile { path: p, yes } => p == path && yes,
        CaptureEvent::Transcoded { from, to, res } => to == path && res is Ok,
        CaptureEvent::Assembled { dir, kind, to, fps, res } => to == path && res is Ok,
        CaptureEvent::Selected { dir, camera, to, fps, res } => to == path && res is Ok,
        CaptureEvent::Extracted { from, to, res } => to == path && res is Ok,
        _ => false,
    }
}

proof fn lemma_inside(dir: Seq<char>, name: Seq<char>)
    requires
        name.len() > 0,
        name[0] != '/',
    ensures
        dir.is_prefix_of(inside(dir, name)),
        name.is_suffix_of(inside(dir, name)),
{
    reveal_strlit("/");
    let p = inside(dir, name);
    assert(dir =~= p.subrange(0, dir.len() as int));
    assert(name =~= p.subrange(p.len() - name.len(), p.len() as int));
}

/// A capture is looked for among the printer's own, in the run and for the camera
/// that were named; the older runs are looked through only by the printer that owns
/// them and has no such run itself.
pub proof fn a_capture_is_looked_for_where_it_belongs<P, S>(
    ev: Seq<CaptureEvent>,
    owner: CaptureOwner,
    run: Seq<char>,
    cam: Seq<char>,
    fps: u32,
    externals: Seq<ExternalCamera<P, S>>,
    r: Result<FoundCapture, Reply>,
)
    requires
        video_found(ev, owner, run, cam, fps, externals, r),
        ev.len() > 0,
    ensures
        ev.len() >= 3,
        ev[0] matches CaptureEvent::IsDir { path, yes } && path == "captures/"@ + owner.id@ + "/"@
            + run && (ev[1] matches CaptureEvent::IsDir { path: sub, yes: has_sub } && {
            let home = if yes || !owner.legacy_captures {
                path
            } else {
                "captures"@ + "/"@ + run
            };
            &&& home.is_prefix_of(sub)
            &&& cam.is_suffix_of(sub)
            &&& ev[2] matches CaptureEvent::Files { dir, res }
            &&& dir == if has_sub {
                sub
            } else {
                home
            }
        }),
{
    let home = if ev[0]->IsDir_yes || !owner.legacy_captures {
        ev[0]->IsDir_path
    } else {
        "captures"@ + "/"@ + run
    };
    lemma_inside(home, cam);
}

/// The video of a capture is made from what is in its own directory, as what it was
/// found to be, and at the speed that was asked for.
pub proof fn a_video_is_of_its_own_capture<P, S>(
    ev: Seq<CaptureEvent>,
    owner: CaptureOwner,
    run: Seq<char>,
    cam: Seq<char>,
    fps: u32,
    externals: Seq<ExternalCamera<P, S>>,
    r: Result<FoundCapture, Reply>,
    i: int,
)
    requires
        video_found(ev, owner, run, cam, fps, externals, r),
        0 <= i < ev.len(),
        ev.len() > 3,
    ensures
        ev[2] matches CaptureEvent::Files { dir, res: Ok(files) } && (ev[3]
            matches CaptureEvent::Classified { files: seen, res: kind } && seen == texts(files@) && {
            &&& ev[i] matches CaptureEvent::Assembled { dir: d, kind: k, to, fps: f, res } ==> d
                == dir && kind == Some(k) && !(k is Video) && dir.is_prefix_of(to) && 1 <= f <= 60
                && (1 <= fps <= 60 ==> f == fps)
            &&& ev[i] matches CaptureEvent::Selected { dir: d, camera, to, fps: f, res } ==> d == dir
                && kind == Some(CaptureKind::Smooth) && dir.is_prefix_of(to) && 1 <= f <= 60 && (1
                <= fps <= 60 ==> f == fps) && (camera as int) < externals.len()
                && externals[camera as int].select_tuning is Some && crate::camera::ext_index(cam)
                == Some(camera as nat)
            &&& ev[i] matches CaptureEvent::Transcoded { from, to, res } ==> kind == Some(
                CaptureKind::Video,
            ) && dir.is_prefix_of(from) && dir.is_prefix_of(to) && from != to
            &&& !(ev[i] is Extracted)
        }),
{
    reveal_strlit("timelapse.mp4");
    reveal_strlit("plain.mp4");
    reveal_strlit("plain.mjpeg");
    let dir = choose|dir: Seq<char>| #[trigger]
        camera_dir(ev, owner, run, cam, dir) && match classified(ev, dir) {
            None => nothing_in(ev, dir) && r->Ok_0 is None,
            Some(CaptureKind::Video) => plain_video(ev.skip(4), dir, r->Ok_0),
            Some(CaptureKind::Smooth) => exists|select: Option<usize>|
                selects(cam, externals, select) && #[trigger] smooth_video(
                    ev.skip(4),
                    dir,
                    select,
                    clamp_fps(fps),
                    r->Ok_0,
                ),
            Some(kind) => assembled(ev.skip(4), dir, kind, clamp_fps(fps), r->Ok_0),
        };
    lemma_inside(dir, "timelapse.mp4"@);
    lemma_inside(dir, "plain.mp4"@);
    lemma_inside(dir, "plain.mjpeg"@);
    assert("plain.mp4"@.len() != "plain.mjpeg"@.len());
    let t = ev.skip(4);
    if i >= 4 {
        assert(t[i - 4] == ev[i]);
        if i >= 5 {
            assert(t.skip(1)[i - 5] == ev[i]);
        }
    }
}

/// A video that is told of came about, and one that came about is told of.
pub proof fn a_video_that_is_told_of_is_there<P, S>(
    ev: Seq<CaptureEvent>,
    owner: CaptureOwner,
    run: Seq<char>,
    cam: Seq<char>,
    fps: u32,
    externals: Seq<ExternalCamera<P, S>>,
    r: Result<FoundCapture, Reply>,
)
    requires
        video_found(ev, owner, run, cam, fps, externals, r),
    ensures
        r matches Ok(Some(path)) ==> ev.len() > 4 && came_about(ev.last(), path@),
        ev.len() > 4 && (ev.last() matches CaptureEvent::Assembled { dir, kind, to, fps: f, res: Ok(_) })
            ==> (r matches Ok(Some(p)) && p@ == ev.last()->Assembled_to),
        ev.len() > 4 && (ev.last() matches CaptureEvent::Selected { dir, camera, to, fps: f, res: Ok(_) })
            ==> (r matches Ok(Some(p)) && p@ == ev.last()->Selected_to),
        ev.len() > 4 && (ev.last() matches CaptureEvent::Transcoded { from, to, res: Ok(_) }) ==> (r
            matches Ok(Some(p)) && p@ == ev.last()->Transcoded_to),
        r is Err ==> ev.len() == 0,
{
    if ev.len() > 4 {
        let t = ev.skip(4);
        assert(t.last() == ev.last());
        if t.len() > 1 {
            assert(t.skip(1).last() == ev.last());
        }
    }
}

/// A still that is told of is there, or is a frame of its own capture.
pub proof fn a_still_is_of_its_own_capture(
    ev: Seq<CaptureEvent>,
    owner: CaptureOwner,
    run: Seq<char>,
    cam: Seq<char>,
    r: Result<FoundCapture, Reply>,
)
    requires
        thumb_found(ev, owner, run, cam, r),
    ensures
        r matches Ok(Some(path)) ==> ev.len() > 4 && (ev[2] matches CaptureEvent::Files {
            dir,
            res: Ok(files),
        } && dir.is_prefix_of(path@) && match ev.last() {
            CaptureEvent::Frame { files: f, kind, res } => f == texts(files@) && ev[3] == (
            CaptureEvent::Classified { files: f, res: Some(kind) }) && (res matches Some(name)
                && path@ == inside(dir, name@)),
            e => came_about(e, path@) && (e matches CaptureEvent::Extracted { from, to, res }
                ==> dir.is_prefix_of(from) && ev[ev.len() - 2] == (CaptureEvent::IsFile {
                path: from,
                yes: true,
            })),
        }),
        ev.len() > 0 ==> ev[0] == (CaptureEvent::IsDir {
            path: "captures/"@ + owner.id@ + "/"@ + run,
            yes: ev[0]->IsDir_yes,
        }),
{
    reveal_strlit("thumb.jpg");
    reveal_strlit("plain.mp4");
    reveal_strlit("plain.mjpeg");
    reveal_strlit("/");
    if r matches Ok(Some(_)) {
        let dir = choose|dir: Seq<char>| #[trigger]
            camera_dir(ev, owner, run, cam, dir) && match classified(ev, dir) {
                None => nothing_in(ev, dir) && r->Ok_0 is None,
                Some(CaptureKind::Video) => plain_thumb(ev.skip(4), dir, r->Ok_0),
                Some(kind) => frame_thumb(
                    ev.skip(4),
                    dir,
                    ev[3]->Classified_files,
                    kind,
                    r->Ok_0,
                ),
            };
        lemma_inside(dir, "thumb.jpg"@);
        lemma_inside(dir, "plain.mp4"@);
        lemma_inside(dir, "plain.mjpeg"@);
        let t = ev.skip(4);
        assert(t.last() == ev.last());
        if t.len() >= 2 {
            assert(t[t.len() - 2] == ev[ev.len() - 2]);
        }
        if let CaptureEvent::Frame { files, kind, res } = ev.last() {
            let p = inside(dir, res->0@);
            assert(dir =~= p.subrange(0, dir.len() as int)) by {
            }
        }
    }
}

/// This line tells of the frame of this number.
pub open spec fn tells_of(line: Option<ParkView>, n: u64) -> bool {
    line matches Some(e) && e.0 == n
}

/// The index of parked frames holds for each number what its last line tells.
pub proof fn the_last_line_on_a_frame_counts(frames: Seq<Option<ParkView>>, i: int, n: u64)
    requires
        0 <= i < frames.len(),
        tells_of(frames[i], n),
        forall|j: int| i < j < frames.len() ==> !tells_of(#[trigger] frames[j], n),
    ensures
        indexed(frames).dom().contains(n),
        indexed(frames)[n] == frames[i]->0,
    decreases frames.len(),
{
    let less = frames.drop_last();
    let k = frames.len() - 1;
    if i < k {
        assert(!tells_of(frames[k], n));
        assert forall|j: int| i < j < less.len() implies !tells_of(#[trigger] less[j], n) by {
            assert(less[j] == frames[j]);
        }
        the_last_line_on_a_frame_counts(less, i, n);
    }
}

/// The index of parked frames holds nothing that no line tells of.
pub proof fn no_frame_is_made_up(frames: Seq<Option<ParkView>>, n: u64)
    requires
        indexed(frames).dom().contains(n),
    ensures
        exists|i: int| 0 <= i < frames.len() && tells_of(#[trigger] frames[i], n),
    decreases frames.len(),
{
    if frames.len() > 0 {
        let less = frames.drop_last();
        let k = frames.len() - 1;
        if tells_of(frames[k], n) {
        } else {
            no_frame_is_made_up(less, n);
            let i = choose|i: int| 0 <= i < less.len() && tells_of(#[trigger] less[i], n);
            assert(tells_of(frames[i], n));
        }
    }
}

/// The parked frames that are shown are those of a camera of the run that is
/// followed, out of that run's own directory.
pub proof fn parked_frames_are_of_a_camera_of_the_run(
    runs: Seq<RunStatus>,
    id: Seq<char>,
    r: Option<(String, bool)>,
)
    requires
        park_sourced(runs, id, r),
    ensures
        r matches Some((dir, running)) ==> exists|i: int|
            0 <= i < runs.len() && texts((#[trigger] runs[i]).cameras@).contains(id)
                && runs[i].running == running && (runs[i].out_dir matches Some(d) && dir@ == inside(
                d@,
                id,
            )),
{
}

/// A camera that gave a picture is not refused; one that gave an error is a bad gateway
/// that says so, and a task that was lost is this server's own fault.
pub proof fn a_camera_s_fault_is_not_the_server_s<T>(
    res: Task<Result<T, String>>,
    lost: Seq<char>,
)
    ensures
        picture_refusal(res, lost) is None <==> (res matches Task::Done(Ok(_))),
        res matches Task::Done(Err(e)) ==> picture_refusal(res, lost) == Some((502u16, e@)),
        res is Lost ==> picture_refusal(res, lost) == Some((500u16, lost)),
{
}

} // verus!
