//! Timelapses: which cameras a run captures from, how often, and which run a
//! preview follows.
use vstd::prelude::*;

use crate::camera::{ext_index, external, external_index, resolve_grab, ExternalCamera, Grab};
use crate::number::{decimal, digits};
use crate::paths::{epoch_of, run_dir_epoch};
use crate::reply::{bad, bad_request, conflict, opt_reply, reply, Refusal, Reply};
use crate::text::{debug_text, join2, join3, join_all, joined, opt_text, quoted, same_text, texts};

verus! {

/// A timelapse as it was asked for.
#[derive(Debug)]
pub struct TimelapseStartBody {
    /// A single camera: `internal` or `ext-N`.
    pub camera: Option<String>,
    /// Several cameras; they come before the single one.
    pub cameras: Vec<String>,
    /// `smooth`, `plain`, `park` or `segment`.
    pub mode: Option<String>,
    /// Smooth: every so many layers.
    pub every: u64,
    /// Plain: every so many milliseconds.
    pub interval_ms: Option<u64>,
    /// Smooth: when frames are taken after a layer began, in milliseconds.
    pub burst_offsets_ms: Option<Vec<u64>>,
    /// Segment: the longest a layer is waited for, in milliseconds.
    pub window_ms: Option<u64>,
}

/// How many layers lie between two frames unless the caller says so.
pub fn default_every() -> (r: u64)
    ensures
        r == 1,
{
    1
}

/// The kinds of runs.
#[derive(Clone, Copy, Debug, PartialEq, Eq, Structural)]
pub enum Mode {
    Smooth,
    Plain,
    Park,
    Segment,
}

impl Mode {
    pub open spec fn name(self) -> Seq<char> {
        match self {
            Mode::Smooth => "smooth"@,
            Mode::Plain => "plain"@,
            Mode::Park => "park"@,
            Mode::Segment => "segment"@,
        }
    }

    pub fn as_str(self) -> (r: &'static str)
        ensures
            r@ == self.name(),
    {
        match self {
            Mode::Smooth => "smooth",
            Mode::Plain => "plain",
            Mode::Park => "park",
            Mode::Segment => "segment",
        }
    }
}

/// The kind of run that a name stands for.
pub open spec fn mode_named(s: Seq<char>) -> Option<Mode> {
    if s == "smooth"@ {
        Some(Mode::Smooth)
    } else if s == "plain"@ {
        Some(Mode::Plain)
    } else if s == "park"@ {
        Some(Mode::Park)
    } else if s == "segment"@ {
        Some(Mode::Segment)
    } else {
        None
    }
}

fn parse_mode(s: &str) -> (r: Option<Mode>)
    ensures
        r == mode_named(s@),
{
    if same_text(s, "smooth") {
        Some(Mode::Smooth)
    } else if same_text(s, "plain") {
        Some(Mode::Plain)
    } else if same_text(s, "park") {
        Some(Mode::Park)
    } else if same_text(s, "segment") {
        Some(Mode::Segment)
    } else {
        None
    }
}

/// The name of the run that was asked for.
pub open spec fn mode_name(mode: Option<Seq<char>>) -> Seq<char> {
    match mode {
        Some(m) => m,
        None => "smooth"@,
    }
}

// ── How often ───────────────────────────────────────────────────────────────

/// The offset that is over the limit first.
pub open spec fn late_offset(v: Seq<u64>) -> Option<u64>
    decreases v.len(),
{
    if v.len() == 0 {
        None
    } else if v[0] > 10_000 {
        Some(v[0])
    } else {
        late_offset(v.drop_first())
    }
}

fn find_late(v: &Vec<u64>) -> (r: Option<u64>)
    ensures
        r == late_offset(v@),
{
    let mut i: usize = 0;
    proof {
        assert(v@.skip(0) =~= v@);
    }
    while i < v.len()
        invariant
            i <= v@.len(),
            late_offset(v@.skip(i as int)) == late_offset(v@),
        decreases v@.len() - i,
    {
        proof {
            assert(v@.skip(i as int).drop_first() =~= v@.skip(i + 1));
        }
        if v[i] > 10_000 {
            return Some(v[i]);
        }
        i += 1;
    }
    None
}

pub open spec fn bursts_of(b: Option<Vec<u64>>, default_burst: Seq<u64>) -> Seq<u64> {
    match b {
        Some(v) => v@,
        None => default_burst,
    }
}

pub open spec fn or_ms(ms: Option<u64>, default: u64) -> u64 {
    match ms {
        Some(v) => v,
        None => default,
    }
}

fn ms_or(ms: Option<u64>, default: u64) -> (r: u64)
    ensures
        r == or_ms(ms, default),
{
    match ms {
        Some(v) => v,
        None => default,
    }
}

/// What is wrong with how often a run would capture.
pub open spec fn cadence_invalid(b: TimelapseStartBody, default_burst: Seq<u64>) -> Option<Refusal> {
    let name = mode_name(opt_text(b.mode));
    match mode_named(name) {
        None => Some(
            bad(
                "unknown mode "@ + debug_text(name) + " (use smooth, plain, park, or segment)"@,
            ),
        ),
        Some(Mode::Smooth) => {
            let bursts = bursts_of(b.burst_offsets_ms, default_burst);
            if b.every < 1 {
                Some(bad("every must be >= 1"@))
            } else if bursts.len() == 0 {
                Some(bad("burst_offsets_ms must have at least one offset"@))
            } else if bursts.len() > 16 {
                Some(bad("burst_offsets_ms: at most 16 offsets"@))
            } else {
                match late_offset(bursts) {
                    Some(o) => Some(
                        bad(
                            "burst_offsets_ms: "@ + digits(o as nat)
                                + " ms exceeds the 10000 ms cap"@,
                        ),
                    ),
                    None => None,
                }
            }
        },
        Some(Mode::Plain) => if or_ms(b.interval_ms, 3000) < 100 {
            Some(bad("interval_ms must be >= 100"@))
        } else {
            None
        },
        Some(Mode::Park) => None,
        Some(Mode::Segment) => if !(5_000 <= or_ms(b.window_ms, 120_000) <= 600_000) {
            Some(bad("window_ms must be between 5000 and 600000"@))
        } else {
            None
        },
    }
}

fn cadence(b: &TimelapseStartBody, bursts: &Vec<u64>, Ghost(default_burst): Ghost<Seq<u64>>) -> (r:
    Result<Mode, Reply>)
    requires
        bursts@ == bursts_of(b.burst_offsets_ms, default_burst),
    ensures
        match r {
            Ok(m) => {
                &&& cadence_invalid(*b, default_burst) is None
                &&& mode_named(mode_name(opt_text(b.mode))) == Some(m)
            },
            Err(why) => cadence_invalid(*b, default_burst) == Some(why@),
        },
{
    let name = match &b.mode {
        Some(m) => m.clone(),
        None => "smooth".to_owned(),
    };
    let mode = match parse_mode(name.as_str()) {
        Some(m) => m,
        None => {
            let q = quoted(name.as_str());
            return Err(
                bad_request(
                    join3("unknown mode ", q.as_str(), " (use smooth, plain, park, or segment)"),
                ),
            );
        },
    };
    match mode {
        Mode::Smooth => {
            if b.every < 1 {
                return Err(bad_request("every must be >= 1".to_owned()));
            }
            if bursts.len() == 0 {
                return Err(
                    bad_request("burst_offsets_ms must have at least one offset".to_owned()),
                );
            }
            if bursts.len() > 16 {
                return Err(bad_request("burst_offsets_ms: at most 16 offsets".to_owned()));
            }
            if let Some(o) = find_late(bursts) {
                let n = decimal(o);
                return Err(
                    bad_request(
                        join3("burst_offsets_ms: ", n.as_str(), " ms exceeds the 10000 ms cap"),
                    ),
                );
            }
        },
        Mode::Plain => {
            if ms_or(b.interval_ms, 3000) < 100 {
                return Err(bad_request("interval_ms must be >= 100".to_owned()));
            }
        },
        Mode::Park => {},
        Mode::Segment => {
            let w: u64 = ms_or(b.window_ms, 120_000);
            if w < 5_000 || w > 600_000 {
                return Err(bad_request("window_ms must be between 5000 and 600000".to_owned()));
            }
        },
    }
    Ok(mode)
}

// ── Which cameras ───────────────────────────────────────────────────────────

/// The names, each once, in the order in which they come first.
pub open spec fn deduped(s: Seq<Seq<char>>) -> Seq<Seq<char>>
    decreases s.len(),
{
    if s.len() == 0 {
        Seq::empty()
    } else {
        let r = deduped(s.drop_last());
        if r.contains(s.last()) {
            r
        } else {
            r.push(s.last())
        }
    }
}

/// The cameras that were asked for: the several, or else the single one.
pub open spec fn asked_cameras(b: TimelapseStartBody) -> Seq<Seq<char>> {
    if b.cameras@.len() > 0 {
        texts(b.cameras@)
    } else {
        match b.camera {
            Some(c) => seq![c@],
            None => Seq::empty(),
        }
    }
}

/// The cameras that a run captures from, in order.
pub open spec fn run_cameras(b: TimelapseStartBody) -> Seq<Seq<char>> {
    deduped(asked_cameras(b))
}

/// Whether a name is among these.
fn is_listed(v: &Vec<String>, name: &str) -> (r: bool)
    ensures
        r == texts(v@).contains(name@),
{
    let mut i: usize = 0;
    while i < v.len()
        invariant
            i <= v@.len(),
            forall|k: int| 0 <= k < i ==> (#[trigger] v@[k])@ != name@,
        decreases v@.len() - i,
    {
        if same_text(v[i].as_str(), name) {
            proof {
                assert(texts(v@)[i as int] == name@);
            }
            return true;
        }
        i += 1;
    }
    proof {
        if texts(v@).contains(name@) {
            let k = choose|k: int| 0 <= k < texts(v@).len() && texts(v@)[k] == name@;
            assert(v@[k]@ == name@);
        }
    }
    false
}

fn dedup(v: &Vec<String>) -> (r: Vec<String>)
    ensures
        texts(r@) == deduped(texts(v@)),
{
    let mut out: Vec<String> = Vec::new();
    let mut i: usize = 0;
    let ghost all = texts(v@);
    proof {
        assert(all.take(0) =~= Seq::<Seq<char>>::empty());
        assert(texts(out@) =~= Seq::<Seq<char>>::empty());
    }
    while i < v.len()
        invariant
            i <= v@.len(),
            all == texts(v@),
            texts(out@) == deduped(all.take(i as int)),
        decreases v@.len() - i,
    {
        proof {
            let t = all.take(i + 1);
            assert(t.drop_last() =~= all.take(i as int));
            assert(t.last() == v@[i as int]@);
        }
        if !is_listed(&out, v[i].as_str()) {
            let ghost before = texts(out@);
            out.push(v[i].clone());
            proof {
                assert(texts(out@) =~= before.push(v@[i as int]@));
            }
        }
        i += 1;
    }
    proof {
        assert(all.take(v@.len() as int) =~= all);
    }
    out
}

fn camera_ids(b: &TimelapseStartBody) -> (r: Vec<String>)
    ensures
        texts(r@) == run_cameras(*b),
{
    if b.cameras.len() > 0 {
        return dedup(&b.cameras);
    }
    let mut one: Vec<String> = Vec::new();
    if let Some(c) = &b.camera {
        one.push(c.clone());
    }
    proof {
        assert(texts(one@) =~= asked_cameras(*b));
    }
    dedup(&one)
}

/// A list of names as it is shown.
pub open spec fn shown_names(ids: Seq<Seq<char>>) -> Seq<char> {
    "["@ + joined(ids.map_values(|s: Seq<char>| debug_text(s)), ", "@) + "]"@
}

fn show_names(ids: &Vec<String>) -> (r: String)
    ensures
        r@ == shown_names(texts(ids@)),
{
    let mut quoted_ids: Vec<String> = Vec::new();
    let mut i: usize = 0;
    while i < ids.len()
        invariant
            i <= ids@.len(),
            quoted_ids@.len() == i,
            forall|k: int| 0 <= k < i ==> (#[trigger] quoted_ids@[k])@ == debug_text(ids@[k]@),
        decreases ids@.len() - i,
    {
        quoted_ids.push(quoted(ids[i].as_str()));
        i += 1;
    }
    proof {
        assert(texts(quoted_ids@) =~= texts(ids@).map_values(|s: Seq<char>| debug_text(s)));
    }
    let inner = join_all(&quoted_ids, ", ");
    join3("[", inner.as_str(), "]")
}

/// A camera that a run reads the stream of.
#[derive(Debug)]
pub struct StreamCapture {
    pub id: String,
    pub stream_url: String,
    /// Which external camera it is, for its tuning.
    pub camera: usize,
}

/// A camera can be captured from by its stream: with what `park` needs, and with
/// what `segment` needs besides.
pub open spec fn capable<P, S>(
    id: Seq<char>,
    externals: Seq<ExternalCamera<P, S>>,
    segment: bool,
) -> bool {
    external(id, externals) matches Some(c) && (if segment {
        c.can_segment()
    } else {
        c.can_park()
    })
}

/// Of `ids`, those that can be captured from, or those that cannot.
pub open spec fn sorted_out<P, S>(
    ids: Seq<Seq<char>>,
    externals: Seq<ExternalCamera<P, S>>,
    segment: bool,
    keep: bool,
) -> Seq<Seq<char>>
    decreases ids.len(),
{
    if ids.len() == 0 {
        Seq::empty()
    } else {
        let r = sorted_out(ids.drop_last(), externals, segment, keep);
        if capable(ids.last(), externals, segment) == keep {
            r.push(ids.last())
        } else {
            r
        }
    }
}

/// `c` captures from the camera of this name.
pub open spec fn captures<P, S>(
    c: StreamCapture,
    id: Seq<char>,
    externals: Seq<ExternalCamera<P, S>>,
) -> bool {
    &&& c.id@ == id
    &&& ext_index(id) == Some(c.camera as nat)
    &&& c.camera < externals.len()
    &&& externals[c.camera as int].stream_url matches Some(url)
    &&& c.stream_url@ == url@
}

pub open spec fn capture_ids(caps: Seq<StreamCapture>) -> Seq<Seq<char>> {
    caps.map_values(|c: StreamCapture| c.id@)
}

/// `caps` and `skipped` are what `ids` fall into.
pub open spec fn partitioned<P, S>(
    ids: Seq<Seq<char>>,
    externals: Seq<ExternalCamera<P, S>>,
    segment: bool,
    caps: Seq<StreamCapture>,
    skipped: Seq<String>,
) -> bool {
    &&& capture_ids(caps) == sorted_out(ids, externals, segment, true)
    &&& texts(skipped) == sorted_out(ids, externals, segment, false)
    &&& forall|i: int|
        0 <= i < caps.len() ==> captures(#[trigger] caps[i], caps[i].id@, externals)
}

pub open spec fn none_capable(ids: Seq<Seq<char>>, segment: bool) -> Seq<char> {
    if segment {
        "no segment-capable cameras among "@ + shown_names(ids)
            + " — each needs a stream_url, a park_tuning, and a select_tuning"@
    } else {
        "no park-capable cameras among "@ + shown_names(ids)
            + " — each needs a stream_url and a park_tuning"@
    }
}

fn capture_from<P, S>(id: &str, externals: &Vec<ExternalCamera<P, S>>, segment: bool) -> (r: Option<
    StreamCapture,
>)
    ensures
        r is Some <==> capable(id@, externals@, segment),
        r matches Some(c) ==> captures(c, id@, externals@),
{
    let i: usize = match external_index(id) {
        Some(i) => i,
        None => {
            return None;
        },
    };
    if i >= externals.len() {
        return None;
    }
    let c = &externals[i];
    if c.park_tuning.is_none() || (segment && c.select_tuning.is_none()) {
        return None;
    }
    match &c.stream_url {
        Some(url) => Some(
            StreamCapture { id: id.to_owned(), stream_url: url.clone(), camera: i },
        ),
        None => None,
    }
}

/// Part the cameras that a run reads the stream of from those it cannot use. At
/// least one has to be usable.
fn stream_captures<P, S>(
    ids: &Vec<String>,
    externals: &Vec<ExternalCamera<P, S>>,
    segment: bool,
) -> (r: Result<(Vec<StreamCapture>, Vec<String>), Reply>)
    ensures
        match r {
            Ok((caps, skipped)) => {
                &&& caps@.len() > 0
                &&& partitioned(texts(ids@), externals@, segment, caps@, skipped@)
            },
            Err(why) => {
                &&& sorted_out(texts(ids@), externals@, segment, true).len() == 0
                &&& why@ == bad(none_capable(texts(ids@), segment))
            },
        },
{
    let mut caps: Vec<StreamCapture> = Vec::new();
    let mut skipped: Vec<String> = Vec::new();
    let mut i: usize = 0;
    let ghost all = texts(ids@);
    proof {
        assert(all.take(0) =~= Seq::<Seq<char>>::empty());
        assert(capture_ids(caps@) =~= Seq::<Seq<char>>::empty());
        assert(texts(skipped@) =~= Seq::<Seq<char>>::empty());
    }
    while i < ids.len()
        invariant
            i <= ids@.len(),
            all == texts(ids@),
            partitioned(all.take(i as int), externals@, segment, caps@, skipped@),
        decreases ids@.len() - i,
    {
        let ghost caps0 = caps@;
        let ghost skipped0 = skipped@;
        proof {
            let t = all.take(i + 1);
            assert(t.drop_last() =~= all.take(i as int));
            assert(t.last() == ids@[i as int]@);
        }
        match capture_from(ids[i].as_str(), externals, segment) {
            Some(c) => {
                caps.push(c);
                proof {
                    assert(capture_ids(caps@) =~= capture_ids(caps0).push(c.id@));
                }
            },
            None => {
                skipped.push(ids[i].clone());
                proof {
                    assert(texts(skipped@) =~= texts(skipped0).push(ids@[i as int]@));
                }
            },
        }
        i += 1;
    }
    proof {
        assert(all.take(ids@.len() as int) =~= all);
        assert(capture_ids(caps@).len() == caps@.len());
    }
    if caps.len() == 0 {
        let names = show_names(ids);
        let why = if segment {
            join3(
                "no segment-capable cameras among ",
                names.as_str(),
                " — each needs a stream_url, a park_tuning, and a select_tuning",
            )
        } else {
            join3(
                "no park-capable cameras among ",
                names.as_str(),
                " — each needs a stream_url and a park_tuning",
            )
        };
        return Err(bad_request(why));
    }
    Ok((caps, skipped))
}

// ── The run ─────────────────────────────────────────────────────────────────

/// One camera of a plain run: its stream is recorded where it has one, else a
/// frame is taken every so often.
#[derive(Debug)]
pub enum PlainCapture {
    Stream { id: String, url: String },
    Sample { id: String, grab: Grab },
}

/// One camera of a smooth run, and the external camera whose tuning picks the
/// parked frame, where there is one.
#[derive(Debug)]
pub struct SmoothCapture {
    pub id: String,
    pub grab: Grab,
    pub select: Option<usize>,
}

/// A run that can be started.
#[derive(Debug)]
#[allow(inconsistent_fields)]
pub enum TimelapseRun {
    Smooth { cameras: Vec<SmoothCapture>, every: u64, burst_offsets_ms: Vec<u64> },
    Plain { cameras: Vec<PlainCapture>, interval_ms: u64 },
    Park { cameras: Vec<StreamCapture>, skipped: Vec<String> },
    Segment { cameras: Vec<StreamCapture>, skipped: Vec<String>, window_ms: u64 },
}

/// A frame can be grabbed from this camera.
pub open spec fn grabbable<P, S>(
    id: Seq<char>,
    internal: bool,
    externals: Seq<ExternalCamera<P, S>>,
) -> bool {
    if id == "internal"@ {
        internal
    } else {
        external(id, externals) is Some
    }
}

/// `g` grabs from this camera.
pub open spec fn grabs_from<P, S>(
    g: Grab,
    id: Seq<char>,
    externals: Seq<ExternalCamera<P, S>>,
) -> bool {
    if id == "internal"@ {
        g is Internal
    } else {
        g matches Grab::Url(u) && external(id, externals) matches Some(c) && u@ == c.url@
    }
}

/// `c` is how a plain run captures from this camera.
pub open spec fn plain_from<P, S>(
    c: PlainCapture,
    id: Seq<char>,
    externals: Seq<ExternalCamera<P, S>>,
) -> bool {
    let stream = match external(id, externals) {
        Some(e) => opt_text(e.stream_url),
        None => None,
    };
    match c {
        PlainCapture::Stream { id: i, url } => i@ == id && stream == Some(url@),
        PlainCapture::Sample { id: i, grab } => i@ == id && stream is None && grabs_from(
            grab,
            id,
            externals,
        ),
    }
}

/// `c` is how a smooth run captures from this camera.
pub open spec fn smooth_from<P, S>(
    c: SmoothCapture,
    id: Seq<char>,
    externals: Seq<ExternalCamera<P, S>>,
) -> bool {
    &&& c.id@ == id
    &&& grabs_from(c.grab, id, externals)
    &&& match c.select {
        Some(i) => {
            &&& ext_index(id) == Some(i as nat)
            &&& i < externals.len()
            &&& externals[i as int].select_tuning is Some
        },
        None => external(id, externals) matches Some(e) ==> e.select_tuning is None,
    }
}

/// The first camera that no frame can be grabbed from.
pub open spec fn first_unknown<P, S>(
    ids: Seq<Seq<char>>,
    internal: bool,
    externals: Seq<ExternalCamera<P, S>>,
) -> Option<Seq<char>>
    decreases ids.len(),
{
    if ids.len() == 0 {
        None
    } else {
        match first_unknown(ids.drop_last(), internal, externals) {
            Some(id) => Some(id),
            None => if grabbable(ids.last(), internal, externals) {
                None
            } else {
                Some(ids.last())
            },
        }
    }
}

pub open spec fn unknown_camera(id: Seq<char>) -> Refusal {
    (404, "unknown or unconfigured camera: "@ + id)
}

/// `run` captures from these cameras as it was asked to.
pub open spec fn run_of<P, S>(
    run: TimelapseRun,
    b: TimelapseStartBody,
    externals: Seq<ExternalCamera<P, S>>,
    default_burst: Seq<u64>,
) -> bool {
    let ids = run_cameras(b);
    match run {
        TimelapseRun::Smooth { cameras, every, burst_offsets_ms } => {
            &&& every == b.every
            &&& burst_offsets_ms@ == bursts_of(b.burst_offsets_ms, default_burst)
            &&& cameras@.len() == ids.len()
            &&& forall|i: int|
                0 <= i < ids.len() ==> smooth_from(#[trigger] cameras@[i], ids[i], externals)
        },
        TimelapseRun::Plain { cameras, interval_ms } => {
            &&& interval_ms == or_ms(b.interval_ms, 3000)
            &&& cameras@.len() == ids.len()
            &&& forall|i: int|
                0 <= i < ids.len() ==> plain_from(#[trigger] cameras@[i], ids[i], externals)
        },
        TimelapseRun::Park { cameras, skipped } => {
            &&& cameras@.len() > 0
            &&& partitioned(ids, externals, false, cameras@, skipped@)
        },
        TimelapseRun::Segment { cameras, skipped, window_ms } => {
            &&& window_ms == or_ms(b.window_ms, 120_000)
            &&& cameras@.len() > 0
            &&& partitioned(ids, externals, true, cameras@, skipped@)
        },
    }
}

pub open spec fn run_mode(run: TimelapseRun) -> Mode {
    match run {
        TimelapseRun::Smooth { .. } => Mode::Smooth,
        TimelapseRun::Plain { .. } => Mode::Plain,
        TimelapseRun::Park { .. } => Mode::Park,
        TimelapseRun::Segment { .. } => Mode::Segment,
    }
}

/// Why a timelapse is not started.
pub open spec fn timelapse_refusal<P, S>(
    b: TimelapseStartBody,
    internal: bool,
    externals: Seq<ExternalCamera<P, S>>,
    default_burst: Seq<u64>,
) -> Option<Refusal> {
    let ids = run_cameras(b);
    if cadence_invalid(b, default_burst) is Some {
        cadence_invalid(b, default_burst)
    } else if ids.len() == 0 {
        Some(bad("specify a camera or cameras to capture"@))
    } else {
        match mode_named(mode_name(opt_text(b.mode))) {
            Some(Mode::Park) => if sorted_out(ids, externals, false, true).len() == 0 {
                Some(bad(none_capable(ids, false)))
            } else {
                None
            },
            Some(Mode::Segment) => if sorted_out(ids, externals, true, true).len() == 0 {
                Some(bad(none_capable(ids, true)))
            } else {
                None
            },
            _ => match first_unknown(ids, internal, externals) {
                Some(id) => Some(unknown_camera(id)),
                None => None,
            },
        }
    }
}

fn smooth_captures<P, S>(
    ids: &Vec<String>,
    internal: bool,
    externals: &Vec<ExternalCamera<P, S>>,
) -> (r: Result<Vec<SmoothCapture>, Reply>)
    ensures
        match r {
            Ok(v) => {
                &&& first_unknown(texts(ids@), internal, externals@) is None
                &&& v@.len() == ids@.len()
                &&& forall|i: int|
                    0 <= i < ids@.len() ==> smooth_from(#[trigger] v@[i], ids@[i]@, externals@)
            },
            Err(why) => first_unknown(texts(ids@), internal, externals@) matches Some(id)
                && why@ == unknown_camera(id),
        },
{
    let mut out: Vec<SmoothCapture> = Vec::new();
    let mut i: usize = 0;
    let ghost all = texts(ids@);
    proof {
        assert(all.take(0) =~= Seq::<Seq<char>>::empty());
    }
    while i < ids.len()
        invariant
            i <= ids@.len(),
            all == texts(ids@),
            first_unknown(all.take(i as int), internal, externals@) is None,
            out@.len() == i,
            forall|k: int| 0 <= k < i ==> smooth_from(#[trigger] out@[k], ids@[k]@, externals@),
        decreases ids@.len() - i,
    {
        proof {
            let t = all.take(i + 1);
            assert(t.drop_last() =~= all.take(i as int));
            assert(t.last() == ids@[i as int]@);
        }
        let id = ids[i].as_str();
        match resolve_grab(id, internal, externals) {
            None => {
                proof {
                    lemma_first_unknown(all, i + 1, internal, externals@);
                }
                return Err(reply(404, join2("unknown or unconfigured camera: ", id)));
            },
            Some(grab) => {
                let select: Option<usize> = match external_index(id) {
                    Some(k) => if k < externals.len() && externals[k].select_tuning.is_some() {
                        Some(k)
                    } else {
                        None
                    },
                    None => None,
                };
                out.push(SmoothCapture { id: id.to_owned(), grab, select });
            },
        }
        i += 1;
    }
    proof {
        assert(all.take(ids@.len() as int) =~= all);
    }
    Ok(out)
}

fn plain_captures<P, S>(
    ids: &Vec<String>,
    internal: bool,
    externals: &Vec<ExternalCamera<P, S>>,
) -> (r: Result<Vec<PlainCapture>, Reply>)
    ensures
        match r {
            Ok(v) => {
                &&& first_unknown(texts(ids@), internal, externals@) is None
                &&& v@.len() == ids@.len()
                &&& forall|i: int|
                    0 <= i < ids@.len() ==> plain_from(#[trigger] v@[i], ids@[i]@, externals@)
            },
            Err(why) => first_unknown(texts(ids@), internal, externals@) matches Some(id)
                && why@ == unknown_camera(id),
        },
{
    let mut out: Vec<PlainCapture> = Vec::new();
    let mut i: usize = 0;
    let ghost all = texts(ids@);
    proof {
        assert(all.take(0) =~= Seq::<Seq<char>>::empty());
    }
    while i < ids.len()
        invariant
            i <= ids@.len(),
            all == texts(ids@),
            first_unknown(all.take(i as int), internal, externals@) is None,
            out@.len() == i,
            forall|k: int| 0 <= k < i ==> plain_from(#[trigger] out@[k], ids@[k]@, externals@),
        decreases ids@.len() - i,
    {
        proof {
            let t = all.take(i + 1);
            assert(t.drop_last() =~= all.take(i as int));
            assert(t.last() == ids@[i as int]@);
        }
        let id = ids[i].as_str();
        match resolve_grab(id, internal, externals) {
            None => {
                proof {
                    lemma_first_unknown(all, i + 1, internal, externals@);
                }
                return Err(reply(404, join2("unknown or unconfigured camera: ", id)));
            },
            Some(grab) => match crate::camera::resolve_stream_url(id, externals) {
                Some(url) => {
                    out.push(PlainCapture::Stream { id: id.to_owned(), url });
                },
                None => {
                    out.push(PlainCapture::Sample { id: id.to_owned(), grab });
                },
            },
        }
        i += 1;
    }
    proof {
        assert(all.take(ids@.len() as int) =~= all);
    }
    Ok(out)
}

/// The first unknown camera of a beginning is that of the whole.
proof fn lemma_first_unknown<P, S>(
    ids: Seq<Seq<char>>,
    k: int,
    internal: bool,
    externals: Seq<ExternalCamera<P, S>>,
)
    requires
        0 <= k <= ids.len(),
        first_unknown(ids.take(k), internal, externals) is Some,
    ensures
        first_unknown(ids, internal, externals) == first_unknown(ids.take(k), internal, externals),
    decreases ids.len(),
{
    if k == ids.len() {
        assert(ids.take(k) =~= ids);
    } else {
        assert(ids.drop_last().take(k) =~= ids.take(k));
        lemma_first_unknown(ids.drop_last(), k, internal, externals);
    }
}

/// What a timelapse that was asked for comes to: the run, or why there is none.
/// How often it captures is looked at before the cameras are.
pub fn timelapse_start<P, S>(
    b: &TimelapseStartBody,
    internal: bool,
    externals: &Vec<ExternalCamera<P, S>>,
    default_burst: &Vec<u64>,
) -> (r: Result<TimelapseRun, Reply>)
    ensures
        match r {
            Ok(run) => {
                &&& timelapse_refusal(*b, internal, externals@, default_burst@) is None
                &&& mode_named(mode_name(opt_text(b.mode))) == Some(run_mode(run))
                &&& run_of(run, *b, externals@, default_burst@)
            },
            Err(why) => timelapse_refusal(*b, internal, externals@, default_burst@) == Some(why@),
        },
{
    let bursts: Vec<u64> = match &b.burst_offsets_ms {
        Some(v) => copy_all(v),
        None => copy_all(default_burst),
    };
    let mode = match cadence(b, &bursts, Ghost(default_burst@)) {
        Ok(m) => m,
        Err(why) => {
            return Err(why);
        },
    };
    let ids = camera_ids(b);
    proof {
        assert(texts(ids@).len() == ids@.len());
        assert forall|i: int| 0 <= i < ids@.len() implies (#[trigger] ids@[i])@ == run_cameras(
            *b,
        )[i] by {
            assert(texts(ids@)[i] == ids@[i]@);
        }
    }
    if ids.len() == 0 {
        return Err(bad_request("specify a camera or cameras to capture".to_owned()));
    }
    match mode {
        Mode::Park => match stream_captures(&ids, externals, false) {
            Ok((cameras, skipped)) => {
                proof {
                    assert(capture_ids(cameras@).len() == cameras@.len());
                }
                Ok(TimelapseRun::Park { cameras, skipped })
            },
            Err(why) => Err(why),
        },
        Mode::Segment => match stream_captures(&ids, externals, true) {
            Ok((cameras, skipped)) => {
                proof {
                    assert(capture_ids(cameras@).len() == cameras@.len());
                }
                let window_ms: u64 = ms_or(b.window_ms, 120_000);
                Ok(TimelapseRun::Segment { cameras, skipped, window_ms })
            },
            Err(why) => Err(why),
        },
        Mode::Plain => match plain_captures(&ids, internal, externals) {
            Ok(cameras) => {
                let interval_ms: u64 = ms_or(b.interval_ms, 3000);
                Ok(TimelapseRun::Plain { cameras, interval_ms })
            },
            Err(why) => Err(why),
        },
        Mode::Smooth => match smooth_captures(&ids, internal, externals) {
            Ok(cameras) => Ok(
                TimelapseRun::Smooth { cameras, every: b.every, burst_offsets_ms: bursts },
            ),
            Err(why) => Err(why),
        },
    }
}

fn copy_all(v: &Vec<u64>) -> (r: Vec<u64>)
    ensures
        r@ == v@,
{
    let mut out: Vec<u64> = Vec::new();
    let mut i: usize = 0;
    while i < v.len()
        invariant
            i <= v@.len(),
            out@ == v@.take(i as int),
        decreases v@.len() - i,
    {
        out.push(v[i]);
        proof {
            assert(out@ =~= v@.take(i + 1));
        }
        i += 1;
    }
    proof {
        assert(out@ =~= v@);
    }
    out
}

/// The refusal of a run that the slot for its kind did not take.
pub fn run_refusal(res: Result<(), String>) -> (r: Option<Reply>)
    ensures
        opt_reply(r) == (match res {
            Ok(_) => None,
            Err(e) => Some(conflict(e@)),
        }),
{
    match res {
        Ok(_) => None,
        Err(e) => Some(reply(409, e)),
    }
}

// ── Stopping and telling ────────────────────────────────────────────────────

/// The runs that a request to stop names. A name that is none is refused, and
/// does not stop everything: a slip must not end a run that was to go on.
pub open spec fn stops(mode: Option<Seq<char>>) -> Result<Seq<Mode>, Refusal> {
    let name = match mode {
        Some(m) => m,
        None => "all"@,
    };
    match mode_named(name) {
        Some(m) => Ok(seq![m]),
        None => if name == "all"@ {
            Ok(seq![Mode::Smooth, Mode::Plain, Mode::Park, Mode::Segment])
        } else {
            Err(
                bad(
                    "unknown mode "@ + debug_text(name)
                        + " (use smooth, plain, park, segment, or all)"@,
                ),
            )
        },
    }
}

/// Which runs to stop.
pub fn timelapse_stop(mode: &Option<String>) -> (r: Result<Vec<Mode>, Reply>)
    ensures
        match r {
            Ok(v) => stops(opt_text(*mode)) == Ok::<Seq<Mode>, Refusal>(v@),
            Err(why) => stops(opt_text(*mode)) == Err::<Seq<Mode>, Refusal>(why@),
        },
{
    proof {
        reveal_strlit("all");
        reveal_strlit("smooth");
        reveal_strlit("plain");
        reveal_strlit("park");
        reveal_strlit("segment");
    }
    let name = match mode {
        Some(m) => m.clone(),
        None => "all".to_owned(),
    };
    if let Some(m) = parse_mode(name.as_str()) {
        let one: Vec<Mode> = vec![m];
        proof {
            assert(one@ =~= seq![m]);
        }
        return Ok(one);
    }
    if same_text(name.as_str(), "all") {
        let all: Vec<Mode> = vec![Mode::Smooth, Mode::Plain, Mode::Park, Mode::Segment];
        proof {
            assert(all@ =~= seq![Mode::Smooth, Mode::Plain, Mode::Park, Mode::Segment]);
        }
        return Ok(all);
    }
    let q = quoted(name.as_str());
    Err(
        bad_request(
            join3("unknown mode ", q.as_str(), " (use smooth, plain, park, segment, or all)"),
        ),
    )
}

/// One run as far as it is told.
#[derive(Debug)]
pub struct RunStatus {
    pub running: bool,
    pub out_dir: Option<String>,
    pub cameras: Vec<String>,
}

/// Any of the four runs is active.
pub fn any_running(smooth: &RunStatus, plain: &RunStatus, park: &RunStatus, segment: &RunStatus) -> (r:
    bool)
    ensures
        r == (smooth.running || plain.running || park.running || segment.running),
{
    smooth.running || plain.running || park.running || segment.running
}

/// `i` is the first run that is active and has a directory.
pub open spec fn first_active(runs: Seq<RunStatus>, i: int) -> bool {
    &&& 0 <= i < runs.len()
    &&& runs[i].running && runs[i].out_dir is Some
    &&& forall|j: int|
        0 <= j < i ==> !((#[trigger] runs[j]).running && runs[j].out_dir is Some)
}

/// How recent a run is.
pub open spec fn recency(run: RunStatus) -> u64 {
    match run.out_dir {
        Some(d) => epoch_of(d@),
        None => 0,
    }
}

/// `i` is the most recent run that has a directory; of several that are, the
/// first.
pub open spec fn most_recent(runs: Seq<RunStatus>, i: int) -> bool {
    &&& 0 <= i < runs.len()
    &&& runs[i].out_dir is Some
    &&& forall|j: int|
        0 <= j < runs.len() && (#[trigger] runs[j]).out_dir is Some ==> recency(runs[j])
            <= recency(runs[i]) && (j < i ==> recency(runs[j]) < recency(runs[i]))
}

/// The run that a preview of parked frames follows: an active one, else the most
/// recent one. The runs are given in the order in which they are preferred.
pub fn live_park_source(runs: &Vec<RunStatus>) -> (r: Option<usize>)
    ensures
        match r {
            Some(i) => {
                ||| first_active(runs@, i as int)
                ||| (forall|j: int| !first_active(runs@, j)) && most_recent(runs@, i as int)
            },
            None => forall|j: int|
                0 <= j < runs@.len() ==> (#[trigger] runs@[j]).out_dir is None,
        },
{
    let mut i: usize = 0;
    while i < runs.len()
        invariant
            i <= runs@.len(),
            forall|j: int|
                0 <= j < i ==> !((#[trigger] runs@[j]).running && runs@[j].out_dir is Some),
        decreases runs@.len() - i,
    {
        if runs[i].running && runs[i].out_dir.is_some() {
            return Some(i);
        }
        i += 1;
    }
    let mut best: Option<usize> = None;
    let mut k: usize = 0;
    while k < runs.len()
        invariant
            k <= runs@.len(),
            match best {
                Some(b) => {
                    &&& b < k
                    &&& runs@[b as int].out_dir is Some
                    &&& forall|j: int|
                        0 <= j < k && (#[trigger] runs@[j]).out_dir is Some ==> recency(runs@[j])
                            <= recency(runs@[b as int]) && (j < b ==> recency(runs@[j])
                            < recency(runs@[b as int]))
                },
                None => forall|j: int| 0 <= j < k ==> (#[trigger] runs@[j]).out_dir is None,
            },
        decreases runs@.len() - k,
    {
        if let Some(d) = &runs[k].out_dir {
            let e: u64 = run_dir_epoch(d.as_str());
            match best {
                Some(b) => {
                    let held: u64 = match &runs[b].out_dir {
                        Some(bd) => run_dir_epoch(bd.as_str()),
                        None => 0,
                    };
                    if e > held {
                        best = Some(k);
                    }
                },
                None => {
                    best = Some(k);
                },
            }
        }
        k += 1;
    }
    best
}

// ── Laws ────────────────────────────────────────────────────────────────────

/// Every camera that was asked for is captured from or told to be skipped, and
/// none is both.
pub proof fn no_camera_is_lost<P, S>(
    ids: Seq<Seq<char>>,
    externals: Seq<ExternalCamera<P, S>>,
    segment: bool,
    id: Seq<char>,
)
    ensures
        sorted_out(ids, externals, segment, true).len() + sorted_out(
            ids,
            externals,
            segment,
            false,
        ).len() == ids.len(),
        ids.contains(id) ==> sorted_out(ids, externals, segment, true).contains(id) != sorted_out(
            ids,
            externals,
            segment,
            false,
        ).contains(id),
        sorted_out(ids, externals, segment, true).contains(id) ==> ids.contains(id) && capable(
            id,
            externals,
            segment,
        ),
        sorted_out(ids, externals, segment, false).contains(id) ==> ids.contains(id) && !capable(
            id,
            externals,
            segment,
        ),
    decreases ids.len(),
{
    if ids.len() > 0 {
        no_camera_is_lost(ids.drop_last(), externals, segment, id);
        let less = ids.drop_last();
        let last = ids.last();
        let keep = capable(last, externals, segment);
        let a = sorted_out(less, externals, segment, true);
        let b = sorted_out(less, externals, segment, false);
        assert(ids =~= less.push(last));
        lemma_pushed(less, last, id);
        lemma_pushed(a, last, id);
        lemma_pushed(b, last, id);
    }
}

/// Each camera that was asked for is captured from once, however often it was named.
pub proof fn a_camera_is_captured_once(b: TimelapseStartBody, i: int, j: int, id: Seq<char>)
    ensures
        0 <= i < j < run_cameras(b).len() ==> run_cameras(b)[i] != run_cameras(b)[j],
        run_cameras(b).contains(id) == asked_cameras(b).contains(id),
{
    lemma_deduped(asked_cameras(b), i, j, id);
}

proof fn lemma_deduped(s: Seq<Seq<char>>, i: int, j: int, id: Seq<char>)
    ensures
        0 <= i < j < deduped(s).len() ==> deduped(s)[i] != deduped(s)[j],
        deduped(s).contains(id) == s.contains(id),
    decreases s.len(),
{
    if s.len() > 0 {
        let less = s.drop_last();
        let last = s.last();
        let d = deduped(less);
        lemma_deduped(less, i, j, id);
        lemma_deduped(less, i, j, last);
        assert(s =~= less.push(last));
        lemma_pushed(less, last, id);
        lemma_pushed(d, last, id);
        if 0 <= i < d.len() && !d.contains(last) {
            assert(d[i] != last);
        }
    }
}

proof fn lemma_pushed(s: Seq<Seq<char>>, x: Seq<char>, id: Seq<char>)
    ensures
        s.push(x).contains(id) == (s.contains(id) || x == id),
{
    let t = s.push(x);
    if s.contains(id) {
        let i = choose|i: int| 0 <= i < s.len() && s[i] == id;
        assert(t[i] == id);
    }
    if x == id {
        assert(t[s.len() as int] == id);
    }
    if t.contains(id) {
        let i = choose|i: int| 0 <= i < t.len() && t[i] == id;
        if i < s.len() {
            assert(s[i] == id);
        }
    }
}

/// A run captures as often as it was asked to: what the request gives is what the
/// run has, and only what it leaves open is chosen here.
pub proof fn a_run_keeps_the_cadence_it_was_asked_for<P, S>(
    run: TimelapseRun,
    b: TimelapseStartBody,
    externals: Seq<ExternalCamera<P, S>>,
    default_burst: Seq<u64>,
)
    requires
        run_of(run, b, externals, default_burst),
    ensures
        run matches TimelapseRun::Plain { cameras, interval_ms } ==> interval_ms
            == match b.interval_ms {
            Some(ms) => ms,
            None => 3000,
        },
        run matches TimelapseRun::Smooth { cameras, every, burst_offsets_ms } ==> every == b.every
            && burst_offsets_ms@ == match b.burst_offsets_ms {
            Some(v) => v@,
            None => default_burst,
        },
        run matches TimelapseRun::Segment { cameras, skipped, window_ms } ==> window_ms
            == match b.window_ms {
            Some(ms) => ms,
            None => 120_000,
        },
{
}

/// The names of the kinds of runs are told apart, and each is read back as the kind
/// it names.
pub proof fn a_kind_of_run_is_known_by_its_name(m: Mode, s: Seq<char>)
    ensures
        mode_named(m.name()) == Some(m),
        mode_named(s) == Some(m) ==> s == m.name(),
        m is Smooth <==> m.name() == "smooth"@,
        m is Plain <==> m.name() == "plain"@,
        m is Park <==> m.name() == "park"@,
        m is Segment <==> m.name() == "segment"@,
{
    reveal_strlit("smooth");
    reveal_strlit("plain");
    reveal_strlit("park");
    reveal_strlit("segment");
    assert("smooth"@[0] == 's' && "smooth"@[1] == 'm');
    assert("segment"@[0] == 's' && "segment"@[1] == 'e');
    assert("plain"@[0] == 'p' && "plain"@[1] == 'l');
    assert("park"@[0] == 'p' && "park"@[1] == 'a');
}

/// A run is of the kind that was asked for; where none was named, it is smooth.
pub proof fn a_run_is_of_the_kind_it_was_asked_for(run: TimelapseRun, b: TimelapseStartBody)
    requires
        mode_named(mode_name(opt_text(b.mode))) == Some(run_mode(run)),
    ensures
        run is Smooth <==> b.mode is None || b.mode->0@ == "smooth"@,
        run is Plain <==> b.mode is Some && b.mode->0@ == "plain"@,
        run is Park <==> b.mode is Some && b.mode->0@ == "park"@,
        run is Segment <==> b.mode is Some && b.mode->0@ == "segment"@,
{
    let name = mode_name(opt_text(b.mode));
    a_kind_of_run_is_known_by_its_name(run_mode(run), name);
    a_kind_of_run_is_known_by_its_name(Mode::Smooth, name);
    a_kind_of_run_is_known_by_its_name(Mode::Plain, name);
    a_kind_of_run_is_known_by_its_name(Mode::Park, name);
    a_kind_of_run_is_known_by_its_name(Mode::Segment, name);
}

proof fn lemma_no_late_offset(v: Seq<u64>)
    ensures
        late_offset(v) is None <==> forall|i: int| 0 <= i < v.len() ==> (#[trigger] v[i]) <= 10_000,
        late_offset(v) matches Some(o) ==> o > 10_000 && v.contains(o),
    decreases v.len(),
{
    if v.len() > 0 {
        let less = v.drop_first();
        lemma_no_late_offset(less);
        if v[0] <= 10_000 {
            if forall|i: int| 0 <= i < less.len() ==> (#[trigger] less[i]) <= 10_000 {
                assert forall|i: int| 0 <= i < v.len() implies (#[trigger] v[i]) <= 10_000 by {
                    if i > 0 {
                        assert(less[i - 1] == v[i]);
                    }
                }
            } else {
                let k = choose|k: int| 0 <= k < less.len() && (#[trigger] less[k]) > 10_000;
                assert(v[k + 1] == less[k]);
            }
            if let Some(o) = late_offset(less) {
                let k = choose|k: int| 0 <= k < less.len() && less[k] == o;
                assert(v[k + 1] == o);
            }
        } else {
            assert(v.contains(v[0]));
        }
    }
}

/// A run is started exactly where its cadence is within bounds and its cameras can
/// be captured from.
pub proof fn a_run_is_started_within_its_bounds<P, S>(
    b: TimelapseStartBody,
    internal: bool,
    externals: Seq<ExternalCamera<P, S>>,
    default_burst: Seq<u64>,
    bursts: Seq<u64>,
)
    requires
        b.burst_offsets_ms matches Some(v) ==> bursts == v@,
        b.burst_offsets_ms is None ==> bursts == default_burst,
    ensures
        cadence_invalid(b, default_burst) is None <==> {
            ||| {
                &&& b.mode is None || b.mode->0@ == "smooth"@
                &&& b.every >= 1
                &&& 1 <= bursts.len() <= 16
                &&& forall|i: int| 0 <= i < bursts.len() ==> (#[trigger] bursts[i]) <= 10_000
            }
            ||| {
                &&& b.mode is Some && b.mode->0@ == "plain"@
                &&& b.interval_ms matches Some(ms) ==> ms >= 100
            }
            ||| b.mode is Some && b.mode->0@ == "park"@
            ||| {
                &&& b.mode is Some && b.mode->0@ == "segment"@
                &&& b.window_ms matches Some(ms) ==> 5_000 <= ms <= 600_000
            }
        },
        timelapse_refusal(b, internal, externals, default_burst) is None ==> cadence_invalid(
            b,
            default_burst,
        ) is None && (b.cameras@.len() > 0 || b.camera is Some),
{
    let name = mode_name(opt_text(b.mode));
    lemma_no_late_offset(bursts);
    assert(bursts == bursts_of(b.burst_offsets_ms, default_burst));
    a_kind_of_run_is_known_by_its_name(Mode::Smooth, name);
    a_kind_of_run_is_known_by_its_name(Mode::Plain, name);
    a_kind_of_run_is_known_by_its_name(Mode::Park, name);
    a_kind_of_run_is_known_by_its_name(Mode::Segment, name);
    match mode_named(name) {
        Some(Mode::Smooth) => {
            assert(b.mode is None || b.mode->0@ == "smooth"@);
            assert(cadence_invalid(b, default_burst) is None <==> b.every >= 1 && 1 <= bursts.len()
                <= 16 && late_offset(bursts) is None);
        },
        Some(Mode::Plain) => {
            assert(b.mode is Some && b.mode->0@ == "plain"@);
        },
        Some(Mode::Park) => {
            assert(b.mode is Some && b.mode->0@ == "park"@);
        },
        Some(Mode::Segment) => {
            assert(b.mode is Some && b.mode->0@ == "segment"@);
        },
        None => {},
    }
}

/// Exactly the cameras that were asked for are captured from: the several that the
/// request names, or else its single one, in the order in which they were named.
pub proof fn the_cameras_asked_for_are_captured(b: TimelapseStartBody, id: Seq<char>)
    ensures
        b.cameras@.len() > 0 ==> run_cameras(b).contains(id) == texts(b.cameras@).contains(id),
        b.cameras@.len() == 0 && b.camera is Some ==> run_cameras(b) == seq![b.camera->0@],
        b.cameras@.len() == 0 && b.camera is None ==> run_cameras(b).len() == 0,
        texts(b.cameras@).no_duplicates() && b.cameras@.len() > 0 ==> run_cameras(b) == texts(
            b.cameras@,
        ),
{
    lemma_deduped(asked_cameras(b), 0, 0, id);
    if b.cameras@.len() > 0 {
        if texts(b.cameras@).no_duplicates() {
            lemma_nothing_to_dedup(texts(b.cameras@));
        }
    } else if b.camera is Some {
        lemma_nothing_to_dedup(seq![b.camera->0@]);
    }
}

proof fn lemma_nothing_to_dedup(s: Seq<Seq<char>>)
    requires
        s.no_duplicates(),
    ensures
        deduped(s) == s,
    decreases s.len(),
{
    if s.len() > 0 {
        let less = s.drop_last();
        assert forall|i: int, j: int| 0 <= i < less.len() && 0 <= j < less.len() && i
            != j implies less[i] != less[j] by {
            assert(s[i] != s[j]);
        }
        lemma_nothing_to_dedup(less);
        if less.contains(s.last()) {
            let k = choose|k: int| 0 <= k < less.len() && less[k] == s.last();
            assert(s[k] == s[s.len() - 1]);
        }
        assert(less.push(s.last()) =~= s);
    } else {
        assert(deduped(s) =~= s);
    }
}

/// A plain run records the stream of each camera that has one, and takes pictures of
/// the others; a smooth run takes pictures. Either way of the very camera that was
/// named.
pub proof fn a_camera_is_captured_as_itself<P, S>(
    run: TimelapseRun,
    b: TimelapseStartBody,
    externals: Seq<ExternalCamera<P, S>>,
    default_burst: Seq<u64>,
    i: int,
    k: nat,
)
    requires
        run_of(run, b, externals, default_burst),
        0 <= i < run_cameras(b).len(),
        k < externals.len() <= usize::MAX,
        run_cameras(b)[i] == crate::camera::ext_id(k),
    ensures
        run matches TimelapseRun::Plain { cameras, interval_ms } ==> cameras@.len() > i
            && match cameras@[i] {
            PlainCapture::Stream { id, url } => id@ == run_cameras(b)[i]
                && externals[k as int].stream_url is Some && url@
                == externals[k as int].stream_url->0@,
            PlainCapture::Sample { id, grab } => id@ == run_cameras(b)[i]
                && externals[k as int].stream_url is None && (grab matches Grab::Url(u) && u@
                == externals[k as int].url@),
        },
        run matches TimelapseRun::Smooth { cameras, every, burst_offsets_ms } ==> cameras@.len() > i
            && cameras@[i].id@ == run_cameras(b)[i] && (cameras@[i].grab matches Grab::Url(u) && u@
            == externals[k as int].url@) && (cameras@[i].select is Some
            <==> externals[k as int].select_tuning is Some) && (cameras@[i].select matches Some(s)
            ==> s == k),
{
    crate::camera::a_listed_id_finds_its_camera(externals, k);
    crate::camera::an_external_camera_is_not_the_built_in_one(k);
    crate::camera::an_identifier_tells_its_place(k);
}

/// A stream is captured from a camera exactly where it has the stream and the
/// tunings that the run needs.
pub proof fn a_stream_run_takes_what_it_can_use<P, S>(
    externals: Seq<ExternalCamera<P, S>>,
    segment: bool,
    k: nat,
)
    requires
        k < externals.len() <= usize::MAX,
    ensures
        capable(crate::camera::ext_id(k), externals, segment) <==> {
            &&& externals[k as int].stream_url is Some
            &&& externals[k as int].park_tuning is Some
            &&& segment ==> externals[k as int].select_tuning is Some
        },
{
    crate::camera::a_listed_id_finds_its_camera(externals, k);
}

/// What a run of streams captures and skips is all that was asked for, each camera
/// by its own stream.
pub proof fn a_stream_run_accounts_for_every_camera<P, S>(
    run: TimelapseRun,
    b: TimelapseStartBody,
    externals: Seq<ExternalCamera<P, S>>,
    default_burst: Seq<u64>,
    i: int,
)
    requires
        run_of(run, b, externals, default_burst),
    ensures
        run matches TimelapseRun::Park { cameras, skipped } ==> {
            &&& cameras@.len() + skipped@.len() == run_cameras(b).len()
            &&& cameras@.len() > 0
            &&& 0 <= i < cameras@.len() ==> run_cameras(b).contains(cameras@[i].id@) && (
            cameras@[i].camera as int) < externals.len() && opt_text(
                externals[cameras@[i].camera as int].stream_url,
            ) == Some(cameras@[i].stream_url@)
        },
        run matches TimelapseRun::Segment { cameras, skipped, window_ms } ==> {
            &&& cameras@.len() + skipped@.len() == run_cameras(b).len()
            &&& cameras@.len() > 0
            &&& 0 <= i < cameras@.len() ==> run_cameras(b).contains(cameras@[i].id@) && (
            cameras@[i].camera as int) < externals.len() && opt_text(
                externals[cameras@[i].camera as int].stream_url,
            ) == Some(cameras@[i].stream_url@)
        },
{
    let ids = run_cameras(b);
    let segment = run is Segment;
    let caps = match run {
        TimelapseRun::Park { cameras, skipped } => cameras@,
        TimelapseRun::Segment { cameras, skipped, window_ms } => cameras@,
        _ => Seq::empty(),
    };
    no_camera_is_lost(ids, externals, segment, if 0 <= i < caps.len() { caps[i].id@ } else { ids[0] });
    if 0 <= i < caps.len() && (run is Park || run is Segment) {
        assert(capture_ids(caps)[i] == caps[i].id@);
        assert(capture_ids(caps).contains(caps[i].id@));
    }
    assert(capture_ids(caps).len() == caps.len());
}

/// Stopping by a name stops that kind of run alone; without a name, or by `all`, it
/// stops all four; and a name that is none stops nothing.
pub proof fn stopping_stops_what_was_named(mode: Option<Seq<char>>, m: Mode)
    ensures
        mode == Some(m.name()) ==> stops(mode) == Ok::<Seq<Mode>, Refusal>(seq![m]),
        mode is None || mode == Some("all"@) ==> (stops(mode) matches Ok(all) && all.contains(m)
            && all.len() == 4),
        stops(mode) matches Ok(v) && v.contains(m) ==> mode is None || mode == Some("all"@) || mode
            == Some(m.name()),
{
    reveal_strlit("all");
    reveal_strlit("smooth");
    reveal_strlit("plain");
    reveal_strlit("park");
    reveal_strlit("segment");
    a_kind_of_run_is_known_by_its_name(m, m.name());
    if mode is Some {
        a_kind_of_run_is_known_by_its_name(Mode::Smooth, mode->0);
        a_kind_of_run_is_known_by_its_name(Mode::Plain, mode->0);
        a_kind_of_run_is_known_by_its_name(Mode::Park, mode->0);
        a_kind_of_run_is_known_by_its_name(Mode::Segment, mode->0);
    }
    assert("all"@.len() == 3 && "smooth"@.len() == 6 && "plain"@.len() == 5 && "park"@.len() == 4
        && "segment"@.len() == 7);
    let all = seq![Mode::Smooth, Mode::Plain, Mode::Park, Mode::Segment];
    assert(all[0] == Mode::Smooth && all[1] == Mode::Plain && all[2] == Mode::Park && all[3]
        == Mode::Segment);
    assert(all.contains(m));
    if let Ok(v) = stops(mode) {
        if v.len() == 1 && v.contains(m) {
            assert(v[0] == m);
        }
    }
}

/// The preview follows a run that is active wherever there is one, and no run that
/// is older than another.
pub proof fn the_preview_follows_the_latest_run(runs: Seq<RunStatus>, i: int, j: int)
    requires
        0 <= j < runs.len(),
        runs[j].out_dir is Some,
    ensures
        first_active(runs, i) ==> runs[i].running && runs[i].out_dir is Some && (runs[j].running
            ==> i <= j),
        most_recent(runs, i) ==> runs[i].out_dir is Some && epoch_of(runs[j].out_dir->0@)
            <= epoch_of(runs[i].out_dir->0@) && (epoch_of(runs[j].out_dir->0@) == epoch_of(
            runs[i].out_dir->0@,
        ) ==> i <= j),
{
}

/// A run is refused as not found where a camera that it names is not there, and as a bad
/// request for anything else; and one whose cameras are there is not refused for them.
pub proof fn a_camera_that_is_not_there_is_not_found<P, S>(
    b: TimelapseStartBody,
    internal: bool,
    externals: Seq<ExternalCamera<P, S>>,
    default_burst: Seq<u64>,
)
    ensures
        timelapse_refusal(b, internal, externals, default_burst) matches Some(why) ==> why.0 == 400
            || why.0 == 404,
        timelapse_refusal(b, internal, externals, default_burst) matches Some(why) ==> (why.0 == 404
            <==> cadence_invalid(b, default_burst) is None && run_cameras(b).len() > 0
            && mode_named(mode_name(opt_text(b.mode))) != Some(Mode::Park) && mode_named(
            mode_name(opt_text(b.mode)),
        ) != Some(Mode::Segment)),
        cadence_invalid(b, default_burst) matches Some(why) ==> why.0 == 400,
        run_cameras(b).len() == 0 ==> timelapse_refusal(b, internal, externals, default_burst) is Some,
{
}

} // verus!
