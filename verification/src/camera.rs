//! Cameras: the printer's own, and external ones addressed as `ext-0`, `ext-1`
//! and so on.
use vstd::prelude::*;

use crate::auth::{split_at_first, split_once};
use crate::number::{decimal, digits, parse_up_to, parsed};
use crate::reply::{bad, bad_request, Refusal, Reply};
use crate::text::{chars_of, copied, join2, opt_text, same_text, starts_with, trim, trimmed, Strip};

verus! {

/// Source of the built-in camera's frames.
pub trait CameraSource {
    /// Whether a built-in camera could be reached at all.
    fn configured(&self) -> bool;

    /// Grab a single JPEG frame, or an error message.
    fn snapshot(&self) -> Result<Vec<u8>, String>;
}

/// No built-in camera.
pub struct NoCamera;

impl CameraSource for NoCamera {
    fn configured(&self) -> (r: bool)
        ensures
            !r,
    {
        false
    }

    fn snapshot(&self) -> (r: Result<Vec<u8>, String>)
        ensures
            r matches Err(e) && e@ == "no built-in camera"@,
    {
        Err("no built-in camera".to_owned())
    }
}

/// One external camera: a label and the URLs that are proxied, which stay on
/// this side. `P` and `S` are the tunings of its detection and its selection;
/// only whether they are there is looked at.
#[derive(Debug)]
pub struct ExternalCamera<P, S> {
    pub label: String,
    /// A single JPEG per request.
    pub url: String,
    /// A live MJPEG stream.
    pub stream_url: Option<String>,
    pub park_tuning: Option<P>,
    pub select_tuning: Option<S>,
}

/// `s` trimmed of space; none where that leaves nothing.
pub open spec fn nonblank(s: Option<Seq<char>>) -> Option<Seq<char>> {
    match s {
        Some(t) => if trimmed(t, Strip::Space).len() > 0 {
            Some(trimmed(t, Strip::Space))
        } else {
            None
        },
        None => None,
    }
}

/// `s` trimmed of space; none where that leaves nothing.
pub fn non_blank(s: &Option<String>) -> (r: Option<String>)
    ensures
        opt_text(r) == nonblank(opt_text(*s)),
{
    match s {
        Some(t) => {
            let t = trim(t.as_str(), Strip::Space);
            if t.as_str().is_empty() {
                None
            } else {
                Some(t)
            }
        },
        None => None,
    }
}

/// The label of a camera: its own, or its number counted from one.
pub open spec fn label_of(label: Option<Seq<char>>, index: nat) -> Seq<char> {
    match nonblank(label) {
        Some(l) => l,
        None => "external "@ + digits(index + 1),
    }
}

/// A camera with this label, these URLs and no tuning.
pub open spec fn is_untuned<P, S>(
    c: ExternalCamera<P, S>,
    label: Option<Seq<char>>,
    url: Seq<char>,
    stream_url: Option<Seq<char>>,
    index: nat,
) -> bool {
    &&& c.label@ == label_of(label, index)
    &&& c.url@ == trimmed(url, Strip::Space)
    &&& opt_text(c.stream_url) == nonblank(stream_url)
    &&& c.park_tuning is None
    &&& c.select_tuning is None
}

/// The label and the URL of a command-line entry: `label=url`, or a bare URL. An
/// `=` inside a URL is no separator.
pub open spec fn entry_parts(entry: Seq<char>) -> (Option<Seq<char>>, Seq<char>) {
    let e = trimmed(entry, Strip::Space);
    if "http://"@.is_prefix_of(e) || "https://"@.is_prefix_of(e) {
        (None, e)
    } else {
        match split_at_first(e, '=') {
            Some((l, u)) => (Some(l), u),
            None => (None, e),
        }
    }
}

impl<P, S> ExternalCamera<P, S> {
    /// A camera from an optional label, a URL and an optional stream URL. A blank
    /// label becomes a number, a blank stream URL becomes none.
    pub fn new(
        label: Option<String>,
        url: String,
        stream_url: Option<String>,
        index: usize,
    ) -> (r: ExternalCamera<P, S>)
        requires
            index < usize::MAX,
        ensures
            is_untuned(r, opt_text(label), url@, opt_text(stream_url), index as nat),
    {
        let label: String = match non_blank(&label) {
            Some(l) => l,
            None => {
                let n = decimal((index + 1) as u64);
                join2("external ", n.as_str())
            },
        };
        ExternalCamera {
            label,
            url: trim(url.as_str(), Strip::Space),
            stream_url: non_blank(&stream_url),
            park_tuning: None,
            select_tuning: None,
        }
    }

    /// Attach or clear the detection tuning.
    pub fn with_park_tuning(self, tuning: Option<P>) -> (r: ExternalCamera<P, S>)
        ensures
            r == (ExternalCamera { park_tuning: tuning, ..self }),
    {
        ExternalCamera {
            label: self.label,
            url: self.url,
            stream_url: self.stream_url,
            park_tuning: tuning,
            select_tuning: self.select_tuning,
        }
    }

    /// Attach or clear the selection tuning.
    pub fn with_select_tuning(self, tuning: Option<S>) -> (r: ExternalCamera<P, S>)
        ensures
            r == (ExternalCamera { select_tuning: tuning, ..self }),
    {
        ExternalCamera {
            label: self.label,
            url: self.url,
            stream_url: self.stream_url,
            park_tuning: self.park_tuning,
            select_tuning: tuning,
        }
    }

    /// Parse a command-line entry. An empty one is no camera.
    pub fn parse(entry: &str, index: usize) -> (r: Option<ExternalCamera<P, S>>)
        requires
            index < usize::MAX,
        ensures
            match r {
                None => trimmed(entry@, Strip::Space).len() == 0,
                Some(c) => trimmed(entry@, Strip::Space).len() > 0 && is_untuned(
                    c,
                    entry_parts(entry@).0,
                    entry_parts(entry@).1,
                    None,
                    index as nat,
                ),
            },
    {
        let e = trim(entry, Strip::Space);
        if e.as_str().is_empty() {
            return None;
        }
        if starts_with(e.as_str(), "http://") || starts_with(e.as_str(), "https://") {
            return Some(ExternalCamera::new(None, e, None, index));
        }
        match split_once(e.as_str(), '=') {
            Some((l, u)) => Some(ExternalCamera::new(Some(l), u, None, index)),
            None => Some(ExternalCamera::new(None, e, None, index)),
        }
    }

    /// A stream can be proxied for it.
    pub open spec fn can_stream(self) -> bool {
        self.stream_url is Some
    }

    /// It can run the live park preview.
    pub open spec fn can_park(self) -> bool {
        self.stream_url is Some && self.park_tuning is Some
    }

    /// It can run the segmented capture.
    pub open spec fn can_segment(self) -> bool {
        self.stream_url is Some && self.park_tuning is Some && self.select_tuning is Some
    }
}

// ── By identifier ───────────────────────────────────────────────────────────

/// The position an identifier `ext-N` stands for.
pub open spec fn ext_index(id: Seq<char>) -> Option<nat> {
    if "ext-"@.is_prefix_of(id) {
        parsed(id.skip(4), usize::MAX as nat)
    } else {
        None
    }
}

/// The identifier of the external camera at a position.
pub open spec fn ext_id(i: nat) -> Seq<char> {
    "ext-"@ + digits(i)
}

/// The external camera that an identifier stands for.
pub open spec fn external<P, S>(
    id: Seq<char>,
    externals: Seq<ExternalCamera<P, S>>,
) -> Option<ExternalCamera<P, S>> {
    match ext_index(id) {
        Some(i) => if i < externals.len() {
            Some(externals[i as int])
        } else {
            None
        },
        None => None,
    }
}

/// The position an identifier `ext-N` stands for.
pub fn external_index(id: &str) -> (r: Option<usize>)
    ensures
        match r {
            Some(i) => ext_index(id@) == Some(i as nat),
            None => ext_index(id@) is None,
        },
{
    if !starts_with(id, "ext-") {
        return None;
    }
    proof {
        reveal_strlit("ext-");
    }
    let n: usize = chars_of(id).len();
    let tail = id.substring_char(4, n);
    proof {
        assert(tail@ =~= id@.skip(4));
    }
    match parse_up_to(tail, usize::MAX as u64) {
        Some(i) => Some(i as usize),
        None => None,
    }
}

/// The external camera that an identifier stands for.
pub fn find_external<'a, P, S>(id: &str, externals: &'a Vec<ExternalCamera<P, S>>) -> (r: Option<
    &'a ExternalCamera<P, S>,
>)
    ensures
        match r {
            Some(c) => external(id@, externals@) == Some(*c),
            None => external(id@, externals@) is None,
        },
{
    match external_index(id) {
        Some(i) => if i < externals.len() {
            Some(&externals[i])
        } else {
            None
        },
        None => None,
    }
}

/// The stream URL for a camera's identifier: of an external camera that has one.
pub fn resolve_stream_url<P, S>(id: &str, externals: &Vec<ExternalCamera<P, S>>) -> (r: Option<
    String,
>)
    ensures
        opt_text(r) == match external(id@, externals@) {
            Some(c) => opt_text(c.stream_url),
            None => None,
        },
{
    match find_external(id, externals) {
        Some(c) => copied(&c.stream_url),
        None => None,
    }
}

/// Where a frame is grabbed from.
#[derive(Debug)]
pub enum Grab {
    /// The built-in camera.
    Internal,
    /// This URL.
    Url(String),
}

/// Where a camera's frames are grabbed from; none for an unknown identifier, and
/// for the built-in camera where there is none.
pub fn resolve_grab<P, S>(
    id: &str,
    internal_configured: bool,
    externals: &Vec<ExternalCamera<P, S>>,
) -> (r: Option<Grab>)
    ensures
        if id@ == "internal"@ {
            r == if internal_configured {
                Some(Grab::Internal)
            } else {
                None
            }
        } else {
            match external(id@, externals@) {
                Some(c) => r matches Some(Grab::Url(u)) && u@ == c.url@,
                None => r is None,
            }
        },
{
    if same_text(id, "internal") {
        if internal_configured {
            Some(Grab::Internal)
        } else {
            None
        }
    } else {
        match find_external(id, externals) {
            Some(c) => Some(Grab::Url(c.url.clone())),
            None => None,
        }
    }
}

// ── Listing ─────────────────────────────────────────────────────────────────

/// A camera as the open listing shows it: no URL is told.
#[derive(Debug)]
pub struct CameraInfo {
    pub id: String,
    pub external: bool,
    pub label: String,
    pub stream: bool,
    pub park: bool,
    pub segment: bool,
}

/// How an external camera is listed.
pub open spec fn listed<P, S>(info: CameraInfo, c: ExternalCamera<P, S>, i: nat) -> bool {
    &&& info.id@ == ext_id(i)
    &&& info.external
    &&& info.label@ == c.label@
    &&& info.stream == c.can_stream()
    &&& info.park == c.can_park()
    &&& info.segment == c.can_segment()
}

/// How the built-in camera is listed.
pub open spec fn listed_internal(info: CameraInfo) -> bool {
    &&& info.id@ == "internal"@
    &&& !info.external
    &&& info.label@ == "built-in camera"@
    &&& !info.stream && !info.park && !info.segment
}

/// How many built-in cameras there are.
pub open spec fn built_in(configured: bool) -> int {
    if configured {
        1
    } else {
        0
    }
}

/// The cameras there are: the built-in one first, where there is one.
pub fn cameras_list<P, S>(
    internal_configured: bool,
    externals: &Vec<ExternalCamera<P, S>>,
) -> (r: Vec<CameraInfo>)
    ensures
        r@.len() == externals@.len() + built_in(internal_configured),
        internal_configured ==> listed_internal(r@[0]),
        forall|i: int|
            #![trigger externals@[i]]
            0 <= i < externals@.len() ==> listed(
                r@[i + built_in(internal_configured)],
                externals@[i],
                i as nat,
            ),
{
    let mut r: Vec<CameraInfo> = Vec::new();
    let ghost offset: int = built_in(internal_configured);
    if internal_configured {
        r.push(
            CameraInfo {
                id: "internal".to_owned(),
                external: false,
                label: "built-in camera".to_owned(),
                stream: false,
                park: false,
                segment: false,
            },
        );
    }
    let mut i: usize = 0;
    while i < externals.len()
        invariant
            i <= externals@.len(),
            offset == built_in(internal_configured),
            r@.len() == i + offset,
            internal_configured ==> listed_internal(r@[0]),
            forall|j: int|
                #![trigger externals@[j]]
                0 <= j < i ==> listed(r@[j + offset], externals@[j], j as nat),
        decreases externals@.len() - i,
    {
        let c = &externals[i];
        let n = decimal(i as u64);
        let stream: bool = c.stream_url.is_some();
        let park: bool = stream && c.park_tuning.is_some();
        let segment: bool = park && c.select_tuning.is_some();
        let ghost before = r@;
        r.push(
            CameraInfo {
                id: join2("ext-", n.as_str()),
                external: true,
                label: c.label.clone(),
                stream,
                park,
                segment,
            },
        );
        i += 1;
        proof {
            assert forall|j: int|
                #![trigger externals@[j]]
                0 <= j < i implies listed(r@[j + offset], externals@[j], j as nat) by {
                if j < i - 1 {
                    assert(r@[j + offset] == before[j + offset]);
                }
            }
        }
    }
    r
}

// ── Configuration ───────────────────────────────────────────────────────────

/// A camera as a request describes it. `tuning` is what became of reading its
/// tuning: none given, both tunings, or why it is not one.
#[derive(Debug)]
pub struct CameraInput<P, S> {
    pub label: Option<String>,
    pub url: String,
    pub stream_url: Option<String>,
    pub tuning: Tuning<P, S>,
}

/// What became of reading a camera's tuning.
#[derive(Debug)]
pub enum Tuning<P, S> {
    Absent,
    /// The detection's knobs, all of them; the selection's, where they are there.
    Read { park: P, select: Option<S> },
    Invalid(String),
}

/// A URL the proxy can fetch: it speaks plain HTTP and nothing else.
pub open spec fn http_url(u: Seq<char>) -> bool {
    "http://"@.is_prefix_of(u)
}

/// A URL the proxy can fetch.
pub fn is_http_url(u: &str) -> (r: bool)
    ensures
        r == http_url(u@),
{
    starts_with(u, "http://")
}

/// What is wrong with one described camera.
pub open spec fn camera_invalid<P, S>(c: CameraInput<P, S>) -> Option<Refusal> {
    let stream = nonblank(opt_text(c.stream_url));
    if !http_url(trimmed(c.url@, Strip::Space)) {
        Some(bad("camera URL must start with http:// (the proxy is plain-HTTP; no TLS)"@))
    } else if stream is Some && !http_url(stream->0) {
        Some(bad("camera stream URL must start with http:// (the proxy is plain-HTTP; no TLS)"@))
    } else if let Tuning::Invalid(why) = c.tuning {
        Some(bad("invalid park_tuning: "@ + why@))
    } else {
        None
    }
}

/// The camera that a description becomes.
pub open spec fn configured_as<P, S>(
    r: ExternalCamera<P, S>,
    c: CameraInput<P, S>,
    index: nat,
) -> bool {
    &&& r.label@ == label_of(opt_text(c.label), index)
    &&& r.url@ == trimmed(c.url@, Strip::Space)
    &&& opt_text(r.stream_url) == nonblank(opt_text(c.stream_url))
    &&& match c.tuning {
        Tuning::Read { park, select } => r.park_tuning == Some(park) && r.select_tuning == select,
        _ => r.park_tuning is None && r.select_tuning is None,
    }
}

/// The first of some described cameras that is wrong.
pub open spec fn first_invalid<P, S>(cs: Seq<CameraInput<P, S>>) -> Option<Refusal>
    decreases cs.len(),
{
    if cs.len() == 0 {
        None
    } else {
        crate::reply::or_refuse(first_invalid(cs.drop_last()), camera_invalid(cs.last()))
    }
}

proof fn lemma_trim_twice(s: Seq<char>)
    ensures
        trimmed(trimmed(s, Strip::Space), Strip::Space) == trimmed(s, Strip::Space),
{
    crate::text::lemma_trimmed_ends(s, Strip::Space);
    crate::text::lemma_trimmed_fixed(trimmed(s, Strip::Space), Strip::Space);
}

proof fn lemma_first_invalid_stays<P, S>(cs: Seq<CameraInput<P, S>>, i: int)
    requires
        0 <= i <= cs.len(),
        first_invalid(cs.take(i)) is Some,
    ensures
        first_invalid(cs) == first_invalid(cs.take(i)),
    decreases cs.len(),
{
    if i == cs.len() {
        assert(cs.take(i) =~= cs);
    } else {
        assert(cs.drop_last().take(i) =~= cs.take(i));
        lemma_first_invalid_stays(cs.drop_last(), i);
    }
}

/// One described camera, checked and made.
fn configure_one<P, S>(c: CameraInput<P, S>, index: usize) -> (r: Result<
    ExternalCamera<P, S>,
    Reply,
>)
    requires
        index < usize::MAX,
    ensures
        match r {
            Ok(cam) => camera_invalid(c) is None && configured_as(cam, c, index as nat),
            Err(reply) => camera_invalid(c) == Some(reply@),
        },
{
    let url = trim(c.url.as_str(), Strip::Space);
    if !is_http_url(url.as_str()) {
        return Err(
            bad_request(
                "camera URL must start with http:// (the proxy is plain-HTTP; no TLS)".to_owned(),
            ),
        );
    }
    let stream_url = non_blank(&c.stream_url);
    if let Some(s) = &stream_url {
        if !is_http_url(s.as_str()) {
            return Err(
                bad_request(
                    "camera stream URL must start with http:// (the proxy is plain-HTTP; no TLS)".to_owned(),
                ),
            );
        }
    }
    proof {
        lemma_trim_twice(c.url@);
        if let Some(s) = c.stream_url {
            lemma_trim_twice(s@);
        }
    }
    match c.tuning {
        Tuning::Invalid(why) => Err(bad_request(join2("invalid park_tuning: ", why.as_str()))),
        Tuning::Read { park, select } => Ok(
            ExternalCamera::new(c.label, url, stream_url, index).with_park_tuning(
                Some(park),
            ).with_select_tuning(select),
        ),
        Tuning::Absent => Ok(ExternalCamera::new(c.label, url, stream_url, index)),
    }
}

/// The external cameras that replace the ones there are: all that a request
/// describes, or the first refusal and none of them.
pub fn cameras_config_set<P, S>(inputs: Vec<CameraInput<P, S>>) -> (r: Result<
    Vec<ExternalCamera<P, S>>,
    Reply,
>)
    ensures
        match r {
            Ok(cams) => {
                &&& first_invalid(inputs@) is None
                &&& cams@.len() == inputs@.len()
                &&& forall|i: int|
                    0 <= i < inputs@.len() ==> configured_as(
                        #[trigger] cams@[i],
                        inputs@[i],
                        i as nat,
                    )
            },
            Err(reply) => first_invalid(inputs@) == Some(reply@),
        },
{
    let total: usize = inputs.len();
    let ghost all = inputs@;
    let mut rest = inputs;
    let mut next: Vec<ExternalCamera<P, S>> = Vec::new();
    let mut i: usize = 0;
    proof {
        assert(all.skip(0) =~= all);
    }
    while i < total
        invariant
            i <= total,
            total == all.len(),
            all == inputs@,
            rest@ == all.skip(i as int),
            next@.len() == i,
            first_invalid(all.take(i as int)) is None,
            forall|j: int| 0 <= j < i ==> configured_as(#[trigger] next@[j], all[j], j as nat),
        decreases total - i,
    {
        let c = rest.remove(0);
        proof {
            assert(c == all[i as int]);
            assert(all.take(i + 1).drop_last() =~= all.take(i as int));
            assert(all.take(i + 1).last() == c);
        }
        match configure_one(c, i) {
            Ok(cam) => {
                let ghost before = next@;
                next.push(cam);
                proof {
                    assert forall|j: int| 0 <= j < i + 1 implies configured_as(
                        #[trigger] next@[j],
                        all[j],
                        j as nat,
                    ) by {
                        if j < i {
                            assert(next@[j] == before[j]);
                        }
                    }
                    assert(rest@ =~= all.skip(i + 1));
                }
            },
            Err(reply) => {
                proof {
                    lemma_first_invalid_stays(all, i + 1);
                }
                return Err(reply);
            },
        }
        i += 1;
    }
    proof {
        assert(all.take(i as int) =~= all);
    }
    Ok(next)
}

// ── The tuning as it is shown ───────────────────────────────────────────────

/// The value of the knob of this name; the first, where there are several.
pub open spec fn knob_value<V>(knobs: Seq<(String, V)>, name: Seq<char>) -> Option<V>
    decreases knobs.len(),
{
    if knobs.len() == 0 {
        None
    } else {
        match knob_value(knobs.drop_last(), name) {
            Some(v) => Some(v),
            None => if knobs.last().0@ == name {
                Some(knobs.last().1)
            } else {
                None
            },
        }
    }
}

/// The knobs of the detection, and after them those that only the selection
/// names.
pub open spec fn merged_knobs<V>(park: Seq<(String, V)>, select: Seq<(String, V)>) -> Seq<
    (String, V),
>
    decreases select.len(),
{
    if select.len() == 0 {
        park
    } else {
        let r = merged_knobs(park, select.drop_last());
        if knob_value(r, select.last().0@) is Some {
            r
        } else {
            r.push(select.last())
        }
    }
}

proof fn lemma_knob_found<V>(knobs: Seq<(String, V)>, name: Seq<char>, i: int)
    requires
        0 <= i < knobs.len(),
        knobs[i].0@ == name,
    ensures
        knob_value(knobs, name) is Some,
    decreases knobs.len(),
{
    if i < knobs.len() - 1 {
        lemma_knob_found(knobs.drop_last(), name, i);
    }
}

proof fn lemma_knob_missing<V>(knobs: Seq<(String, V)>, name: Seq<char>)
    requires
        forall|i: int| 0 <= i < knobs.len() ==> (#[trigger] knobs[i]).0@ != name,
    ensures
        knob_value(knobs, name) is None,
    decreases knobs.len(),
{
    if knobs.len() > 0 {
        lemma_knob_missing(knobs.drop_last(), name);
    }
}

/// Whether a knob of this name is there.
fn has_knob<V>(knobs: &Vec<(String, V)>, name: &str) -> (r: bool)
    ensures
        r == (knob_value(knobs@, name@) is Some),
{
    let mut i: usize = 0;
    while i < knobs.len()
        invariant
            i <= knobs@.len(),
            forall|j: int| 0 <= j < i ==> (#[trigger] knobs@[j]).0@ != name@,
        decreases knobs@.len() - i,
    {
        if same_text(knobs[i].0.as_str(), name) {
            proof {
                lemma_knob_found(knobs@, name@, i as int);
            }
            return true;
        }
        i += 1;
    }
    proof {
        lemma_knob_missing(knobs@, name@);
    }
    false
}

/// Both tunings of a camera as the one that they were given in, so that saving it
/// again loses neither. What both name keeps the value of the detection. A camera
/// whose detection has none shows none.
pub fn shown_tuning<V>(park: Option<Vec<(String, V)>>, select: Option<Vec<(String, V)>>) -> (r:
    Option<Vec<(String, V)>>)
    ensures
        match (park, select) {
            (Some(p), Some(s)) => r matches Some(all) && all@ == merged_knobs(p@, s@),
            (Some(p), None) => r == Some(p),
            (None, _) => r is None,
        },
{
    let mut all = match park {
        Some(p) => p,
        None => {
            return None;
        },
    };
    let mut rest = match select {
        Some(s) => s,
        None => {
            return Some(all);
        },
    };
    let ghost own = all@;
    let ghost given = rest@;
    let ghost mut done: int = 0;
    proof {
        assert(given.take(0).len() == 0);
        assert(given.skip(0) =~= given);
    }
    while rest.len() > 0
        invariant
            0 <= done <= given.len(),
            rest@ == given.skip(done),
            all@ == merged_knobs(own, given.take(done)),
        decreases rest@.len(),
    {
        proof {
            let t = given.take(done + 1);
            assert(t.drop_last() =~= given.take(done));
            assert(t.last() == rest@[0]);
            assert(given.skip(done).remove(0) =~= given.skip(done + 1));
        }
        let knob = rest.remove(0);
        if !has_knob(&all, knob.0.as_str()) {
            all.push(knob);
        }
        proof {
            done = done + 1;
        }
    }
    proof {
        assert(given.take(done) =~= given);
    }
    Some(all)
}

/// A tuning that is shown holds every knob: what the detection names has its
/// value, and the rest has that of the selection.
pub proof fn a_shown_tuning_keeps_every_knob<V>(
    park: Seq<(String, V)>,
    select: Seq<(String, V)>,
    name: Seq<char>,
)
    ensures
        knob_value(merged_knobs(park, select), name) == match knob_value(park, name) {
            Some(v) => Some(v),
            None => knob_value(select, name),
        },
    decreases select.len(),
{
    if select.len() > 0 {
        let r = merged_knobs(park, select.drop_last());
        a_shown_tuning_keeps_every_knob(park, select.drop_last(), name);
        a_shown_tuning_keeps_every_knob(park, select.drop_last(), select.last().0@);
        assert(r.push(select.last()).drop_last() =~= r);
    }
}

// ── Laws ────────────────────────────────────────────────────────────────────

/// The identifier a camera is listed under finds that camera.
pub proof fn a_listed_id_finds_its_camera<P, S>(externals: Seq<ExternalCamera<P, S>>, i: nat)
    requires
        i < externals.len(),
        externals.len() <= usize::MAX,
    ensures
        external(ext_id(i), externals) == Some(externals[i as int]),
{
    reveal_strlit("ext-");
    let id = ext_id(i);
    crate::number::digits_read_back(i);
    assert(id.skip(4) =~= digits(i));
    assert("ext-"@ =~= id.subrange(0, 4));
    assert(crate::text::is_digit(digits(i)[0]));
    assert(crate::number::unsigned_part(digits(i)) == digits(i));
}

/// The built-in camera has no stream and is no external camera.
pub proof fn the_built_in_camera_is_not_external<P, S>(externals: Seq<ExternalCamera<P, S>>)
    ensures
        external("internal"@, externals) is None,
{
    reveal_strlit("internal");
    reveal_strlit("ext-");
    assert("internal"@[0] == 'i');
    if "ext-"@.is_prefix_of("internal"@) {
        assert("ext-"@[0] == "internal"@.subrange(0, 4)[0]);
    }
}

/// A configuration that is accepted proxies plain HTTP alone.
pub proof fn accepted_cameras_are_plain_http<P, S>(
    c: ExternalCamera<P, S>,
    input: CameraInput<P, S>,
    i: nat,
)
    requires
        camera_invalid(input) is None,
        configured_as(c, input, i),
    ensures
        http_url(c.url@),
        c.stream_url matches Some(s) ==> http_url(s@),
{
}

/// No identifier of an external camera is that of the built-in one.
pub proof fn an_external_camera_is_not_the_built_in_one(k: nat)
    ensures
        ext_id(k) != "internal"@,
{
    reveal_strlit("ext-");
    reveal_strlit("internal");
    assert(ext_id(k)[0] == 'e');
    assert("internal"@[0] == 'i');
}

/// The identifier of an external camera tells its place.
pub proof fn an_identifier_tells_its_place(k: nat)
    requires
        k <= usize::MAX,
    ensures
        ext_index(ext_id(k)) == Some(k),
{
    reveal_strlit("ext-");
    let id = ext_id(k);
    crate::number::digits_read_back(k);
    assert(id.skip(4) =~= digits(k));
    assert("ext-"@ =~= id.subrange(0, 4));
    assert(crate::text::is_digit(digits(k)[0]));
    assert(crate::number::unsigned_part(digits(k)) == digits(k));
}

/// A command-line entry that is a bare URL is that URL, whatever it holds; one with
/// a label gives the label and the URL on the two sides of the first `=`.
pub proof fn an_entry_is_read_as_written(label: Seq<char>, url: Seq<char>)
    ensures
        "http://"@.is_prefix_of(url) && trimmed(url, Strip::Space) == url ==> entry_parts(url) == (
            None::<Seq<char>>,
            url,
        ),
        !label.contains('=') && trimmed(label + "="@ + url, Strip::Space) == label + "="@ + url
            && !"http://"@.is_prefix_of(label + "="@ + url) && !"https://"@.is_prefix_of(
            label + "="@ + url,
        ) ==> entry_parts(label + "="@ + url) == (Some(label), url),
{
    reveal_strlit("=");
    let e = label + "="@ + url;
    assert(e[label.len() as int] == '=');
    assert(e.contains('='));
    if !label.contains('=') {
        assert forall|j: int| 0 <= j < label.len() implies e[j] != '=' by {
            assert(label[j] == e[j]);
        }
        crate::text::lemma_before_first(e, '=', label.len() as int);
        assert(e.take(label.len() as int) =~= label);
        assert(e.skip(label.len() as int + 1) =~= url);
    }
}

/// A camera is configured as it was described: its URLs are the ones that were
/// given, without the space around them, and its tunings are the ones that were
/// read. A label that says nothing is a number.
pub proof fn a_camera_is_configured_as_described<P, S>(
    r: ExternalCamera<P, S>,
    c: CameraInput<P, S>,
    index: nat,
)
    requires
        configured_as(r, c, index),
        trimmed(c.url@, Strip::Space) == c.url@,
        c.stream_url matches Some(s) ==> trimmed(s@, Strip::Space) == s@,
        c.label matches Some(l) ==> trimmed(l@, Strip::Space) == l@,
    ensures
        r.url@ == c.url@,
        match c.stream_url {
            Some(s) => if s@.len() > 0 {
                r.stream_url matches Some(t) && t@ == s@
            } else {
                r.stream_url is None
            },
            None => r.stream_url is None,
        },
        c.label matches Some(l) && l@.len() > 0 ==> r.label@ == c.label->0@,
        c.label is None ==> r.label@ == "external "@ + digits(index + 1),
        c.tuning matches Tuning::Read { park, select } ==> r.park_tuning == Some(park)
            && r.select_tuning == select,
        !(c.tuning is Read) ==> r.park_tuning is None && r.select_tuning is None,
{
}

/// A description is accepted exactly where its URLs are plain HTTP and its tuning
/// could be read; of several, all have to be.
pub proof fn descriptions_are_accepted_together<P, S>(cs: Seq<CameraInput<P, S>>)
    ensures
        first_invalid(cs) is None <==> forall|i: int|
            0 <= i < cs.len() ==> camera_invalid(#[trigger] cs[i]) is None,
    decreases cs.len(),
{
    if cs.len() > 0 {
        let less = cs.drop_last();
        descriptions_are_accepted_together(less);
        if first_invalid(cs) is None {
            assert forall|i: int| 0 <= i < cs.len() implies camera_invalid(
                #[trigger] cs[i],
            ) is None by {
                if i < less.len() {
                    assert(less[i] == cs[i]);
                }
            }
        } else if forall|i: int| 0 <= i < cs.len() ==> camera_invalid(#[trigger] cs[i]) is None {
            assert forall|i: int| 0 <= i < less.len() implies camera_invalid(
                #[trigger] less[i],
            ) is None by {
                assert(less[i] == cs[i]);
            }
            assert(camera_invalid(cs[cs.len() - 1]) is None);
        }
    }
}

/// A description whose URLs are plain HTTP and whose tuning was read or is absent is
/// accepted.
pub proof fn a_sound_description_is_accepted<P, S>(c: CameraInput<P, S>)
    requires
        "http://"@.is_prefix_of(trimmed(c.url@, Strip::Space)),
        c.stream_url matches Some(s) ==> trimmed(s@, Strip::Space).len() == 0
            || "http://"@.is_prefix_of(trimmed(s@, Strip::Space)),
        !(c.tuning is Invalid),
    ensures
        camera_invalid(c) is None,
{
}

/// A camera is listed by what it can do: streaming needs its stream, the park
/// preview a tuning besides, and the segmented capture both tunings.
pub proof fn a_listing_tells_what_a_camera_can_do<P, S>(
    info: CameraInfo,
    c: ExternalCamera<P, S>,
    i: nat,
)
    requires
        listed(info, c, i),
    ensures
        info.external,
        info.id@ == "ext-"@ + digits(i),
        info.label@ == c.label@,
        info.stream <==> c.stream_url is Some,
        info.park <==> c.stream_url is Some && c.park_tuning is Some,
        info.segment <==> c.stream_url is Some && c.park_tuning is Some && c.select_tuning is Some,
{
}

/// The built-in camera comes first where there is one, as what it is, and moves the
/// others by one place; without it they begin the list.
pub proof fn the_built_in_camera_comes_first(info: CameraInfo, configured: bool)
    ensures
        configured ==> built_in(configured) == 1,
        !configured ==> built_in(configured) == 0,
        listed_internal(info) ==> info.id@ == "internal"@ && !info.external && !info.stream
            && !info.park && !info.segment,
{
}

/// A camera without tuning is reached where it was said to be, without space around
/// the address, under the label it was given, or else under its place.
pub proof fn an_untuned_camera_is_as_described<P, S>(
    c: ExternalCamera<P, S>,
    label: Seq<char>,
    url: Seq<char>,
    index: nat,
)
    requires
        url.len() > 0 ==> !crate::text::is_space(url[0]) && !crate::text::is_space(url.last()),
        label.len() > 0,
        !crate::text::is_space(label[0]),
        !crate::text::is_space(label.last()),
    ensures
        is_untuned(c, Some(label), url, None, index) ==> c.label@ == label && c.url@ == url
            && c.stream_url is None && c.park_tuning is None && c.select_tuning is None,
        is_untuned(c, None, url, Some(label), index) ==> c.label@ == "external "@ + digits(
            index + 1,
        ) && c.url@ == url && (c.stream_url matches Some(s) && s@ == label),
{
    crate::text::lemma_trimmed_fixed(url, Strip::Space);
    crate::text::lemma_trimmed_fixed(label, Strip::Space);
}

} // verus!
