//! Running a slicer: its profiles off the disk, its process to its end, and the
//! proof that what it made can be printed.
use vstd::prelude::*;

use crate::json::{json_text, to_json};
use crate::number::{decimal, digits, signed_decimal, signed_digits};
use crate::slice::{params_view, ParamsView};
use crate::slice_slot::{SliceEnd, SliceMeta, SliceParams};
use crate::slicer::{pairs_view, inside, join_path, LiveSlicer};
use crate::text::{
    chars_of, debug_text, join2, join3, join4, join5, quoted, same_text, starts_with, text_of,
    trim, trimmed, Strip,
};
use crate::trace::lemma_then;

verus! {

// ── Profiles ────────────────────────────────────────────────────────────────

/// The kinds of profiles that a slice is put together from.
#[derive(Clone, Copy, Debug, PartialEq, Eq, Structural)]
pub enum ProfileKind {
    Machine,
    Process,
    Filament,
}

impl ProfileKind {
    pub open spec fn dir(self) -> Seq<char> {
        match self {
            ProfileKind::Machine => "machine"@,
            ProfileKind::Process => "process"@,
            ProfileKind::Filament => "filament"@,
        }
    }

    /// Where in the bundle the profiles of this kind are.
    pub fn subdir(self) -> (r: &'static str)
        ensures
            r@ == self.dir(),
    {
        match self {
            ProfileKind::Machine => "machine",
            ProfileKind::Process => "process",
            ProfileKind::Filament => "filament",
        }
    }
}

/// What looking for something gave: it, that it is absent, or that looking
/// failed.
#[derive(Debug)]
pub enum Looked<T> {
    Found(T),
    Absent,
    Failed(String),
}

/// What reading a profile asks of the outside.
pub trait ProfilePort {
    /// Whether a profile of this name stays within the profiles' directory.
    fn is_safe_profile_name(&mut self, name: &str) -> bool;

    /// The path with every link in it followed.
    fn canonicalize(&mut self, path: &str) -> Looked<String>;

    fn read(&mut self, path: &str) -> Looked<Vec<u8>>;
}

/// One question to the outside and its answer.
#[allow(inconsistent_fields)]
pub enum ProfileEvent {
    NameSafe { name: Seq<char>, safe: bool },
    Resolved { path: Seq<char>, res: Looked<String> },
    Read { path: Seq<char>, res: Looked<Vec<u8>> },
}

/// A port and the log of what went through it.
pub struct ProfileTap<P> {
    port: P,
    events: Ghost<Seq<ProfileEvent>>,
}

impl<P: ProfilePort> ProfileTap<P> {
    /// What went through the port so far.
    pub closed spec fn log(self) -> Seq<ProfileEvent> {
        self.events@
    }

    pub fn new(port: P) -> (r: ProfileTap<P>)
        ensures
            r.log() == Seq::<ProfileEvent>::empty(),
    {
        ProfileTap { port, events: Ghost(Seq::empty()) }
    }

    fn is_safe_profile_name(&mut self, name: &str) -> (r: bool)
        ensures
            final(self).log() == old(self).log().push(
                ProfileEvent::NameSafe { name: name@, safe: r },
            ),
    {
        let r: bool = self.port.is_safe_profile_name(name);
        self.events = Ghost(self.events@.push(ProfileEvent::NameSafe { name: name@, safe: r }));
        r
    }

    fn canonicalize(&mut self, path: &str) -> (r: Looked<String>)
        ensures
            final(self).log() == old(self).log().push(
                ProfileEvent::Resolved { path: path@, res: r },
            ),
    {
        let r = self.port.canonicalize(path);
        self.events = Ghost(self.events@.push(ProfileEvent::Resolved { path: path@, res: r }));
        r
    }

    fn read(&mut self, path: &str) -> (r: Looked<Vec<u8>>)
        ensures
            final(self).log() == old(self).log().push(ProfileEvent::Read { path: path@, res: r }),
    {
        let r = self.port.read(path);
        self.events = Ghost(self.events@.push(ProfileEvent::Read { path: path@, res: r }));
        r
    }
}

/// Whether these bytes are a JSON object, or why they are no JSON at all.
pub uninterp spec fn json_object_in(bytes: Seq<u8>) -> Result<bool, Seq<char>>;

pub open spec fn verdict_view(r: Result<bool, String>) -> Result<bool, Seq<char>> {
    match r {
        Ok(b) => Ok(b),
        Err(e) => Err(e@),
    }
}

/// Parses the bytes with `serde_json::from_slice` and asks
/// `serde_json::Value::is_object` of what came out: the bytes alone decide it. An
/// error is given by its text.
#[verifier::external_body]
fn json_is_object(bytes: &[u8]) -> (r: Result<bool, String>)
    ensures
        verdict_view(r) == json_object_in(bytes@),
{
    match serde_json::from_slice::<serde_json::Value>(bytes) {
        Ok(value) => Ok(value.is_object()),
        Err(e) => Err(e.to_string()),
    }
}

/// The profiles in a slicer's bundle.
#[derive(Debug)]
pub struct FsProfileFetch {
    root: String,
}

/// `path` is the directory, or lies in it. Both are resolved.
pub open spec fn lies_in(path: Seq<char>, dir: Seq<char>) -> bool {
    path == dir || inside(dir, Seq::empty()).is_prefix_of(path)
}

fn is_in(path: &str, dir: &str) -> (r: bool)
    ensures
        r == lies_in(path@, dir@),
{
    let none: Vec<char> = Vec::new();
    let nothing = text_of(&none);
    proof {
        assert(nothing@ =~= Seq::<char>::empty());
    }
    let prefix = join_path(dir, nothing.as_str());
    same_text(path, dir) || starts_with(path, prefix.as_str())
}

/// What reading a profile came to: its text as it is on the disk, none where it
/// is absent.
pub type Fetched = Result<Option<Vec<u8>>, String>;

pub open spec fn fetch_failed(r: Fetched, why: Seq<char>) -> bool {
    r matches Err(e) && e@ == why
}

/// What is made of a profile that was read: it has to be a JSON object.
pub open spec fn profile_read(found: Seq<char>, res: Looked<Vec<u8>>, r: Fetched) -> bool {
    match res {
        Looked::Absent => r matches Ok(None),
        Looked::Failed(e) => fetch_failed(r, "reading "@ + found + ": "@ + e@),
        Looked::Found(bytes) => profile_judged(found, bytes, json_object_in(bytes@), r),
    }
}

/// What is made of bytes that are an object in JSON, or are not.
pub open spec fn profile_judged(
    found: Seq<char>,
    bytes: Vec<u8>,
    object: Result<bool, Seq<char>>,
    r: Fetched,
) -> bool {
    match object {
        Err(e) => fetch_failed(r, "parsing "@ + found + ": "@ + e),
        Ok(false) => fetch_failed(r, found + " is not a JSON object"@),
        Ok(true) => r matches Ok(Some(b)) && b == bytes,
    }
}

/// What is made of bytes that are an object in JSON, or are not.
pub fn judge_profile(found: &str, bytes: Vec<u8>, object: Result<bool, String>) -> (r: Fetched)
    ensures
        profile_judged(found@, bytes, verdict_view(object), r),
{
    match object {
        Err(e) => Err(join4("parsing ", found, ": ", e.as_str())),
        Ok(false) => Err(join2(found, " is not a JSON object")),
        Ok(true) => Ok(Some(bytes)),
    }
}

/// What is made of a profile that was read.
pub fn profile_of(found: &str, res: Looked<Vec<u8>>) -> (r: Fetched)
    ensures
        profile_read(found@, res, r),
{
    match res {
        Looked::Absent => Ok(None),
        Looked::Failed(e) => Err(join4("reading ", found, ": ", e.as_str())),
        Looked::Found(bytes) => {
            let object = json_is_object(bytes.as_slice());
            judge_profile(found, bytes, object)
        },
    }
}

/// `ev` is all that reading a profile does outside. Only what is absent is
/// quietly none: a profile that cannot be read must not look like one that is
/// not there. Nothing outside the bundle is read, whatever a link points to.
pub open spec fn profile_fetched(
    ev: Seq<ProfileEvent>,
    root: Seq<char>,
    kind: ProfileKind,
    name: Seq<char>,
    r: Fetched,
) -> bool {
    let dir = inside(root, kind.dir());
    let path = inside(dir, name + ".json"@);
    &&& ev.len() >= 1
    &&& ev[0] matches ProfileEvent::NameSafe { name: n, safe }
    &&& n == name
    &&& if !safe {
        ev.len() == 1 && fetch_failed(r, "unsafe profile name "@ + debug_text(name))
    } else {
        &&& ev.len() >= 2
        &&& ev[1] matches ProfileEvent::Resolved { path: p1, res: r1 }
        &&& p1 == path
        &&& match r1 {
            Looked::Absent => ev.len() == 2 && (r matches Ok(None)),
            Looked::Failed(e) => ev.len() == 2 && fetch_failed(
                r,
                "resolving "@ + path + ": "@ + e@,
            ),
            Looked::Found(found) => {
                &&& ev.len() >= 3
                &&& ev[2] matches ProfileEvent::Resolved { path: p2, res: r2 }
                &&& p2 == dir
                &&& match r2 {
                    Looked::Absent => ev.len() == 3 && (r matches Ok(None)),
                    Looked::Failed(e) => ev.len() == 3 && fetch_failed(
                        r,
                        "resolving "@ + dir + ": "@ + e@,
                    ),
                    Looked::Found(found_dir) => if !lies_in(found@, found_dir@) {
                        ev.len() == 3 && fetch_failed(
                            r,
                            "profile "@ + debug_text(name)
                                + " resolves outside the profiles directory"@,
                        )
                    } else {
                        &&& ev.len() == 4
                        &&& ev[3] matches ProfileEvent::Read { path: p3, res: r3 }
                        &&& p3 == found@
                        &&& profile_read(found@, r3, r)
                    },
                }
            },
        }
    }
}

impl FsProfileFetch {
    pub closed spec fn root(self) -> Seq<char> {
        self.root@
    }

    pub fn new(root: &str) -> (r: FsProfileFetch)
        ensures
            r.root() == root@,
    {
        FsProfileFetch { root: root.to_owned() }
    }

    /// Read a profile out of the bundle.
    pub fn fetch<P: ProfilePort>(
        &self,
        tap: &mut ProfileTap<P>,
        kind: ProfileKind,
        name: &str,
    ) -> (r: Fetched)
        ensures
            old(tap).log().is_prefix_of(final(tap).log()),
            profile_fetched(
                final(tap).log().skip(old(tap).log().len() as int),
                self.root(),
                kind,
                name@,
                r,
            ),
    {
        if !tap.is_safe_profile_name(name) {
            let q = quoted(name);
            return Err(join2("unsafe profile name ", q.as_str()));
        }
        let dir = join_path(self.root.as_str(), kind.subdir());
        let file = join2(name, ".json");
        let path = join_path(dir.as_str(), file.as_str());
        let found = match tap.canonicalize(path.as_str()) {
            Looked::Found(p) => p,
            Looked::Absent => {
                return Ok(None);
            },
            Looked::Failed(e) => {
                return Err(join4("resolving ", path.as_str(), ": ", e.as_str()));
            },
        };
        let found_dir = match tap.canonicalize(dir.as_str()) {
            Looked::Found(p) => p,
            Looked::Absent => {
                return Ok(None);
            },
            Looked::Failed(e) => {
                return Err(join4("resolving ", dir.as_str(), ": ", e.as_str()));
            },
        };
        if !is_in(found.as_str(), found_dir.as_str()) {
            let q = quoted(name);
            return Err(
                join3("profile ", q.as_str(), " resolves outside the profiles directory"),
            );
        }
        let res = tap.read(found.as_str());
        profile_of(found.as_str(), res)
    }
}

/// Nothing is read that lies outside the bundle, nor for a name that is not
/// safe.
pub proof fn a_profile_stays_in_its_bundle(
    ev: Seq<ProfileEvent>,
    root: Seq<char>,
    kind: ProfileKind,
    name: Seq<char>,
    r: Fetched,
    i: int,
)
    requires
        profile_fetched(ev, root, kind, name, r),
        0 <= i < ev.len(),
        ev[i] is Read,
    ensures
        ev[0] == (ProfileEvent::NameSafe { name, safe: true }),
        ev[2] matches ProfileEvent::Resolved { path, res: Looked::Found(d) } && path == inside(
            root,
            kind.dir(),
        ) && lies_in(ev[i]->Read_path, d@),
{
}

// ── The log of a slicer ─────────────────────────────────────────────────────

/// The last characters of a text.
pub open spec fn last_chars(s: Seq<char>, n: nat) -> Seq<char> {
    if s.len() <= n {
        s
    } else {
        s.skip(s.len() - n)
    }
}

/// What someone needs to see of the log of a slicer that failed.
pub open spec fn tail_of_log(s: Seq<char>) -> Seq<char> {
    let tail = trimmed(last_chars(s, 1500), Strip::Space);
    if tail.len() == 0 {
        "the slicer logged nothing"@
    } else {
        tail
    }
}

/// The last part of a log.
pub fn log_tail(text: &str) -> (r: String)
    ensures
        r@ == tail_of_log(text@),
{
    let cs = chars_of(text);
    let from: usize = if cs.len() > 1500 {
        cs.len() - 1500
    } else {
        0
    };
    let end = text.substring_char(from, cs.len()).to_owned();
    proof {
        assert(end@ =~= last_chars(text@, 1500));
    }
    let tail = trim(end.as_str(), Strip::Space);
    let ts = chars_of(tail.as_str());
    if ts.len() == 0 {
        "the slicer logged nothing".to_owned()
    } else {
        tail
    }
}

// ── Running it ──────────────────────────────────────────────────────────────

/// How a process ended.
#[derive(Clone, Copy, Debug, PartialEq, Eq, Structural)]
pub struct Exit {
    pub success: bool,
    /// None where a signal ended it.
    pub code: Option<i32>,
}

/// Why a process could not be started: which program it was, and what was wrong
/// where it was there.
#[derive(Debug)]
pub struct SpawnError {
    pub program: String,
    pub why: Option<String>,
}

/// How a slicer is started: the program with its environment, wrapped in a virtual
/// display or not; the three profiles; the model; the job's directory and what the
/// output is called there; and the file it logs to.
#[derive(Debug)]
pub struct Launch {
    pub bin: String,
    pub env: Vec<(String, String)>,
    pub xvfb: bool,
    pub machine: String,
    pub process: String,
    pub filament: String,
    pub input: String,
    pub out_dir: String,
    pub out_name: String,
    pub log: String,
}

/// A start of a slicer, by its texts.
pub struct LaunchView {
    pub bin: Seq<char>,
    pub env: Seq<(Seq<char>, Seq<char>)>,
    pub xvfb: bool,
    pub machine: Seq<char>,
    pub process: Seq<char>,
    pub filament: Seq<char>,
    pub input: Seq<char>,
    pub out_dir: Seq<char>,
    pub out_name: Seq<char>,
    pub log: Seq<char>,
}

impl View for Launch {
    type V = LaunchView;

    open spec fn view(&self) -> LaunchView {
        LaunchView {
            bin: self.bin@,
            env: pairs_view(self.env@),
            xvfb: self.xvfb,
            machine: self.machine@,
            process: self.process@,
            filament: self.filament@,
            input: self.input@,
            out_dir: self.out_dir@,
            out_name: self.out_name@,
            log: self.log@,
        }
    }
}

/// The process preset that a request comes to, and what it changes there.
#[derive(Debug)]
pub struct Choice {
    pub process: String,
    pub changes: Vec<(String, String)>,
}

/// How large a bed is: the lengths of its sides in mm, as decimal numbers.
#[derive(Clone, Debug, PartialEq, Eq)]
pub struct Bed {
    pub x_mm: String,
    pub y_mm: String,
}

impl View for Bed {
    type V = (Seq<char>, Seq<char>);

    open spec fn view(&self) -> (Seq<char>, Seq<char>) {
        (self.x_mm@, self.y_mm@)
    }
}

/// A bed that may be known, by its view.
pub open spec fn bed_view(bed: Option<Bed>) -> Option<(Seq<char>, Seq<char>)> {
    match bed {
        Some(b) => Some(b@),
        None => None,
    }
}

/// A slice that was made, and the bed it was made for: verification holds it to
/// the machine's real bounds, and not to a guess.
#[derive(Clone, Debug, PartialEq, Eq)]
pub struct SliceOutput {
    pub path: String,
    pub bed: Option<Bed>,
}

/// What running a slicer asks of the outside.
pub trait RunPort {
    /// The process preset that the request comes to, with what it changes there.
    fn overrides(&mut self, p: &SliceParams) -> Result<Choice, String>;

    /// Put a profile together from all that it inherits in the bundle at `root`,
    /// with these changes.
    fn flatten(
        &mut self,
        root: &str,
        kind: ProfileKind,
        name: &str,
        changes: &Vec<(String, String)>,
    ) -> Result<(), String>;

    /// How large the bed is by the machine profile; none where it does not say.
    fn bed(&mut self) -> Option<Bed>;

    /// Write the profile of this kind to a file.
    fn write_profile(&mut self, kind: ProfileKind, path: &str) -> Result<(), String>;

    /// Make the file that the slicer logs to.
    fn open_log(&mut self, path: &str) -> Result<(), String>;

    /// Start the slicer, in a group of processes of its own.
    fn spawn(&mut self, l: &Launch) -> Result<(), SpawnError>;

    /// How the process ended; none while it runs.
    fn poll(&mut self) -> Result<Option<Exit>, String>;

    /// Whether the slicer's time is up.
    fn overdue(&mut self) -> bool;

    /// Wait for 200 ms.
    fn pause(&mut self);

    /// Kill the slicer and all that it started, and wait for its end.
    fn kill(&mut self);

    /// The text of the slicer's log; nothing where it cannot be read.
    fn log_text(&mut self, path: &str) -> String;

    /// Whether the output is there.
    fn produced(&mut self, path: &str) -> bool;
}

/// One thing that was asked of the outside and its answer.
#[allow(inconsistent_fields)]
pub enum RunEvent {
    Overrides { params: ParamsView, res: Result<Choice, String> },
    Flattened {
        root: Seq<char>,
        kind: ProfileKind,
        name: Seq<char>,
        changes: Seq<(Seq<char>, Seq<char>)>,
        res: Result<(), String>,
    },
    Bed(Option<Bed>),
    Written { kind: ProfileKind, path: Seq<char>, res: Result<(), String> },
    LogOpened { path: Seq<char>, res: Result<(), String> },
    Spawned { launch: LaunchView, res: Result<(), SpawnError> },
    Polled(Result<Option<Exit>, String>),
    Overdue(bool),
    Paused,
    Killed,
    LogRead { path: Seq<char>, text: Seq<char> },
    Produced { path: Seq<char>, there: bool },
}

/// A port and the log of what went through it.
pub struct RunTap<P> {
    port: P,
    events: Ghost<Seq<RunEvent>>,
}

impl<P: RunPort> RunTap<P> {
    /// What went through the port so far.
    pub closed spec fn log(self) -> Seq<RunEvent> {
        self.events@
    }

    /// The port as it is now.
    pub closed spec fn inner(self) -> P {
        self.port
    }

    pub fn new(port: P) -> (r: RunTap<P>)
        ensures
            r.inner() == port,
            r.log() == Seq::<RunEvent>::empty(),
    {
        RunTap { port, events: Ghost(Seq::empty()) }
    }

    /// The port again.
    pub fn into_port(self) -> (r: P)
        ensures
            r == self.inner(),
    {
        self.port
    }

    fn overrides(&mut self, p: &SliceParams) -> (r: Result<Choice, String>)
        ensures
            final(self).log() == old(self).log().push(
                RunEvent::Overrides { params: params_view(*p), res: r },
            ),
    {
        let r = self.port.overrides(p);
        self.events =
        Ghost(self.events@.push(RunEvent::Overrides { params: params_view(*p), res: r }));
        r
    }

    fn flatten(
        &mut self,
        root: &str,
        kind: ProfileKind,
        name: &str,
        changes: &Vec<(String, String)>,
    ) -> (r: Result<(), String>)
        ensures
            final(self).log() == old(self).log().push(
                RunEvent::Flattened {
                    root: root@,
                    kind,
                    name: name@,
                    changes: pairs_view(changes@),
                    res: r,
                },
            ),
    {
        let r = self.port.flatten(root, kind, name, changes);
        self.events =
        Ghost(
            self.events@.push(
                RunEvent::Flattened {
                    root: root@,
                    kind,
                    name: name@,
                    changes: pairs_view(changes@),
                    res: r,
                },
            ),
        );
        r
    }

    fn bed(&mut self) -> (r: Option<Bed>)
        ensures
            final(self).log() == old(self).log().push(RunEvent::Bed(r)),
    {
        let r = self.port.bed();
        self.events = Ghost(self.events@.push(RunEvent::Bed(r)));
        r
    }

    fn write_profile(&mut self, kind: ProfileKind, path: &str) -> (r: Result<(), String>)
        ensures
            final(self).log() == old(self).log().push(
                RunEvent::Written { kind, path: path@, res: r },
            ),
    {
        let r = self.port.write_profile(kind, path);
        self.events = Ghost(self.events@.push(RunEvent::Written { kind, path: path@, res: r }));
        r
    }

    fn open_log(&mut self, path: &str) -> (r: Result<(), String>)
        ensures
            final(self).log() == old(self).log().push(
                RunEvent::LogOpened { path: path@, res: r },
            ),
    {
        let r = self.port.open_log(path);
        self.events = Ghost(self.events@.push(RunEvent::LogOpened { path: path@, res: r }));
        r
    }

    fn spawn(&mut self, l: &Launch) -> (r: Result<(), SpawnError>)
        ensures
            final(self).log() == old(self).log().push(RunEvent::Spawned { launch: l@, res: r }),
    {
        let r = self.port.spawn(l);
        self.events = Ghost(self.events@.push(RunEvent::Spawned { launch: l@, res: r }));
        r
    }

    fn poll(&mut self) -> (r: Result<Option<Exit>, String>)
        ensures
            final(self).log() == old(self).log().push(RunEvent::Polled(r)),
    {
        let r = self.port.poll();
        self.events = Ghost(self.events@.push(RunEvent::Polled(r)));
        r
    }

    fn overdue(&mut self) -> (r: bool)
        ensures
            final(self).log() == old(self).log().push(RunEvent::Overdue(r)),
    {
        let r: bool = self.port.overdue();
        self.events = Ghost(self.events@.push(RunEvent::Overdue(r)));
        r
    }

    fn pause(&mut self)
        ensures
            final(self).log() == old(self).log().push(RunEvent::Paused),
    {
        self.port.pause();
        self.events = Ghost(self.events@.push(RunEvent::Paused));
    }

    fn kill(&mut self)
        ensures
            final(self).log() == old(self).log().push(RunEvent::Killed),
    {
        self.port.kill();
        self.events = Ghost(self.events@.push(RunEvent::Killed));
    }

    fn log_text(&mut self, path: &str) -> (r: String)
        ensures
            final(self).log() == old(self).log().push(
                RunEvent::LogRead { path: path@, text: r@ },
            ),
    {
        let r = self.port.log_text(path);
        self.events = Ghost(self.events@.push(RunEvent::LogRead { path: path@, text: r@ }));
        r
    }

    fn produced(&mut self, path: &str) -> (r: bool)
        ensures
            final(self).log() == old(self).log().push(
                RunEvent::Produced { path: path@, there: r },
            ),
    {
        let r: bool = self.port.produced(path);
        self.events = Ghost(self.events@.push(RunEvent::Produced { path: path@, there: r }));
        r
    }
}

/// Where a slice comes to, or why there is none.
pub type Made = Result<String, String>;

pub open spec fn run_failed(r: Made, why: Seq<char>) -> bool {
    r matches Err(e) && e@ == why
}

/// Where a job's slicer logs to.
pub open spec fn log_path(p: SliceParams) -> Seq<char> {
    inside(p.out_dir@, "slicer.log"@)
}

/// Where a job's profile of this kind is: in its own directory, so that two
/// printers that slice at once do not read each other's settings.
pub open spec fn profile_path(p: SliceParams, kind: ProfileKind) -> Seq<char> {
    inside(p.out_dir@, kind.dir() + ".json"@)
}

/// How the slicer is started for a job: on the staged model, into its directory.
pub open spec fn launch_of(s: LiveSlicer, p: SliceParams) -> LaunchView {
    LaunchView {
        bin: s.bin@,
        env: pairs_view(s.env@),
        xvfb: s.xvfb,
        machine: profile_path(p, ProfileKind::Machine),
        process: profile_path(p, ProfileKind::Process),
        filament: profile_path(p, ProfileKind::Filament),
        input: p.input@,
        out_dir: p.out_dir@,
        out_name: p.out_name@,
        log: log_path(p),
    }
}

/// How a code of exit is told.
pub open spec fn exit_text(code: Option<i32>) -> Seq<char> {
    match code {
        Some(c) => signed_digits(c as int),
        None => "on a signal"@,
    }
}

/// `ev` looks at what a slicer that ended has left. That it ended well is no
/// proof that there is a file.
pub open spec fn judged(
    ev: Seq<RunEvent>,
    kind: Seq<char>,
    p: SliceParams,
    exit: Exit,
    r: Made,
) -> bool {
    &&& ev.len() >= 1
    &&& if !exit.success {
        &&& ev.len() == 1
        &&& ev[0] matches RunEvent::LogRead { path, text }
        &&& path == log_path(p)
        &&& run_failed(
            r,
            kind + " exited "@ + exit_text(exit.code) + " — "@ + tail_of_log(text),
        )
    } else {
        &&& ev[0] matches RunEvent::Produced { path: out, there }
        &&& out == inside(p.out_dir@, p.out_name@)
        &&& if there {
            ev.len() == 1 && (r matches Ok(o) && o@ == out)
        } else {
            &&& ev.len() == 2
            &&& ev[1] matches RunEvent::LogRead { path, text }
            &&& path == log_path(p)
            &&& run_failed(
                r,
                "the slicer exited 0 but produced no "@ + p.out_name@ + " — "@ + tail_of_log(text),
            )
        }
    }
}

/// The first `k` rounds of `ev` found the slicer running and not overdue.
pub open spec fn rounds(ev: Seq<RunEvent>, k: int) -> bool {
    &&& 0 <= k
    &&& 3 * k <= ev.len()
    &&& forall|i: int|
        0 <= i < 3 * k ==> {
            &&& i % 3 == 0 ==> (#[trigger] ev[i]) == RunEvent::Polled(Ok(None))
            &&& i % 3 == 1 ==> ev[i] == RunEvent::Overdue(false)
            &&& i % 3 == 2 ==> ev[i] is Paused
        }
}

/// How many pauses a slicer is waited for at most: no clock lets it come to this.
pub const MOST_ROUNDS: u64 = u64::MAX;

pub open spec fn timed_out(timeout_ms: u64) -> Seq<char> {
    "slicer timed out after "@ + digits((timeout_ms / 1000) as nat)
        + "s (a GL-less host can wedge it; raise --slice-timeout-secs if the model is simply big)"@
}

/// `ev` waits for the slicer over `k` rounds and then sees its end, kills it, or
/// cannot tell.
pub open spec fn waited_at(
    ev: Seq<RunEvent>,
    k: int,
    kind: Seq<char>,
    p: SliceParams,
    timeout_ms: u64,
    r: Made,
) -> bool {
    let t = ev.skip(3 * k);
    &&& rounds(ev, k)
    &&& k <= MOST_ROUNDS
    &&& t.len() >= 1
    &&& t[0] matches RunEvent::Polled(polled)
    &&& match polled {
        Err(e) => t.len() == 1 && run_failed(r, "waiting for the slicer: "@ + e@),
        Ok(Some(exit)) => judged(t.skip(1), kind, p, exit, r),
        Ok(None) => {
            &&& t.len() == 3
            &&& t[1] matches RunEvent::Overdue(over)
            &&& over || k == MOST_ROUNDS
            &&& t[2] is Killed
            &&& run_failed(r, timed_out(timeout_ms))
        },
    }
}

pub open spec fn waited(
    ev: Seq<RunEvent>,
    kind: Seq<char>,
    p: SliceParams,
    timeout_ms: u64,
    r: Made,
) -> bool {
    exists|k: int| #[trigger] waited_at(ev, k, kind, p, timeout_ms, r)
}

/// `ev` starts the slicer and waits for it.
pub open spec fn spawned(
    ev: Seq<RunEvent>,
    s: LiveSlicer,
    p: SliceParams,
    r: Made,
) -> bool {
    &&& ev.len() >= 1
    &&& ev[0] matches RunEvent::LogOpened { path, res: log }
    &&& path == log_path(p)
    &&& match log {
        Err(e) => ev.len() == 1 && run_failed(r, e@),
        Ok(_) => {
            &&& ev.len() >= 2
            &&& ev[1] matches RunEvent::Spawned { launch, res }
            &&& launch == launch_of(s, p)
            &&& match res {
                Err(e) => ev.len() == 2 && run_failed(
                    r,
                    match e.why {
                        None => e.program@ + " not found — is the slicer still installed?"@,
                        Some(w) => "running "@ + e.program@ + ": "@ + w@,
                    },
                ),
                Ok(_) => waited(ev.skip(2), s.kind@, p, s.timeout_ms, r),
            }
        },
    }
}

/// `ev[i]` is this step of putting the profiles together, and `ev` ends with it
/// where it failed.
pub open spec fn step_failed(
    ev: Seq<RunEvent>,
    i: int,
    res: Result<(), String>,
    r: Made,
) -> bool {
    res matches Err(e) && ev.len() == i + 1 && run_failed(r, e@)
}

/// `ev[i]` writes the profile of this kind into the job's directory.
pub open spec fn writes(ev: Seq<RunEvent>, i: int, k: ProfileKind, p: SliceParams) -> bool {
    &&& ev.len() > i
    &&& ev[i] matches RunEvent::Written { kind, path, res }
    &&& kind == k
    &&& path == profile_path(p, k)
}

/// `ev` writes the three profiles into the job's directory, and goes on to the
/// slicer.
pub open spec fn written(ev: Seq<RunEvent>, s: LiveSlicer, p: SliceParams, r: Made) -> bool {
    &&& writes(ev, 0, ProfileKind::Machine, p)
    &&& ev[0]->Written_res is Err ==> step_failed(ev, 0, ev[0]->Written_res, r)
    &&& ev[0]->Written_res is Ok ==> {
        &&& writes(ev, 1, ProfileKind::Process, p)
        &&& ev[1]->Written_res is Err ==> step_failed(ev, 1, ev[1]->Written_res, r)
        &&& ev[1]->Written_res is Ok ==> {
            &&& writes(ev, 2, ProfileKind::Filament, p)
            &&& ev[2]->Written_res is Err ==> step_failed(ev, 2, ev[2]->Written_res, r)
            &&& ev[2]->Written_res is Ok ==> spawned(ev.skip(3), s, p, r)
        }
    }
}

/// `ev[i]` puts this profile together, out of the slicer's own bundle.
pub open spec fn flattens(
    ev: Seq<RunEvent>,
    i: int,
    s: LiveSlicer,
    k: ProfileKind,
    n: Seq<char>,
    c: Seq<(Seq<char>, Seq<char>)>,
) -> bool {
    &&& ev.len() > i
    &&& ev[i] matches RunEvent::Flattened { root, kind, name, changes, res }
    &&& root == s.profiles@
    &&& kind == k
    &&& name == n
    &&& changes == c
}

/// Where the slice is that `made` tells of.
pub open spec fn made_at(made: Result<SliceOutput, String>) -> Made {
    match made {
        Ok(out) => Ok(out.path),
        Err(e) => Err(e),
    }
}

/// `ev` is all that a slice does outside. Without the size of the bed an extrusion
/// beside it could not be told, so no slice is made; one that is made comes with
/// the bed of its machine profile.
pub open spec fn sliced(
    ev: Seq<RunEvent>,
    s: LiveSlicer,
    p: SliceParams,
    made: Result<SliceOutput, String>,
) -> bool {
    let r = made_at(made);
    &&& ev.len() >= 1
    &&& ev[0] matches RunEvent::Overrides { params, res: choice }
    &&& params == params_view(p)
    &&& match choice {
        Err(e) => ev.len() == 1 && run_failed(r, e@),
        Ok(c) => {
            &&& flattens(ev, 1, s, ProfileKind::Machine, p.machine_profile@, Seq::empty())
            &&& ev[1]->Flattened_res is Err ==> step_failed(ev, 1, ev[1]->Flattened_res, r)
            &&& ev[1]->Flattened_res is Ok ==> {
                &&& ev.len() >= 3
                &&& ev[2] matches RunEvent::Bed(known)
                &&& made matches Ok(out) ==> bed_view(out.bed) == bed_view(known)
                &&& known is None ==> ev.len() == 3 && run_failed(
                    r,
                    "machine profile "@ + debug_text(p.machine_profile@)
                        + " has no usable printable_area, so an off-bed prime line could not be detected"@,
                )
                &&& known is Some ==> {
                    &&& flattens(
                        ev,
                        3,
                        s,
                        ProfileKind::Process,
                        c.process@,
                        pairs_view(c.changes@),
                    )
                    &&& ev[3]->Flattened_res is Err ==> step_failed(ev, 3, ev[3]->Flattened_res, r)
                    &&& ev[3]->Flattened_res is Ok ==> {
                        &&& flattens(
                            ev,
                            4,
                            s,
                            ProfileKind::Filament,
                            p.filament@,
                            Seq::empty(),
                        )
                        &&& ev[4]->Flattened_res is Err ==> step_failed(
                            ev,
                            4,
                            ev[4]->Flattened_res,
                            r,
                        )
                        &&& ev[4]->Flattened_res is Ok ==> written(ev.skip(5), s, p, r)
                    }
                }
            }
        },
    }
}

/// Rounds stay rounds whatever comes after them.
proof fn lemma_rounds(a: Seq<RunEvent>, b: Seq<RunEvent>, k: int)
    requires
        rounds(a, k),
        a.len() <= b.len(),
        forall|i: int| 0 <= i < a.len() ==> #[trigger] a[i] == b[i],
    ensures
        rounds(b, k),
{
    assert forall|i: int| 0 <= i < 3 * k implies {
        &&& i % 3 == 0 ==> (#[trigger] b[i]) == RunEvent::Polled(Ok(None))
        &&& i % 3 == 1 ==> b[i] == RunEvent::Overdue(false)
        &&& i % 3 == 2 ==> b[i] is Paused
    } by {
        assert(a[i] == b[i]);
    }
}

fn profile_file(p: &SliceParams, kind: ProfileKind) -> (r: String)
    ensures
        r@ == profile_path(*p, kind),
{
    let name = join2(kind.subdir(), ".json");
    join_path(p.out_dir.as_str(), name.as_str())
}

fn copy_pairs(v: &Vec<(String, String)>) -> (r: Vec<(String, String)>)
    ensures
        pairs_view(r@) == pairs_view(v@),
{
    let mut out: Vec<(String, String)> = Vec::new();
    let mut i: usize = 0;
    while i < v.len()
        invariant
            i <= v@.len(),
            out@.len() == i,
            forall|k: int|
                0 <= k < i ==> (#[trigger] out@[k]).0@ == v@[k].0@ && out@[k].1@ == v@[k].1@,
        decreases v@.len() - i,
    {
        out.push((v[i].0.clone(), v[i].1.clone()));
        i += 1;
    }
    proof {
        assert(pairs_view(out@) =~= pairs_view(v@));
    }
    out
}

impl LiveSlicer {
    fn judge<P: RunPort>(&self, tap: &mut RunTap<P>, p: &SliceParams, exit: Exit) -> (r: Made)
        ensures
            old(tap).log().is_prefix_of(final(tap).log()),
            judged(
                final(tap).log().skip(old(tap).log().len() as int),
                self.kind@,
                *p,
                exit,
                r,
            ),
    {
        if !exit.success {
            let code = match exit.code {
                Some(c) => signed_decimal(c as i64),
                None => "on a signal".to_owned(),
            };
            let log = join_path(p.out_dir.as_str(), "slicer.log");
            let text = tap.log_text(log.as_str());
            let tail = log_tail(text.as_str());
            return Err(
                join5(self.kind.as_str(), " exited ", code.as_str(), " — ", tail.as_str()),
            );
        }
        let out = join_path(p.out_dir.as_str(), p.out_name.as_str());
        if tap.produced(out.as_str()) {
            return Ok(out);
        }
        let log = join_path(p.out_dir.as_str(), "slicer.log");
        let text = tap.log_text(log.as_str());
        let tail = log_tail(text.as_str());
        Err(
            join4(
                "the slicer exited 0 but produced no ",
                p.out_name.as_str(),
                " — ",
                tail.as_str(),
            ),
        )
    }

    fn wait<P: RunPort>(&self, tap: &mut RunTap<P>, p: &SliceParams) -> (r: Made)
        ensures
            old(tap).log().is_prefix_of(final(tap).log()),
            waited(
                final(tap).log().skip(old(tap).log().len() as int),
                self.kind@,
                *p,
                self.timeout_ms,
                r,
            ),
    {
        let ghost start = tap.log();
        let mut left: u64 = MOST_ROUNDS;
        let ghost mut k: int = 0;
        loop
            invariant
                start == old(tap).log(),
                left == MOST_ROUNDS - k,
                start.is_prefix_of(tap.log()),
                tap.log().len() == start.len() + 3 * k,
                rounds(tap.log().skip(start.len() as int), k),
            decreases left,
        {
            let ghost before = tap.log();
            let polled = tap.poll();
            let ghost ev = tap.log().skip(start.len() as int);
            match polled {
                Err(e) => {
                    let r = Err(join2("waiting for the slicer: ", e.as_str()));
                    proof {
                        lemma_rounds(before.skip(start.len() as int), ev, k);
                        assert(waited_at(ev, k, self.kind@, *p, self.timeout_ms, r));
                    }
                    return r;
                },
                Ok(Some(exit)) => {
                    let ghost mid = tap.log();
                    let r = self.judge(tap, p, exit);
                    proof {
                        lemma_then(start, mid, tap.log());
                        let all = tap.log().skip(start.len() as int);
                        assert(all.skip(3 * k).skip(1) =~= tap.log().skip(mid.len() as int));
                        assert forall|i: int| 0 <= i < 3 * k + 1 implies all[i] == #[trigger] ev[i] by {}
                        lemma_rounds(before.skip(start.len() as int), all, k);
                        assert(waited_at(all, k, self.kind@, *p, self.timeout_ms, r));
                    }
                    return r;
                },
                Ok(None) => {},
            }
            let over: bool = tap.overdue();
            if over || left == 0 {
                tap.kill();
                let secs = decimal(self.timeout_ms / 1000);
                let r = Err(
                    join3(
                        "slicer timed out after ",
                        secs.as_str(),
                        "s (a GL-less host can wedge it; raise --slice-timeout-secs if the model is simply big)",
                    ),
                );
                proof {
                    let all = tap.log().skip(start.len() as int);
                    lemma_rounds(before.skip(start.len() as int), all, k);
                    assert(waited_at(all, k, self.kind@, *p, self.timeout_ms, r));
                }
                return r;
            }
            tap.pause();
            proof {
                let all = tap.log().skip(start.len() as int);
                assert forall|i: int| 0 <= i < 3 * (k + 1) implies {
                    &&& i % 3 == 0 ==> (#[trigger] all[i]) == RunEvent::Polled(Ok(None))
                    &&& i % 3 == 1 ==> all[i] == RunEvent::Overdue(false)
                    &&& i % 3 == 2 ==> all[i] is Paused
                } by {
                    if i < 3 * k {
                        assert(before.skip(start.len() as int)[i] == all[i]);
                    }
                }
                k = k + 1;
            }
            left -= 1;
        }
    }

    fn launch(&self, p: &SliceParams, log: String) -> (r: Launch)
        requires
            log@ == log_path(*p),
        ensures
            r@ == launch_of(*self, *p),
    {
        let env = copy_pairs(&self.env);
        Launch {
            bin: self.bin.clone(),
            env,
            xvfb: self.xvfb,
            machine: profile_file(p, ProfileKind::Machine),
            process: profile_file(p, ProfileKind::Process),
            filament: profile_file(p, ProfileKind::Filament),
            input: p.input.clone(),
            out_dir: p.out_dir.clone(),
            out_name: p.out_name.clone(),
            log,
        }
    }

    fn spawn_and_wait<P: RunPort>(&self, tap: &mut RunTap<P>, p: &SliceParams) -> (r: Made)
        ensures
            old(tap).log().is_prefix_of(final(tap).log()),
            spawned(final(tap).log().skip(old(tap).log().len() as int), *self, *p, r),
    {
        let ghost start = tap.log();
        let log = join_path(p.out_dir.as_str(), "slicer.log");
        if let Err(e) = tap.open_log(log.as_str()) {
            return Err(e);
        }
        let launch = self.launch(p, log);
        if let Err(e) = tap.spawn(&launch) {
            return match e.why {
                None => Err(
                    join2(e.program.as_str(), " not found — is the slicer still installed?"),
                ),
                Some(w) => Err(join4("running ", e.program.as_str(), ": ", w.as_str())),
            };
        }
        let ghost mid = tap.log();
        let r = self.wait(tap, p);
        proof {
            lemma_then(start, mid, tap.log());
        }
        r
    }

    fn write_and_spawn<P: RunPort>(&self, tap: &mut RunTap<P>, p: &SliceParams) -> (r: Made)
        ensures
            old(tap).log().is_prefix_of(final(tap).log()),
            written(final(tap).log().skip(old(tap).log().len() as int), *self, *p, r),
    {
        let ghost start = tap.log();
        let machine = profile_file(p, ProfileKind::Machine);
        if let Err(e) = tap.write_profile(ProfileKind::Machine, machine.as_str()) {
            return Err(e);
        }
        let process = profile_file(p, ProfileKind::Process);
        if let Err(e) = tap.write_profile(ProfileKind::Process, process.as_str()) {
            return Err(e);
        }
        let filament = profile_file(p, ProfileKind::Filament);
        if let Err(e) = tap.write_profile(ProfileKind::Filament, filament.as_str()) {
            return Err(e);
        }
        let ghost mid = tap.log();
        let r = self.spawn_and_wait(tap, p);
        proof {
            lemma_then(start, mid, tap.log());
        }
        r
    }

    /// Slice the staged model into the job's directory, under the name that the
    /// parameters give; where the slice is, and for which bed.
    pub fn slice<P: RunPort>(&self, tap: &mut RunTap<P>, p: &SliceParams) -> (r: Result<
        SliceOutput,
        String,
    >)
        ensures
            old(tap).log().is_prefix_of(final(tap).log()),
            sliced(final(tap).log().skip(old(tap).log().len() as int), *self, *p, r),
    {
        let ghost start = tap.log();
        let none: Vec<(String, String)> = Vec::new();
        let root = self.profiles.as_str();
        proof {
            assert(pairs_view(none@) =~= Seq::empty());
        }
        let choice = match tap.overrides(p) {
            Ok(c) => c,
            Err(e) => {
                return Err(e);
            },
        };
        if let Err(e) = tap.flatten(
            root,
            ProfileKind::Machine,
            p.machine_profile.as_str(),
            &none,
        ) {
            return Err(e);
        }
        let bed = tap.bed();
        if bed.is_none() {
            let q = quoted(p.machine_profile.as_str());
            return Err(
                join3(
                    "machine profile ",
                    q.as_str(),
                    " has no usable printable_area, so an off-bed prime line could not be detected",
                ),
            );
        }
        if let Err(e) = tap.flatten(
            root,
            ProfileKind::Process,
            choice.process.as_str(),
            &choice.changes,
        ) {
            return Err(e);
        }
        if let Err(e) = tap.flatten(root, ProfileKind::Filament, p.filament.as_str(), &none) {
            return Err(e);
        }
        let ghost mid = tap.log();
        let r = self.write_and_spawn(tap, p);
        proof {
            lemma_then(start, mid, tap.log());
        }
        match r {
            Ok(path) => Ok(SliceOutput { path, bed }),
            Err(e) => Err(e),
        }
    }
}

// ── Proof of what was made ──────────────────────────────────────────────────

/// What proving a slice asks of the outside.
pub trait ProofPort {
    /// Make the slice.
    fn slice(&mut self, p: &SliceParams) -> Result<SliceOutput, String>;

    fn read(&mut self, path: &str) -> Result<Vec<u8>, String>;

    /// The G-code of the first plate in a sliced file; none where there is none.
    fn plate_gcode(&mut self, bytes: &Vec<u8>) -> Result<Option<String>, String>;

    /// Hold the G-code to the layer height that was asked for and to the bed it
    /// was sliced for.
    fn verify(&mut self, gcode: &str, layer_mm: &str, bed: &Option<Bed>) -> Result<
        SliceMeta,
        String,
    >;
}

/// One thing that was asked of the outside and its answer.
#[allow(inconsistent_fields)]
pub enum ProofEvent {
    Sliced { params: ParamsView, res: Result<SliceOutput, String> },
    Read { path: Seq<char>, res: Result<Vec<u8>, String> },
    Gcode { bytes: Seq<u8>, res: Result<Option<String>, String> },
    Verified {
        gcode: Seq<char>,
        layer_mm: Seq<char>,
        bed: Option<(Seq<char>, Seq<char>)>,
        res: Result<SliceMeta, String>,
    },
}

/// A port and the log of what went through it.
pub struct ProofTap<P> {
    port: P,
    events: Ghost<Seq<ProofEvent>>,
}

impl<P: ProofPort> ProofTap<P> {
    /// What went through the port so far.
    pub closed spec fn log(self) -> Seq<ProofEvent> {
        self.events@
    }

    pub fn new(port: P) -> (r: ProofTap<P>)
        ensures
            r.log() == Seq::<ProofEvent>::empty(),
    {
        ProofTap { port, events: Ghost(Seq::empty()) }
    }

    fn slice(&mut self, p: &SliceParams) -> (r: Result<SliceOutput, String>)
        ensures
            final(self).log() == old(self).log().push(
                ProofEvent::Sliced { params: params_view(*p), res: r },
            ),
    {
        let r = self.port.slice(p);
        self.events =
        Ghost(self.events@.push(ProofEvent::Sliced { params: params_view(*p), res: r }));
        r
    }

    fn read(&mut self, path: &str) -> (r: Result<Vec<u8>, String>)
        ensures
            final(self).log() == old(self).log().push(ProofEvent::Read { path: path@, res: r }),
    {
        let r = self.port.read(path);
        self.events = Ghost(self.events@.push(ProofEvent::Read { path: path@, res: r }));
        r
    }

    fn plate_gcode(&mut self, bytes: &Vec<u8>) -> (r: Result<Option<String>, String>)
        ensures
            final(self).log() == old(self).log().push(ProofEvent::Gcode { bytes: bytes@, res: r }),
    {
        let r = self.port.plate_gcode(bytes);
        self.events = Ghost(self.events@.push(ProofEvent::Gcode { bytes: bytes@, res: r }));
        r
    }

    fn verify(&mut self, gcode: &str, layer_mm: &str, bed: &Option<Bed>) -> (r: Result<
        SliceMeta,
        String,
    >)
        ensures
            final(self).log() == old(self).log().push(
                ProofEvent::Verified {
                    gcode: gcode@,
                    layer_mm: layer_mm@,
                    bed: bed_view(*bed),
                    res: r,
                },
            ),
    {
        let r = self.port.verify(gcode, layer_mm, bed);
        self.events =
        Ghost(
            self.events@.push(
                ProofEvent::Verified {
                    gcode: gcode@,
                    layer_mm: layer_mm@,
                    bed: bed_view(*bed),
                    res: r,
                },
            ),
        );
        r
    }
}

pub open spec fn unproved(r: SliceEnd, why: Seq<char>) -> bool {
    r matches SliceEnd::Refused(e) && e@ == why
}

/// `ev` is all that a job does outside: it makes the slice, reads it back and
/// proves it against the bed it was made for, whichever slicer made it.
pub open spec fn proved(ev: Seq<ProofEvent>, p: SliceParams, r: SliceEnd) -> bool {
    &&& ev.len() >= 1
    &&& ev[0] matches ProofEvent::Sliced { params, res: made }
    &&& params == params_view(p)
    &&& match made {
        Err(e) => ev.len() == 1 && unproved(r, e@),
        Ok(out) => {
            &&& ev.len() >= 2
            &&& ev[1] matches ProofEvent::Read { path, res }
            &&& path == out.path@
            &&& match res {
                Err(e) => ev.len() == 2 && unproved(r, "reading the sliced 3mf: "@ + e@),
                Ok(content) => {
                    &&& ev.len() >= 3
                    &&& ev[2] matches ProofEvent::Gcode { bytes, res: found }
                    &&& bytes == content@
                    &&& match found {
                        Err(e) => ev.len() == 3 && unproved(r, e@),
                        Ok(None) => ev.len() == 3 && unproved(
                            r,
                            "the produced 3mf has no Metadata/plate_1.gcode — it was not sliced"@,
                        ),
                        Ok(Some(text)) => {
                            &&& ev.len() == 4
                            &&& ev[3] matches ProofEvent::Verified { gcode, layer_mm, bed, res: v }
                            &&& gcode == text@
                            &&& layer_mm == p.layer_mm@
                            &&& bed == bed_view(out.bed)
                            &&& match v {
                                Err(e) => unproved(r, "verification failed: "@ + e@),
                                Ok(meta) => r matches SliceEnd::Verified(m, n) && m == meta && n
                                    == content@.len(),
                            }
                        },
                    }
                },
            }
        },
    }
}

/// Slice, and prove the result.
pub fn run_and_verify<P: ProofPort>(tap: &mut ProofTap<P>, p: &SliceParams) -> (r: SliceEnd)
    ensures
        old(tap).log().is_prefix_of(final(tap).log()),
        proved(final(tap).log().skip(old(tap).log().len() as int), *p, r),
{
    let out = match tap.slice(p) {
        Ok(o) => o,
        Err(e) => {
            return SliceEnd::Refused(e);
        },
    };
    let bytes = match tap.read(out.path.as_str()) {
        Ok(b) => b,
        Err(e) => {
            return SliceEnd::Refused(join2("reading the sliced 3mf: ", e.as_str()));
        },
    };
    let gcode = match tap.plate_gcode(&bytes) {
        Ok(Some(g)) => g,
        Ok(None) => {
            return SliceEnd::Refused(
                "the produced 3mf has no Metadata/plate_1.gcode — it was not sliced".to_owned(),
            );
        },
        Err(e) => {
            return SliceEnd::Refused(e);
        },
    };
    match tap.verify(gcode.as_str(), p.layer_mm.as_str(), &out.bed) {
        Ok(meta) => SliceEnd::Verified(meta, bytes.len() as u64),
        Err(e) => SliceEnd::Refused(join2("verification failed: ", e.as_str())),
    }
}

/// No slice counts as made that was not read back and verified: the G-code that is
/// in it, against the layer height that was asked for and the bed that it was
/// sliced for.
pub proof fn a_slice_is_verified_before_it_counts(
    ev: Seq<ProofEvent>,
    p: SliceParams,
    meta: SliceMeta,
    size: u64,
)
    requires
        proved(ev, p, SliceEnd::Verified(meta, size)),
    ensures
        ev.len() == 4,
        ev[0] matches ProofEvent::Sliced { params, res: Ok(out) } && {
            &&& params == params_view(p)
            &&& ev[1] matches ProofEvent::Read { path, res: Ok(content) }
            &&& path == out.path@ && content@.len() == size
            &&& ev[2] matches ProofEvent::Gcode { bytes, res: Ok(Some(text)) }
            &&& bytes == content@
            &&& ev[3] matches ProofEvent::Verified { gcode, layer_mm, bed, res }
            &&& gcode == text@
            &&& layer_mm == p.layer_mm@
            &&& bed == bed_view(out.bed)
            &&& res == Ok::<SliceMeta, String>(meta)
        },
{
}

/// A slicer makes a slice only for a bed that its machine profile tells the size
/// of, and that bed goes on with the slice.
pub proof fn a_slice_is_made_for_a_known_bed(
    ev: Seq<RunEvent>,
    s: LiveSlicer,
    p: SliceParams,
    out: SliceOutput,
)
    requires
        sliced(ev, s, p, Ok(out)),
    ensures
        out.bed is Some,
        ev[1] matches RunEvent::Flattened { kind, name, .. } && kind == ProfileKind::Machine && name
            == p.machine_profile@,
        ev[2] matches RunEvent::Bed(Some(bed)) && bed_view(out.bed) == Some(bed@),
{
}

// ── The canned slicer ───────────────────────────────────────────────────────

/// An archive that is being written in memory, by `zip::ZipWriter`.
#[verifier::external_body]
pub struct ZipBuilder {
    inner: zip::ZipWriter<std::io::Cursor<Vec<u8>>>,
}

/// The entries that were written to an archive so far, by name, in order.
pub uninterp spec fn zip_written(w: ZipBuilder) -> Seq<(Seq<char>, Seq<u8>)>;

/// A short name of a file in an archive: printable ASCII, and no directory.
pub open spec fn plain_name(s: Seq<char>) -> bool {
    &&& 0 < s.len() <= 255
    &&& s.last() != '/'
    &&& forall|i: int| 0 <= i < s.len() ==> '!' <= (#[trigger] s[i]) <= '~'
}

/// An entry of this name was written.
pub open spec fn has_entry(entries: Seq<(Seq<char>, Seq<u8>)>, name: Seq<char>) -> bool {
    exists|i: int| 0 <= i < entries.len() && (#[trigger] entries[i]).0 == name
}

/// How many bytes entries hold together.
pub open spec fn entries_size(entries: Seq<(Seq<char>, Seq<u8>)>) -> nat
    decreases entries.len(),
{
    if entries.len() == 0 {
        0
    } else {
        entries_size(entries.drop_last()) + entries.last().1.len()
    }
}

/// An archive of entries that can be written without a fault: it stays far below
/// what the plain format can hold.
pub open spec fn modest(entries: Seq<(Seq<char>, Seq<u8>)>) -> bool {
    entries_size(entries) <= 0x4000_0000
}

/// Each of these entries can be read from the archive.
pub open spec fn holds_entries(z: Seq<u8>, entries: Seq<(Seq<char>, Seq<u8>)>) -> bool {
    forall|i: int|
        0 <= i < entries.len() ==> crate::files::zip_entry_of(z, (#[trigger] entries[i]).0) == Ok::<
            Option<Seq<u8>>,
            Seq<char>,
        >(Some(entries[i].1))
}

/// A new archive in memory, with `zip::ZipWriter::new`: nothing is in it.
#[verifier::external_body]
fn new_zip() -> (w: ZipBuilder)
    ensures
        zip_written(w) == Seq::<(Seq<char>, Seq<u8>)>::empty(),
{
    ZipBuilder { inner: zip::ZipWriter::new(std::io::Cursor::new(Vec::new())) }
}

/// Begins an entry, deflated, with `zip::ZipWriter::start_file`: it comes last and
/// holds nothing yet. A name that is there already is an error, and the only one
/// while the archive is modest.
#[verifier::external_body]
fn start_entry(mut w: ZipBuilder, name: &str) -> (r: Result<ZipBuilder, String>)
    requires
        plain_name(name@),
        zip_written(w).len() < 1000,
    ensures
        r matches Ok(next) ==> zip_written(next) == zip_written(w).push(
            (name@, Seq::<u8>::empty()),
        ),
        has_entry(zip_written(w), name@) ==> r is Err,
        modest(zip_written(w)) && !has_entry(zip_written(w), name@) ==> r is Ok,
{
    let opts = zip::write::SimpleFileOptions::default()
        .compression_method(zip::CompressionMethod::Deflated);
    w.inner.start_file(name, opts).map(|_| w).map_err(|e| e.to_string())
}

/// Entries with more bytes in the last of them.
pub open spec fn with_more(entries: Seq<(Seq<char>, Seq<u8>)>, bytes: Seq<u8>) -> Seq<
    (Seq<char>, Seq<u8>),
> {
    entries.drop_last().push((entries.last().0, entries.last().1 + bytes))
}

/// Writes to the entry that was begun last, with `std::io::Write::write_all` of
/// `zip::ZipWriter`. It works while the archive is modest.
#[verifier::external_body]
fn write_entry(mut w: ZipBuilder, bytes: &[u8]) -> (r: Result<ZipBuilder, String>)
    requires
        zip_written(w).len() > 0,
    ensures
        r matches Ok(next) ==> zip_written(next) == with_more(zip_written(w), bytes@),
        modest(with_more(zip_written(w), bytes@)) ==> r is Ok,
{
    std::io::Write::write_all(&mut w.inner, bytes).map(|_| w).map_err(|e| e.to_string())
}

/// Ends an archive with `zip::ZipWriter::finish`. One that is modest can be ended,
/// and each entry can then be read back as it was written. Of a larger one nothing
/// is said: it may end and still be more than a reader can take.
#[verifier::external_body]
fn finish_zip(w: ZipBuilder) -> (r: Result<Vec<u8>, String>)
    ensures
        modest(zip_written(w)) ==> r is Ok,
        modest(zip_written(w)) ==> (r matches Ok(z) ==> holds_entries(z@, zip_written(w))),
{
    w.inner.finish().map(|c| c.into_inner()).map_err(|e| e.to_string())
}

/// The entries by their views.
pub open spec fn entries_view(entries: Seq<(&str, &[u8])>) -> Seq<(Seq<char>, Seq<u8>)> {
    entries.map_values(|e: (&str, &[u8])| (e.0@, e.1@))
}

/// No name comes twice.
pub open spec fn names_differ(entries: Seq<(Seq<char>, Seq<u8>)>) -> bool {
    forall|i: int, j: int|
        0 <= i < j < entries.len() ==> (#[trigger] entries[i]).0 != (#[trigger] entries[j]).0
}

proof fn lemma_size_grows(entries: Seq<(Seq<char>, Seq<u8>)>, k: int)
    requires
        0 <= k <= entries.len(),
    ensures
        entries_size(entries.take(k)) <= entries_size(entries),
    decreases entries.len(),
{
    if k == entries.len() {
        assert(entries.take(k) =~= entries);
    } else {
        assert(entries.drop_last().take(k) =~= entries.take(k));
        lemma_size_grows(entries.drop_last(), k);
    }
}

/// An archive with these entries. One that is modest is made, and each entry can
/// be read back from it.
fn zip_of(entries: &[(&str, &[u8])]) -> (r: Result<Vec<u8>, String>)
    requires
        entries@.len() < 1000,
        forall|i: int| 0 <= i < entries@.len() ==> plain_name((#[trigger] entries@[i]).0@),
        names_differ(entries_view(entries@)),
    ensures
        modest(entries_view(entries@)) ==> (r matches Ok(z) && holds_entries(
            z@,
            entries_view(entries@),
        )),
        r matches Err(e) ==> {
            ||| "building the fake 3mf: "@.is_prefix_of(e@)
            ||| "finishing the fake 3mf: "@.is_prefix_of(e@)
        },
{
    let ghost all = entries_view(entries@);
    let mut w = new_zip();
    let mut i: usize = 0;
    proof {
        assert(all.take(0) =~= Seq::<(Seq<char>, Seq<u8>)>::empty());
    }
    while i < entries.len()
        invariant
            i <= entries@.len(),
            entries@.len() < 1000,
            all == entries_view(entries@),
            forall|i: int| 0 <= i < entries@.len() ==> plain_name((#[trigger] entries@[i]).0@),
            names_differ(all),
            zip_written(w) == all.take(i as int),
        decreases entries@.len() - i,
    {
        let (name, body) = entries[i];
        let ghost head = all.take(i as int);
        let ghost begun = head.push((name@, Seq::<u8>::empty()));
        proof {
            assert(all[i as int] == (name@, body@));
            if has_entry(head, name@) {
                let k = choose|k: int| 0 <= k < head.len() && (#[trigger] head[k]).0 == name@;
                assert(all[k].0 == all[i as int].0);
            }
            assert(begun.drop_last() =~= head);
            assert(Seq::<u8>::empty() + body@ =~= body@);
            assert(with_more(begun, body@) =~= all.take(i + 1));
            lemma_size_grows(all, i as int);
            lemma_size_grows(all, i + 1);
        }
        let next = match start_entry(w, name) {
            Ok(next) => next,
            Err(e) => {
                return Err(failed_zip("building the fake 3mf: ", e));
            },
        };
        w =
        match write_entry(next, body) {
            Ok(next) => next,
            Err(e) => {
                return Err(failed_zip("building the fake 3mf: ", e));
            },
        };
        i += 1;
    }
    proof {
        assert(all.take(entries@.len() as int) =~= all);
    }
    match finish_zip(w) {
        Ok(z) => Ok(z),
        Err(e) => Err(failed_zip("finishing the fake 3mf: ", e)),
    }
}

fn failed_zip(what: &str, e: String) -> (r: String)
    ensures
        r@ == what@ + e@,
        what@.is_prefix_of(r@),
{
    let r = join2(what, e.as_str());
    proof {
        assert(what@ =~= r@.subrange(0, what@.len() as int));
    }
    r
}

/// A canned slicer, for a server without one. What it makes can be verified as
/// any slice: it names the layer height that was asked for and primes within the
/// bed.
#[derive(Clone, Copy, Debug)]
pub struct FakeSlicer;

/// The G-code of a canned slice.
pub open spec fn fake_slice_text(layer: Seq<char>, filament: Seq<char>) -> Seq<char> {
    "; HEADER_BLOCK_START\n; total layer number: 42\n; layer_height = "@ + layer
        + "\n; filament: "@ + filament
        + "\n; HEADER_BLOCK_END\nM190 S65\nM104 S220\nG28\nG1 Z5 F1200\nG1 X2 Y185 F9000 ; out-of-bed wipe, no extrusion\nG1 X2 Y10 F9000\nG1 X2 Y150 E8 F1200 ; prime, on the bed\n; CHANGE_LAYER\nG1 X60 Y60 E1 F1800\n"@
}

/// What a canned slice says of its plate.
pub open spec fn fake_plate_text(bed_type: Seq<char>) -> Seq<char> {
    "{\"bed_type\":"@ + json_text(bed_type)
        + ",\"filament_colors\":[\"#00AE42\"],\"filament_ids\":[0]}"@
}

/// What the file of a canned slice holds.
pub open spec fn fake_entries(p: SliceParams, md5: Seq<char>) -> Seq<(Seq<char>, Seq<u8>)> {
    seq![
        (
            "Metadata/plate_1.gcode"@,
            vstd::utf8::encode_utf8(fake_slice_text(p.layer_mm@, p.filament@)),
        ),
        ("Metadata/plate_1.gcode.md5"@, vstd::utf8::encode_utf8(md5)),
        ("Metadata/plate_1.json"@, vstd::utf8::encode_utf8(fake_plate_text(p.bed_type@))),
    ]
}

impl FakeSlicer {
    pub fn info(&self) -> (r: Result<crate::slice::SlicerInfo, String>)
        ensures
            r matches Ok(i) && i.kind@ == "fake"@ && !i.thumbnails,
    {
        Ok(crate::slice::SlicerInfo { kind: "fake".to_owned(), thumbnails: false })
    }

    /// Where the canned slice of a job goes, and the bed it is made for: 180 mm by
    /// 180 mm.
    pub fn output(&self, p: &SliceParams) -> (r: SliceOutput)
        ensures
            r.path@ == inside(p.out_dir@, p.out_name@),
            bed_view(r.bed) == Some(("180"@, "180"@)),
    {
        SliceOutput {
            path: join_path(p.out_dir.as_str(), p.out_name.as_str()),
            bed: Some(Bed { x_mm: "180".to_owned(), y_mm: "180".to_owned() }),
        }
    }

    /// The G-code of the canned slice.
    pub fn gcode(&self, p: &SliceParams) -> (r: String)
        ensures
            r@ == fake_slice_text(p.layer_mm@, p.filament@),
    {
        join5(
            "; HEADER_BLOCK_START\n; total layer number: 42\n; layer_height = ",
            p.layer_mm.as_str(),
            "\n; filament: ",
            p.filament.as_str(),
            "\n; HEADER_BLOCK_END\nM190 S65\nM104 S220\nG28\nG1 Z5 F1200\nG1 X2 Y185 F9000 ; out-of-bed wipe, no extrusion\nG1 X2 Y10 F9000\nG1 X2 Y150 E8 F1200 ; prime, on the bed\n; CHANGE_LAYER\nG1 X60 Y60 E1 F1800\n",
        )
    }

    /// The sliced file, with the digest of its G-code. Unless it would be very
    /// large it is made, and the G-code, the digest and what the plate is can be
    /// read back from it.
    pub fn slice(&self, p: &SliceParams, md5: &str) -> (r: Result<Vec<u8>, String>)
        ensures
            modest(fake_entries(*p, md5@)) ==> (r matches Ok(z) && holds_entries(
                z@,
                fake_entries(*p, md5@),
            )),
            r matches Err(e) ==> {
                ||| "building the fake 3mf: "@.is_prefix_of(e@)
                ||| "finishing the fake 3mf: "@.is_prefix_of(e@)
            },
    {
        let gcode = self.gcode(p);
        let bed = match to_json(p.bed_type.as_str()) {
            Ok(t) => t,
            Err(e) => {
                return Err(failed_zip("building the fake 3mf: ", e));
            },
        };
        let plate = join3(
            "{\"bed_type\":",
            bed.as_str(),
            ",\"filament_colors\":[\"#00AE42\"],\"filament_ids\":[0]}",
        );
        let entries: [(&str, &[u8]); 3] = [
            ("Metadata/plate_1.gcode", gcode.as_str().as_bytes()),
            ("Metadata/plate_1.gcode.md5", md5.as_bytes()),
            ("Metadata/plate_1.json", plate.as_str().as_bytes()),
        ];
        proof {
            reveal_strlit("Metadata/plate_1.gcode");
            reveal_strlit("Metadata/plate_1.gcode.md5");
            reveal_strlit("Metadata/plate_1.json");
            assert(entries@[0].0@ == "Metadata/plate_1.gcode"@);
            assert(entries@[1].0@ == "Metadata/plate_1.gcode.md5"@);
            assert(entries@[2].0@ == "Metadata/plate_1.json"@);
            assert("Metadata/plate_1.gcode"@[17] == 'g');
            assert("Metadata/plate_1.json"@[17] == 'j');
            assert(entries_view(entries@) =~= fake_entries(*p, md5@));
        }
        zip_of(entries.as_slice())
    }
}

// ── Laws ────────────────────────────────────────────────────────────────────

proof fn lemma_spawned_ok(ev: Seq<RunEvent>, s: LiveSlicer, p: SliceParams, r: Made)
    requires
        spawned(ev, s, p, r),
        r is Ok,
    ensures
        ev.len() >= 4,
        ev[0] matches RunEvent::LogOpened { path, res } && path == log_path(p) && res is Ok,
        ev[1] matches RunEvent::Spawned { launch, res } && launch == launch_of(s, p) && res is Ok,
        ev[ev.len() - 2] matches RunEvent::Polled(Ok(Some(exit))) && exit.success,
        ev.last() matches RunEvent::Produced { path, there } && there && path == r->Ok_0@ && path
            == inside(p.out_dir@, p.out_name@),
{
    let w = ev.skip(2);
    let k = choose|k: int| #[trigger] waited_at(w, k, s.kind@, p, s.timeout_ms, r);
    let t = w.skip(3 * k);
    assert(t[0] == ev[2 + 3 * k]);
    assert(t.skip(1)[0] == ev[3 + 3 * k]);
    assert(ev.len() == 4 + 3 * k);
}

/// A profile was put together out of the bundle at `root`, by its name and with these
/// changes.
pub open spec fn put_together(
    e: RunEvent,
    root: Seq<char>,
    kind: ProfileKind,
    name: Seq<char>,
    changes: Seq<(Seq<char>, Seq<char>)>,
) -> bool {
    &&& e matches RunEvent::Flattened { root: r, kind: k, name: n, changes: c, res: Ok(_) }
    &&& r == root && k == kind && n == name && c == changes
}

/// A profile was written to this file.
pub open spec fn put_down(e: RunEvent, kind: ProfileKind, path: Seq<char>) -> bool {
    e matches RunEvent::Written { kind: k, path: q, res: Ok(_) } && k == kind && q == path
}

/// A slice that is made is made by this slicer, run on the staged model of the job,
/// with the machine and the filament that were asked for and the process that the
/// request comes to, each out of the slicer's own bundle and written to a file of its
/// own; it is there, where the job wants it, after a slicer that ended well.
pub proof fn a_slice_is_made_as_asked(
    ev: Seq<RunEvent>,
    s: LiveSlicer,
    p: SliceParams,
    out: SliceOutput,
)
    requires
        sliced(ev, s, p, Ok(out)),
        p.out_dir@.len() > 0,
        p.out_dir@.last() != '/',
    ensures
        ev.len() >= 12,
        out.path@ == p.out_dir@ + "/"@ + p.out_name@,
        ev[0] matches RunEvent::Overrides { params, res: Ok(c) } && {
            &&& params.layer_mm == p.layer_mm@
            &&& params.bed_type == p.bed_type@
            &&& params.filament == p.filament@
            &&& params.preset_suffix == p.preset_suffix@
            &&& params.brim_mm == crate::text::opt_text(p.brim_mm)
            &&& put_together(ev[3], s.profiles@, ProfileKind::Process, c.process@, pairs_view(c.changes@))
        },
        put_together(ev[1], s.profiles@, ProfileKind::Machine, p.machine_profile@, Seq::empty()),
        put_together(ev[4], s.profiles@, ProfileKind::Filament, p.filament@, Seq::empty()),
        ev[9] matches RunEvent::Spawned { launch, res: Ok(_) } && {
            &&& launch.bin == s.bin@
            &&& launch.env == pairs_view(s.env@)
            &&& launch.xvfb == s.xvfb
            &&& launch.input == p.input@
            &&& launch.out_dir == p.out_dir@
            &&& launch.out_name == p.out_name@
            &&& put_down(ev[5], ProfileKind::Machine, launch.machine)
            &&& put_down(ev[6], ProfileKind::Process, launch.process)
            &&& put_down(ev[7], ProfileKind::Filament, launch.filament)
            &&& ev[8] matches RunEvent::LogOpened { path, res: Ok(_) }
            &&& path == launch.log
            &&& launch.machine == p.out_dir@ + "/"@ + ("machine"@ + ".json"@)
            &&& launch.process == p.out_dir@ + "/"@ + ("process"@ + ".json"@)
            &&& launch.filament == p.out_dir@ + "/"@ + ("filament"@ + ".json"@)
            &&& launch.log == p.out_dir@ + "/"@ + "slicer.log"@
        },
        ev[ev.len() - 2] matches RunEvent::Polled(Ok(Some(exit))) && exit.success,
        ev.last() == (RunEvent::Produced { path: out.path@, there: true }),
{
    let r = made_at(Ok(out));
    let w = ev.skip(5);
    assert(w[0] == ev[5] && w[1] == ev[6] && w[2] == ev[7]);
    let t = w.skip(3);
    lemma_spawned_ok(t, s, p, r);
    assert(t[0] == ev[8] && t[1] == ev[9]);
    assert(t.last() == ev.last());
    assert(t[t.len() - 2] == ev[ev.len() - 2]);
}

/// A slicer that ended is believed exactly where it ended well and its file is there.
pub proof fn only_a_file_that_is_there_counts(
    ev: Seq<RunEvent>,
    kind: Seq<char>,
    p: SliceParams,
    exit: Exit,
    r: Made,
)
    requires
        judged(ev, kind, p, exit, r),
    ensures
        r is Ok <==> exit.success && ev.len() == 1 && (ev[0] matches RunEvent::Produced {
            path,
            there,
        } && there),
        exit.success ==> ev[0] is Produced && ev[0]->Produced_path == inside(
            p.out_dir@,
            p.out_name@,
        ),
        !exit.success ==> crate::text::has_text(r->Err_0@, exit_text(exit.code)),
{
    if !exit.success {
        let text = ev[0]->LogRead_text;
        let e = r->Err_0@;
        let a = kind + " exited "@;
        let b = " — "@ + tail_of_log(text);
        assert(e =~= a + exit_text(exit.code) + b);
        crate::text::lemma_stands_between(a, exit_text(exit.code), b);
    }
}

/// A slicer is killed if its time is up, as soon as that is seen; one that is in time
/// is let run to its end.
pub proof fn a_slicer_is_killed_only_when_its_time_is_up(
    ev: Seq<RunEvent>,
    kind: Seq<char>,
    p: SliceParams,
    timeout_ms: u64,
    r: Made,
    i: int,
)
    requires
        waited(ev, kind, p, timeout_ms, r),
        ev.len() < 1000000000,
        0 <= i < ev.len(),
    ensures
        ev[i] is Killed ==> i > 0 && ev[i - 1] == RunEvent::Overdue(true),
        ev[i] == RunEvent::Overdue(true) ==> i + 2 == ev.len() && ev[i + 1] is Killed && r is Err,
        ev[i] matches RunEvent::Polled(Ok(Some(_))) ==> !(ev.last() is Killed),
{
    let k = choose|k: int| #[trigger] waited_at(ev, k, kind, p, timeout_ms, r);
    let t = ev.skip(3 * k);
    if i < 3 * k {
        assert(i % 3 == 0 || i % 3 == 1 || i % 3 == 2);
    } else {
        assert(t[i - 3 * k] == ev[i]);
        if i > 3 * k {
            assert(t[i - 3 * k - 1] == ev[i - 1]);
            assert(t.skip(1)[i - 3 * k - 1] == ev[i]);
        }
        if i + 1 < ev.len() {
            assert(t[i - 3 * k + 1] == ev[i + 1]);
        }
    }
    if t[0] matches RunEvent::Polled(Ok(Some(_))) {
        assert(t.skip(1).last() == ev.last());
    }
}

/// A profile is looked for by its name, in its own part of the bundle; what is given
/// is what was read there, and only where it is an object; only what is not there is
/// given as none.
pub proof fn a_profile_is_read_by_its_name(
    ev: Seq<ProfileEvent>,
    root: Seq<char>,
    kind: ProfileKind,
    name: Seq<char>,
    r: Fetched,
)
    requires
        profile_fetched(ev, root, kind, name, r),
        root.len() > 0,
        root.last() != '/',
    ensures
        ev.len() >= 2 ==> (ev[1] matches ProfileEvent::Resolved { path, res } && path == root + "/"@
            + (match kind {
            ProfileKind::Machine => "machine"@,
            ProfileKind::Process => "process"@,
            ProfileKind::Filament => "filament"@,
        }) + "/"@ + (name + ".json"@)),
        r matches Ok(Some(b)) ==> ev.len() == 4 && (ev[3] matches ProfileEvent::Read {
            path,
            res: Looked::Found(bytes),
        } && b == bytes && json_object_in(b@) == Ok::<bool, Seq<char>>(true) && (
        ev[1] matches ProfileEvent::Resolved { path: q, res: Looked::Found(found) } && found@
            == path)),
        (ev.last() matches ProfileEvent::Read { path, res: Looked::Found(bytes) }
            && json_object_in(bytes@) == Ok::<bool, Seq<char>>(true)) ==> (r matches Ok(Some(_))),
        r matches Ok(None) ==> (ev.last() matches ProfileEvent::Resolved {
            path,
            res: Looked::Absent,
        }) || (ev.last() matches ProfileEvent::Read { path, res: Looked::Absent }),
{
    reveal_strlit("machine");
    reveal_strlit("process");
    reveal_strlit("filament");
    let dir = inside(root, kind.dir());
    assert(dir.last() == kind.dir().last());
    assert("machine"@.last() == 'e' && "process"@.last() == 's' && "filament"@.last() == 't');
}

/// What lies in a directory is the directory, or goes on from it behind a separator:
/// a name that only begins alike lies outside.
pub proof fn a_name_that_begins_alike_lies_outside(path: Seq<char>, dir: Seq<char>)
    requires
        dir.len() > 0,
        dir.last() != '/',
    ensures
        lies_in(path, dir) ==> dir.is_prefix_of(path),
        lies_in(path, dir) && path.len() > dir.len() ==> path[dir.len() as int] == '/',
        dir.is_prefix_of(path) && (path.len() == dir.len() || path[dir.len() as int] == '/')
            ==> lies_in(path, dir),
{
    reveal_strlit("/");
    let d = inside(dir, Seq::empty());
    assert(d =~= dir.push('/'));
    if d.is_prefix_of(path) {
        assert(d[dir.len() as int] == path[dir.len() as int]);
        assert forall|i: int| 0 <= i < dir.len() implies dir[i] == path[i] by {
            assert(d[i] == path[i]);
        }
        assert(dir =~= path.subrange(0, dir.len() as int));
    }
    if dir.is_prefix_of(path) {
        if path.len() == dir.len() {
            assert(path =~= dir);
        } else if path[dir.len() as int] == '/' {
            assert forall|i: int| 0 <= i < d.len() implies d[i] == path[i] by {
                if i < dir.len() {
                    assert(dir[i] == path[i]);
                }
            }
            assert(d =~= path.subrange(0, d.len() as int));
        }
    }
}

/// A slice that was made, read back and found to be as it has to be counts.
pub proof fn a_slice_that_holds_counts(ev: Seq<ProofEvent>, p: SliceParams, r: SliceEnd)
    requires
        proved(ev, p, r),
    ensures
        r is Verified <==> ev.len() == 4 && (ev[3] matches ProofEvent::Verified {
            gcode,
            layer_mm,
            bed,
            res,
        } && res is Ok),
        !(r is Lost),
        ev.len() == 4 && ev[3]->Verified_res is Err ==> (r matches SliceEnd::Refused(e)
            && crate::text::has_text(e@, ev[3]->Verified_res->Err_0@)),
{
    if ev.len() == 4 && ev[3]->Verified_res is Err {
        let e = r->Refused_0@;
        let x = ev[3]->Verified_res->Err_0@;
        let a = "verification failed: "@;
        assert(e =~= a + x + Seq::<char>::empty());
        crate::text::lemma_stands_between(a, x, Seq::empty());
    }
}

/// A canned slice says which layers and which filament it was asked for, and for which
/// plate.
pub proof fn a_canned_slice_tells_what_it_is(p: SliceParams, md5: Seq<char>)
    ensures
        crate::text::has_text(
            fake_slice_text(p.layer_mm@, p.filament@),
            "; layer_height = "@ + p.layer_mm@,
        ),
        crate::text::has_text(
            fake_slice_text(p.layer_mm@, p.filament@),
            "; filament: "@ + p.filament@,
        ),
        crate::text::has_text(fake_plate_text(p.bed_type@), "\"bed_type\":"@ + json_text(p.bed_type@)),
        fake_entries(p, md5).len() == 3,
        fake_entries(p, md5)[0] == (
            "Metadata/plate_1.gcode"@,
            vstd::utf8::encode_utf8(fake_slice_text(p.layer_mm@, p.filament@)),
        ),
        fake_entries(p, md5)[1] == (
            "Metadata/plate_1.gcode.md5"@,
            vstd::utf8::encode_utf8(md5),
        ),
        fake_entries(p, md5)[2] == (
            "Metadata/plate_1.json"@,
            vstd::utf8::encode_utf8(fake_plate_text(p.bed_type@)),
        ),
{
    reveal_strlit("; HEADER_BLOCK_START\n; total layer number: 42\n; layer_height = ");
    reveal_strlit("; layer_height = ");
    reveal_strlit("\n; filament: ");
    reveal_strlit("; filament: ");
    reveal_strlit("{\"bed_type\":");
    reveal_strlit("\"bed_type\":");
    let text = fake_slice_text(p.layer_mm@, p.filament@);
    let h = "; HEADER_BLOCK_START\n; total layer number: 42\n; layer_height = "@;
    let l = "; layer_height = "@ + p.layer_mm@;
    let at = h.len() - "; layer_height = "@.len();
    assert(text.subrange(at, at + l.len()) =~= l);
    assert(crate::text::text_at(text, l, at));
    let f = "; filament: "@ + p.filament@;
    let from = h.len() + p.layer_mm@.len() + 1;
    assert(text.subrange(from as int, (from + f.len()) as int) =~= f);
    assert(crate::text::text_at(text, f, from as int));
    let plate = fake_plate_text(p.bed_type@);
    let b = "\"bed_type\":"@ + json_text(p.bed_type@);
    assert(plate.subrange(1, (1 + b.len()) as int) =~= b);
    assert(crate::text::text_at(plate, b, 1));
}

proof fn lemma_no_space_to_take(s: Seq<char>)
    requires
        s.len() > 0,
        !crate::text::is_space(s.first()),
        !crate::text::is_space(s.last()),
    ensures
        trimmed(s, Strip::Space) == s,
{
}

/// A short log is shown as it is, and of a long one its end.
pub proof fn the_end_of_a_log_is_shown(a: Seq<char>, b: Seq<char>)
    requires
        0 < b.len() <= 1500,
        a.len() == 0 || b.len() == 1500,
        !crate::text::is_space(b.first()),
        !crate::text::is_space(b.last()),
    ensures
        tail_of_log(a + b) == b,
{
    assert(last_chars(a + b, 1500) =~= b);
    lemma_no_space_to_take(b);
}

} // verus!
