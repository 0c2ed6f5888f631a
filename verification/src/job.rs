//! Starting a print: of a file on the printer, and of one that is uploaded for
//! it.
//!
//! What a start does outside goes through a [`StartPort`], and a [`StartTap`]
//! keeps the log of it: every question and its answer, in order. The contracts
//! are over that log, so that they say what was done as well as what was
//! answered.
use vstd::prelude::*;

use crate::files::FileEntry;
use crate::hook::{hook_failed, hook_reply, HookError};
use crate::number::{decimal, digits, signed_decimal, signed_digits};
use crate::paths::{is_safe_remote_path, safe_remote_path};
use crate::reply::{
    answered, bad, bad_request, busy, conflict, opt_reply, or_refuse, refused, reply,
    require_idle, verify_response, Answer, CommandOutcome, ControlError, Refusal, Reply, Task,
};
use crate::start::{is_three_mf, PlateInspection, StartRequest};
use crate::text::{
    debug_text, ends_with, join2, join3, join4, join5, lower, opt_text, quoted, to_lower,
};

verus! {

// ── The outside ─────────────────────────────────────────────────────────────

/// What a start asks of the outside.
pub trait StartPort {
    /// Fetch a file from the printer and inspect one of its plates. The outer
    /// error is a task that was lost.
    fn inspect(&mut self, file: &str, plate: u32) -> Result<Result<PlateInspection, String>, String>;

    /// Inspect a plate of a file on this side.
    fn inspect_staged(&mut self, local: &str, plate: u32) -> Task<
        Result<PlateInspection, String>,
    >;

    /// Whether a tray map can be spread over the filaments that a plate uses; why
    /// not, where it cannot.
    fn ams_map_fits(&mut self, map: &Vec<i32>, filament_ids: &Vec<u32>) -> Result<(), String>;

    /// Take the lock that starts are serialised by, to be held until the start is
    /// over; whether it was free.
    fn try_lock(&mut self) -> bool;

    /// The state the printer last reported.
    fn gcode_state(&mut self) -> Option<String>;

    /// The printer's pre-print sequence; none where it has none.
    fn hook_name(&mut self) -> Option<String>;

    /// Say whether the pre-print sequence is driving the machine.
    fn set_hook_running(&mut self, running: bool);

    /// Run the pre-print sequence to its end.
    fn run_hook(&mut self) -> Task<Result<(), HookError>>;

    /// List a directory of the printer; none where that failed.
    fn list(&mut self, dir: &str) -> Option<Vec<FileEntry>>;

    /// Receive the request's body into a file on this side, held to the limit or
    /// not; where it is.
    fn stage(&mut self, limited: bool) -> Result<String, Reply>;

    /// Upload a file on this side.
    fn upload(&mut self, local: &str, remote: &str) -> Task<Result<(), String>>;

    /// Start the print.
    fn start(&mut self, req: &StartRequest) -> Task<Result<CommandOutcome, ControlError>>;
}

/// One question to the outside and its answer.
#[allow(inconsistent_fields)]
pub enum StartEvent {
    Inspected {
        file: Seq<char>,
        plate: u32,
        res: Result<Result<PlateInspection, String>, String>,
    },
    StagedInspected { local: Seq<char>, plate: u32, res: Task<Result<PlateInspection, String>> },
    MapChecked { map: Seq<i32>, filament_ids: Seq<u32>, res: Result<(), String> },
    Locked(bool),
    State(Option<Seq<char>>),
    HookName(Option<Seq<char>>),
    HookFlag(bool),
    HookRan(Task<Result<(), HookError>>),
    Listed { dir: Seq<char>, res: Option<Seq<FileEntry>> },
    Staged { limited: bool, res: Result<Seq<char>, Refusal> },
    Uploaded { local: Seq<char>, remote: Seq<char>, res: Task<Result<(), String>> },
    Started { req: StartRequest, res: Task<Result<CommandOutcome, ControlError>> },
}

/// A listing that may have failed, by its entries.
pub open spec fn opt_entries(v: Option<Vec<FileEntry>>) -> Option<Seq<FileEntry>> {
    match v {
        Some(e) => Some(e@),
        None => None,
    }
}

/// The result of staging, by its path or its refusal.
pub open spec fn staged_view(r: Result<String, Reply>) -> Result<Seq<char>, Refusal> {
    match r {
        Ok(path) => Ok(path@),
        Err(reply) => Err(reply@),
    }
}

/// A port and the log of what went through it.
pub struct StartTap<P> {
    port: P,
    events: Ghost<Seq<StartEvent>>,
}

impl<P: StartPort> StartTap<P> {
    /// What went through the port so far.
    pub closed spec fn log(self) -> Seq<StartEvent> {
        self.events@
    }

    /// The port as it is now.
    pub closed spec fn inner(self) -> P {
        self.port
    }

    pub fn new(port: P) -> (r: StartTap<P>)
        ensures
            r.inner() == port,
            r.log() == Seq::<StartEvent>::empty(),
    {
        StartTap { port, events: Ghost(Seq::empty()) }
    }

    /// The port again.
    pub fn into_port(self) -> (r: P)
        ensures
            r == self.inner(),
    {
        self.port
    }

    fn inspect(&mut self, file: &str, plate: u32) -> (r: Result<
        Result<PlateInspection, String>,
        String,
    >)
        ensures
            final(self).log() == old(self).log().push(
                StartEvent::Inspected { file: file@, plate, res: r },
            ),
    {
        let r = self.port.inspect(file, plate);
        self.events =
        Ghost(self.events@.push(StartEvent::Inspected { file: file@, plate, res: r }));
        r
    }

    pub(crate) fn inspect_staged(&mut self, local: &str, plate: u32) -> (r: Task<
        Result<PlateInspection, String>,
    >)
        ensures
            final(self).log() == old(self).log().push(
                StartEvent::StagedInspected { local: local@, plate, res: r },
            ),
    {
        let r = self.port.inspect_staged(local, plate);
        self.events =
        Ghost(self.events@.push(StartEvent::StagedInspected { local: local@, plate, res: r }));
        r
    }

    fn ams_map_fits(&mut self, map: &Vec<i32>, filament_ids: &Vec<u32>) -> (r: Result<
        (),
        String,
    >)
        ensures
            final(self).log() == old(self).log().push(
                StartEvent::MapChecked { map: map@, filament_ids: filament_ids@, res: r },
            ),
    {
        let r = self.port.ams_map_fits(map, filament_ids);
        self.events =
        Ghost(
            self.events@.push(
                StartEvent::MapChecked { map: map@, filament_ids: filament_ids@, res: r },
            ),
        );
        r
    }

    pub(crate) fn try_lock(&mut self) -> (r: bool)
        ensures
            final(self).log() == old(self).log().push(StartEvent::Locked(r)),
    {
        let r: bool = self.port.try_lock();
        self.events = Ghost(self.events@.push(StartEvent::Locked(r)));
        r
    }

    pub(crate) fn gcode_state(&mut self) -> (r: Option<String>)
        ensures
            final(self).log() == old(self).log().push(StartEvent::State(opt_text(r))),
    {
        let r = self.port.gcode_state();
        self.events = Ghost(self.events@.push(StartEvent::State(opt_text(r))));
        r
    }

    pub(crate) fn hook_name(&mut self) -> (r: Option<String>)
        ensures
            final(self).log() == old(self).log().push(StartEvent::HookName(opt_text(r))),
    {
        let r = self.port.hook_name();
        self.events = Ghost(self.events@.push(StartEvent::HookName(opt_text(r))));
        r
    }

    fn set_hook_running(&mut self, running: bool)
        ensures
            final(self).log() == old(self).log().push(StartEvent::HookFlag(running)),
    {
        self.port.set_hook_running(running);
        self.events = Ghost(self.events@.push(StartEvent::HookFlag(running)));
    }

    fn run_hook(&mut self) -> (r: Task<Result<(), HookError>>)
        ensures
            final(self).log() == old(self).log().push(StartEvent::HookRan(r)),
    {
        let r = self.port.run_hook();
        self.events = Ghost(self.events@.push(StartEvent::HookRan(r)));
        r
    }

    pub(crate) fn list(&mut self, dir: &str) -> (r: Option<Vec<FileEntry>>)
        ensures
            final(self).log() == old(self).log().push(
                StartEvent::Listed { dir: dir@, res: opt_entries(r) },
            ),
    {
        let r = self.port.list(dir);
        self.events = Ghost(self.events@.push(StartEvent::Listed { dir: dir@, res: opt_entries(r) }));
        r
    }

    pub(crate) fn stage(&mut self, limited: bool) -> (r: Result<String, Reply>)
        ensures
            final(self).log() == old(self).log().push(
                StartEvent::Staged { limited, res: staged_view(r) },
            ),
    {
        let r = self.port.stage(limited);
        self.events = Ghost(self.events@.push(StartEvent::Staged { limited, res: staged_view(r) }));
        r
    }

    pub(crate) fn upload(&mut self, local: &str, remote: &str) -> (r: Task<Result<(), String>>)
        ensures
            final(self).log() == old(self).log().push(
                StartEvent::Uploaded { local: local@, remote: remote@, res: r },
            ),
    {
        let r = self.port.upload(local, remote);
        self.events =
        Ghost(
            self.events@.push(StartEvent::Uploaded { local: local@, remote: remote@, res: r }),
        );
        r
    }

    fn start(&mut self, req: &StartRequest) -> (r: Task<Result<CommandOutcome, ControlError>>)
        ensures
            final(self).log() == old(self).log().push(StartEvent::Started { req: *req, res: r }),
    {
        let r = self.port.start(req);
        self.events = Ghost(self.events@.push(StartEvent::Started { req: *req, res: r }));
        r
    }
}

// ── The hook, and the start itself ──────────────────────────────────────────

/// What a start request asks for.
#[verifier::ext_equal]
pub struct Wanted {
    pub file: Seq<char>,
    pub plate: u32,
    pub use_ams: bool,
    pub ams_map: Seq<i32>,
    pub bed_type: Seq<char>,
    pub timelapse: bool,
    pub inspection: Option<PlateInspection>,
}

/// What a start request asks for.
pub open spec fn wants(r: StartRequest) -> Wanted {
    Wanted {
        file: r.file@,
        plate: r.plate,
        use_ams: r.use_ams,
        ams_map: r.ams_map@,
        bed_type: r.bed_type@,
        timelapse: r.timelapse,
        inspection: r.inspection,
    }
}

/// `ev` is the start of `w` and nothing else, and `r` answers for it.
pub open spec fn started(ev: Seq<StartEvent>, w: Wanted, r: Answer) -> bool {
    &&& ev.len() == 1
    &&& ev[0] matches StartEvent::Started { req, res }
    &&& wants(req) == w
    &&& answered(res, r)
}

/// `ev` runs the pre-print sequence, where there is one, flagged for exactly as
/// long as it runs, and then starts `w`; a sequence that did not complete is the
/// end of it.
pub open spec fn hooked_start(ev: Seq<StartEvent>, w: Wanted, r: Answer) -> bool {
    &&& ev.len() >= 1
    &&& ev[0] matches StartEvent::HookName(name)
    &&& match name {
        None => started(ev.skip(1), w, r),
        Some(_) => {
            &&& ev.len() >= 4
            &&& ev[1] == StartEvent::HookFlag(true)
            &&& ev[2] matches StartEvent::HookRan(o)
            &&& ev[3] == StartEvent::HookFlag(false)
            &&& match hook_failed(o) {
                Some(why) => ev.len() == 4 && refused(r, why),
                None => started(ev.skip(4), w, r),
            }
        },
    }
}

/// Run the printer's pre-print sequence, if it has one. A refusal means that the
/// print must not be started. It comes after everything that can refuse the
/// print and immediately before the start.
fn run_pre_print_hook<P: StartPort>(tap: &mut StartTap<P>) -> (r: Option<Reply>)
    ensures
        old(tap).log().is_prefix_of(final(tap).log()),
        ({
            let ev = final(tap).log().skip(old(tap).log().len() as int);
            &&& ev.len() >= 1
            &&& ev[0] matches StartEvent::HookName(name)
            &&& match name {
                None => ev.len() == 1 && r is None,
                Some(_) => {
                    &&& ev.len() == 4
                    &&& ev[1] == StartEvent::HookFlag(true)
                    &&& ev[2] matches StartEvent::HookRan(o)
                    &&& ev[3] == StartEvent::HookFlag(false)
                    &&& opt_reply(r) == hook_failed(o)
                },
            }
        }),
{
    if tap.hook_name().is_none() {
        return None;
    }
    tap.set_hook_running(true);
    let outcome = tap.run_hook();
    tap.set_hook_running(false);
    hook_reply(&outcome)
}

pub(crate) fn hook_and_start<P: StartPort>(tap: &mut StartTap<P>, req: StartRequest) -> (r: Answer)
    ensures
        old(tap).log().is_prefix_of(final(tap).log()),
        hooked_start(final(tap).log().skip(old(tap).log().len() as int), wants(req), r),
{
    let ghost start = tap.log();
    let ghost s = start.len() as int;
    if let Some(failed) = run_pre_print_hook(tap) {
        return Answer::Refused(failed);
    }
    let ghost mid = tap.log();
    let res = tap.start(&req);
    proof {
        let ev = tap.log().skip(s);
        let k = mid.len() - s;
        assert(ev.skip(k) =~= seq![tap.log().last()]);
        assert(forall|i: int| 0 <= i < k ==> ev[i] == #[trigger] mid.skip(s)[i]);
        assert(tap.log().subrange(0, s) =~= mid.subrange(0, s));
    }
    verify_response(res)
}

// ── A file on the printer ───────────────────────────────────────────────────

/// A start as it was asked for.
#[derive(Debug)]
pub struct StartBody {
    pub file: String,
    pub plate: u32,
    pub confirm: bool,
    pub use_ams: bool,
    pub ams_map: Vec<i32>,
    pub bed_type: Option<String>,
    pub timelapse: bool,
    /// Say what would be started, and start nothing.
    pub dry_run: bool,
}

/// What a dry run says would be done.
#[derive(Debug)]
pub struct Plan {
    pub file: String,
    pub plate: u32,
    pub use_ams: bool,
    pub ams_map: Vec<i32>,
    pub bed_type: String,
    pub timelapse: bool,
    /// The plate parks on every layer; none where that is not known.
    pub has_timelapse_blocks: Option<bool>,
    /// The sequence that would run first.
    pub pre_print: Option<String>,
    /// The plate's digest, where the plate was inspected.
    pub md5: Option<String>,
    pub overwrite: Option<bool>,
    /// The slice that has to be named to confirm.
    pub expect: Option<u64>,
}

/// What a request to start a print is answered.
#[derive(Debug)]
pub enum StartAnswer {
    Plan(Plan),
    Answer(Answer),
}

/// `r` is this refusal.
pub open spec fn start_refused(r: StartAnswer, why: Refusal) -> bool {
    r matches StartAnswer::Answer(a) && refused(a, why)
}

/// A file of a kind that can be printed.
pub open spec fn printable(file: Seq<char>) -> bool {
    is_three_mf(file) || ".gcode"@.is_suffix_of(lower(file))
}

/// The first entry of a tray map that names no tray: 0 to 3, or -1 for the
/// external spool.
pub open spec fn bad_tray(map: Seq<i32>) -> Option<int>
    decreases map.len(),
{
    if map.len() == 0 {
        None
    } else {
        match bad_tray(map.drop_last()) {
            Some(i) => Some(i),
            None => if -1 <= map.last() <= 3 {
                None
            } else {
                Some(map.len() - 1)
            },
        }
    }
}

pub open spec fn bad_ams_map(use_ams: bool, map: Seq<i32>) -> Option<Refusal> {
    if !use_ams {
        None
    } else {
        match bad_tray(map) {
            Some(i) => Some(
                bad(
                    "ams_map["@ + digits(i as nat) + "]="@ + signed_digits(map[i] as int)
                        + " out of range (trays 0..3, or -1 external)"@,
                ),
            ),
            None => None,
        }
    }
}

proof fn lemma_bad_tray(map: Seq<i32>, i: int)
    requires
        0 <= i <= map.len(),
        forall|j: int| 0 <= j < i ==> -1 <= (#[trigger] map[j]) <= 3,
    ensures
        i == map.len() ==> bad_tray(map) is None,
        i < map.len() && !(-1 <= map[i] <= 3) ==> bad_tray(map) == Some(i),
    decreases map.len(),
{
    if map.len() > 0 {
        if i == map.len() {
            lemma_bad_tray(map.drop_last(), i - 1);
            assert(-1 <= map[i - 1] <= 3);
        } else {
            lemma_bad_tray(map.drop_last(), i);
        }
    }
}

/// The refusal of a tray map that names something else than a tray.
pub fn ams_map_refusal(use_ams: bool, map: &Vec<i32>) -> (r: Option<Reply>)
    ensures
        opt_reply(r) == bad_ams_map(use_ams, map@),
{
    if !use_ams {
        return None;
    }
    let mut i: usize = 0;
    while i < map.len()
        invariant
            i <= map@.len(),
            use_ams,
            forall|j: int| 0 <= j < i ==> -1 <= (#[trigger] map@[j]) <= 3,
        decreases map@.len() - i,
    {
        if !(-1 <= map[i] && map[i] <= 3) {
            proof {
                lemma_bad_tray(map@, i as int);
            }
            let n = decimal(i as u64);
            let v = signed_decimal(map[i] as i64);
            let head = join4("ams_map[", n.as_str(), "]=", v.as_str());
            return Some(
                bad_request(
                    join2(head.as_str(), " out of range (trays 0..3, or -1 external)"),
                ),
            );
        }
        i += 1;
    }
    proof {
        lemma_bad_tray(map@, i as int);
    }
    None
}

/// What is wrong with a start whatever the printer is doing.
pub open spec fn start_invalid(b: StartBody) -> Option<Refusal> {
    let path = if safe_remote_path(b.file@) {
        None
    } else {
        Some(bad("file must be an absolute printer path: "@ + debug_text(b.file@)))
    };
    let kind = if printable(b.file@) {
        None
    } else {
        Some(bad("file must be a .3mf or .gcode"@))
    };
    or_refuse(or_refuse(path, kind), bad_ams_map(b.use_ams, b.ams_map@))
}

/// With a tray map the plate has to be inspected: only it says which filament
/// each tray is for.
pub open spec fn needs_inspection(b: StartBody) -> bool {
    b.use_ams && is_three_mf(b.file@)
}

/// How a tray map that does not go with its plate is refused.
pub open spec fn misfit(b: StartBody, why: Seq<char>) -> Refusal {
    bad("ams_map "@ + why + " ("@ + b.file@ + " plate "@ + digits(b.plate as nat) + ")"@)
}

/// The refusal of a tray map, after what it was found to be. One that has not
/// exactly one tray for each filament is never sent, whatever it was found to be:
/// the printer would print in the materials that the file was made with.
pub open spec fn map_refusal(
    b: StartBody,
    filament_ids: Seq<u32>,
    verdict: Result<(), String>,
) -> Option<Refusal> {
    match verdict {
        Err(why) => Some(misfit(b, why@)),
        Ok(_) => if b.ams_map@.len() == filament_ids.len() {
            None
        } else {
            Some(
                misfit(
                    b,
                    "needs one tray for each of the "@ + digits(filament_ids.len())
                        + " filaments"@,
                ),
            )
        },
    }
}

/// The refusal of a start whose plate could not be inspected.
pub open spec fn inspection_refusal(
    b: StartBody,
    res: Result<Result<PlateInspection, String>, String>,
) -> Option<Refusal> {
    match res {
        Ok(Ok(_)) => None,
        Ok(Err(e)) => Some(
            bad("cannot inspect "@ + b.file@ + " to resolve the AMS mapping: "@ + e@),
        ),
        Err(e) => Some(bad("inspection task failed: "@ + e@)),
    }
}

/// The plate type a start names, or `auto`.
pub open spec fn bed_or_auto(bed_type: Option<Seq<char>>) -> Seq<char> {
    match bed_type {
        Some(t) => t,
        None => "auto"@,
    }
}

pub fn bed_type_or_auto(bed_type: &Option<String>) -> (r: String)
    ensures
        r@ == bed_or_auto(opt_text(*bed_type)),
{
    match bed_type {
        Some(t) => t.clone(),
        None => "auto".to_owned(),
    }
}

/// What a start asks the printer for.
pub open spec fn wanted(b: StartBody, inspection: Option<PlateInspection>) -> Wanted {
    Wanted {
        file: b.file@,
        plate: b.plate,
        use_ams: b.use_ams,
        ams_map: b.ams_map@,
        bed_type: bed_or_auto(opt_text(b.bed_type)),
        timelapse: b.timelapse,
        inspection,
    }
}

/// The dry run of a start says what it would ask for.
pub open spec fn plans(p: Plan, b: StartBody, blocks: Option<bool>, hook: Option<Seq<char>>) -> bool {
    &&& p.file@ == b.file@
    &&& p.plate == b.plate
    &&& p.use_ams == b.use_ams
    &&& p.ams_map@ == b.ams_map@
    &&& p.bed_type@ == bed_or_auto(opt_text(b.bed_type))
    &&& p.timelapse == b.timelapse
    &&& p.has_timelapse_blocks == blocks
    &&& opt_text(p.pre_print) == hook
    &&& p.md5 is None && p.overwrite is None && p.expect is None
}

/// Whether a best-effort inspection says that the plate parks on every layer.
pub open spec fn blocks_of(res: Result<Result<PlateInspection, String>, String>) -> Option<bool> {
    match res {
        Ok(Ok(insp)) => Some(insp.has_timelapse_blocks),
        _ => None,
    }
}

/// `ev` is a dry run: at most a look at the file, and the name of the sequence.
pub open spec fn dry_run_of(ev: Seq<StartEvent>, b: StartBody, r: StartAnswer) -> bool {
    if is_three_mf(b.file@) {
        &&& ev.len() == 2
        &&& ev[0] matches StartEvent::Inspected { file, plate, res }
        &&& file == b.file@ && plate == b.plate
        &&& ev[1] matches StartEvent::HookName(hook)
        &&& r matches StartAnswer::Plan(p)
        &&& plans(p, b, blocks_of(res), hook)
    } else {
        &&& ev.len() == 1
        &&& ev[0] matches StartEvent::HookName(hook)
        &&& r matches StartAnswer::Plan(p)
        &&& plans(p, b, None, hook)
    }
}

/// `ev` takes the lock, finds the printer idle, and goes on to the sequence and
/// the start; a lock that is taken or a busy printer is the end of it.
pub open spec fn locked_start(ev: Seq<StartEvent>, w: Wanted, r: Answer) -> bool {
    &&& ev.len() >= 1
    &&& ev[0] matches StartEvent::Locked(free)
    &&& if !free {
        ev.len() == 1 && refused(r, conflict("a print start is already in progress"@))
    } else {
        &&& ev.len() >= 2
        &&& ev[1] matches StartEvent::State(state)
        &&& match busy(state) {
            Some(why) => ev.len() == 2 && refused(r, why),
            None => hooked_start(ev.skip(2), w, r),
        }
    }
}

/// `ev` is what a start does once its plate is dealt with: a dry run, or with
/// confirmation the start.
pub open spec fn resolved_start(
    ev: Seq<StartEvent>,
    b: StartBody,
    inspection: Option<PlateInspection>,
    r: StartAnswer,
) -> bool {
    if b.dry_run {
        dry_run_of(ev, b, r)
    } else if !b.confirm {
        ev.len() == 0 && start_refused(
            r,
            (428u16, "confirm required: POST {\"confirm\": true} (try dry_run first)"@),
        )
    } else {
        r matches StartAnswer::Answer(a) && locked_start(ev, wanted(b, inspection), a)
    }
}

/// `ev` is all that a start does outside, and `r` what it is answered.
pub open spec fn job_started(ev: Seq<StartEvent>, b: StartBody, r: StartAnswer) -> bool {
    match start_invalid(b) {
        Some(why) => ev.len() == 0 && start_refused(r, why),
        None => if needs_inspection(b) {
            &&& ev.len() >= 1
            &&& ev[0] matches StartEvent::Inspected { file, plate, res }
            &&& file == b.file@ && plate == b.plate
            &&& match inspection_refusal(b, res) {
                Some(why) => ev.len() == 1 && start_refused(r, why),
                None => {
                    let insp = res->Ok_0->Ok_0;
                    &&& ev.len() >= 2
                    &&& ev[1] matches StartEvent::MapChecked { map, filament_ids, res: verdict }
                    &&& map == b.ams_map@ && filament_ids == insp.filament_ids@
                    &&& match map_refusal(b, insp.filament_ids@, verdict) {
                        Some(why) => ev.len() == 2 && start_refused(r, why),
                        None => resolved_start(ev.skip(2), b, Some(insp), r),
                    }
                },
            }
        } else {
            resolved_start(ev, b, None, r)
        },
    }
}

fn start_refusal(b: &StartBody) -> (r: Option<Reply>)
    ensures
        opt_reply(r) == start_invalid(*b),
{
    if !is_safe_remote_path(b.file.as_str()) {
        let q = quoted(b.file.as_str());
        return Some(
            bad_request(join2("file must be an absolute printer path: ", q.as_str())),
        );
    }
    let lowered = to_lower(b.file.as_str());
    if !(ends_with(lowered.as_str(), ".3mf") || ends_with(lowered.as_str(), ".gcode")) {
        return Some(bad_request("file must be a .3mf or .gcode".to_owned()));
    }
    ams_map_refusal(b.use_ams, &b.ams_map)
}

fn inspected_or_refused(
    b: &StartBody,
    res: Result<Result<PlateInspection, String>, String>,
) -> (r: Result<PlateInspection, Reply>)
    ensures
        match r {
            Ok(insp) => inspection_refusal(*b, res) is None && res == Ok::<
                Result<PlateInspection, String>,
                String,
            >(Ok(insp)),
            Err(reply) => inspection_refusal(*b, res) == Some(reply@),
        },
{
    match res {
        Ok(Ok(insp)) => Ok(insp),
        Ok(Err(e)) => Err(
            bad_request(
                join4(
                    "cannot inspect ",
                    b.file.as_str(),
                    " to resolve the AMS mapping: ",
                    e.as_str(),
                ),
            ),
        ),
        Err(e) => Err(bad_request(join2("inspection task failed: ", e.as_str()))),
    }
}

fn misfit_reply(b: &StartBody, why: &str) -> (r: Reply)
    ensures
        r@ == misfit(*b, why@),
{
    let n = decimal(b.plate as u64);
    let head = join5("ams_map ", why, " (", b.file.as_str(), " plate ");
    let mut m = join2(head.as_str(), n.as_str());
    m.append(")");
    bad_request(m)
}

fn map_or_refusal(b: &StartBody, filament_ids: &Vec<u32>, verdict: Result<(), String>) -> (r:
    Option<Reply>)
    ensures
        opt_reply(r) == map_refusal(*b, filament_ids@, verdict),
{
    match verdict {
        Err(why) => Some(misfit_reply(b, why.as_str())),
        Ok(_) => if b.ams_map.len() == filament_ids.len() {
            None
        } else {
            let n = decimal(filament_ids.len() as u64);
            let why = join3("needs one tray for each of the ", n.as_str(), " filaments");
            Some(misfit_reply(b, why.as_str()))
        },
    }
}

fn lock_and_start<P: StartPort>(tap: &mut StartTap<P>, req: StartRequest) -> (r: Answer)
    ensures
        old(tap).log().is_prefix_of(final(tap).log()),
        locked_start(final(tap).log().skip(old(tap).log().len() as int), wants(req), r),
{
    let ghost s = tap.log().len() as int;
    if !tap.try_lock() {
        return Answer::Refused(reply(409, "a print start is already in progress".to_owned()));
    }
    let state = tap.gcode_state();
    if let Some(why) = require_idle(&state) {
        return Answer::Refused(why);
    }
    let ghost mid = tap.log();
    let r = hook_and_start(tap, req);
    proof {
        let ev = tap.log().skip(s);
        assert(mid.len() == s + 2);
        assert(tap.log().subrange(0, mid.len() as int) =~= mid);
        assert(ev.skip(2) =~= tap.log().skip(mid.len() as int));
        assert(ev[0] == mid[s]);
        assert(ev[1] == mid[s + 1]);
        assert(tap.log().subrange(0, s) =~= mid.subrange(0, s));
    }
    r
}

fn resolved<P: StartPort>(
    tap: &mut StartTap<P>,
    b: &StartBody,
    inspection: Option<PlateInspection>,
) -> (r: StartAnswer)
    ensures
        old(tap).log().is_prefix_of(final(tap).log()),
        resolved_start(final(tap).log().skip(old(tap).log().len() as int), *b, inspection, r),
{
    if b.dry_run {
        let lowered = to_lower(b.file.as_str());
        let has_timelapse_blocks: Option<bool> = if ends_with(lowered.as_str(), ".3mf") {
            match tap.inspect(b.file.as_str(), b.plate) {
                Ok(Ok(insp)) => Some(insp.has_timelapse_blocks),
                _ => None,
            }
        } else {
            None
        };
        let pre_print = tap.hook_name();
        return StartAnswer::Plan(
            Plan {
                file: b.file.clone(),
                plate: b.plate,
                use_ams: b.use_ams,
                ams_map: b.ams_map.clone(),
                bed_type: bed_type_or_auto(&b.bed_type),
                timelapse: b.timelapse,
                has_timelapse_blocks,
                pre_print,
                md5: None,
                overwrite: None,
                expect: None,
            },
        );
    }
    if !b.confirm {
        return StartAnswer::Answer(
            Answer::Refused(
                reply(
                    428,
                    "confirm required: POST {\"confirm\": true} (try dry_run first)".to_owned(),
                ),
            ),
        );
    }
    let req = StartRequest {
        file: b.file.clone(),
        plate: b.plate,
        use_ams: b.use_ams,
        ams_map: b.ams_map.clone(),
        bed_type: bed_type_or_auto(&b.bed_type),
        timelapse: b.timelapse,
        inspection,
    };
    proof {
        assert(wants(req) =~= wanted(*b, inspection));
    }
    StartAnswer::Answer(lock_and_start(tap, req))
}

/// Start a print of a file on the printer: the file and the tray map are
/// checked, a dry run says what would be done, a start needs confirmation and an
/// idle printer, and the pre-print sequence runs first.
pub fn job_start<P: StartPort>(tap: &mut StartTap<P>, b: &StartBody) -> (r: StartAnswer)
    ensures
        old(tap).log().is_prefix_of(final(tap).log()),
        job_started(final(tap).log().skip(old(tap).log().len() as int), *b, r),
{
    let ghost s = tap.log().len() as int;
    if let Some(why) = start_refusal(b) {
        return StartAnswer::Answer(Answer::Refused(why));
    }
    let lowered = to_lower(b.file.as_str());
    if b.use_ams && ends_with(lowered.as_str(), ".3mf") {
        let res = tap.inspect(b.file.as_str(), b.plate);
        match inspected_or_refused(b, res) {
            Err(why) => StartAnswer::Answer(Answer::Refused(why)),
            Ok(insp) => {
                let verdict = tap.ams_map_fits(&b.ams_map, &insp.filament_ids);
                let ghost mid = tap.log();
                if let Some(why) = map_or_refusal(b, &insp.filament_ids, verdict) {
                    return StartAnswer::Answer(Answer::Refused(why));
                }
                let r = resolved(tap, b, Some(insp));
                proof {
                    let ev = tap.log().skip(s);
                    assert(tap.log().subrange(0, mid.len() as int) =~= mid);
                    assert(ev.skip(2) =~= tap.log().skip(mid.len() as int));
                    assert(ev[0] == mid[s]);
                    assert(ev[1] == mid[s + 1]);
                    assert(tap.log().subrange(0, s) =~= mid.subrange(0, s));
                }
                r
            },
        }
    } else {
        resolved(tap, b, None)
    }
}

// ── Laws ────────────────────────────────────────────────────────────────────

/// A tray map that is let pass names trays alone: one of four, or the spool beside
/// the machine.
pub proof fn every_tray_is_known(map: Seq<i32>, i: int)
    requires
        bad_ams_map(true, map) is None,
        0 <= i < map.len(),
    ensures
        -1 <= map[i] <= 3,
    decreases map.len(),
{
    if i < map.len() - 1 {
        assert(map.drop_last()[i] == map[i]);
        assert(bad_ams_map(true, map.drop_last()) is None);
        every_tray_is_known(map.drop_last(), i);
    }
}

/// Every tray map of known trays is let pass, and a print without trays is not held
/// up by its map.
pub proof fn known_trays_are_let_pass(map: Seq<i32>)
    ensures
        (forall|i: int| 0 <= i < map.len() ==> -1 <= (#[trigger] map[i]) <= 3) ==> bad_ams_map(
            true,
            map,
        ) is None,
        bad_ams_map(false, map) is None,
        bad_ams_map(true, map) matches Some(why) ==> why.0 == 400,
    decreases map.len(),
{
    if map.len() > 0 && (forall|i: int| 0 <= i < map.len() ==> -1 <= (#[trigger] map[i]) <= 3) {
        let less = map.drop_last();
        assert forall|i: int| 0 <= i < less.len() implies -1 <= (#[trigger] less[i]) <= 3 by {
            assert(less[i] == map[i]);
        }
        known_trays_are_let_pass(less);
        assert(-1 <= map[map.len() - 1] <= 3);
    }
}

/// A start that is held up for what it says is held up before anything is asked:
/// its path has to be absolute and its file a project or G-code.
pub proof fn only_printable_files_are_started(b: StartBody)
    ensures
        start_invalid(b) is None ==> safe_remote_path(b.file@) && (".3mf"@.is_suffix_of(
            lower(b.file@),
        ) || ".gcode"@.is_suffix_of(lower(b.file@))),
        start_invalid(b) matches Some(why) ==> why.0 == 400,
{
    known_trays_are_let_pass(b.ams_map@);
}

/// A plate that cannot be inspected, and a tray map that does not fit, are the request's
/// fault; a map is let pass if and only if it was found to fit and has one tray for each
/// filament.
pub proof fn a_map_is_let_pass_only_if_it_fits(
    b: StartBody,
    ids: Seq<u32>,
    verdict: Result<(), String>,
    res: Result<Result<PlateInspection, String>, String>,
)
    ensures
        map_refusal(b, ids, verdict) is None <==> verdict is Ok && b.ams_map@.len() == ids.len(),
        map_refusal(b, ids, verdict) matches Some(why) ==> why.0 == 400,
        inspection_refusal(b, res) is None <==> (res matches Ok(Ok(_))),
        inspection_refusal(b, res) matches Some(why) ==> why.0 == 400,
{
}

} // verus!
