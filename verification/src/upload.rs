//! Putting a file on the printer: alone, and to print it.
use vstd::prelude::*;

use crate::files::FileEntry;
use crate::job::{
    bed_or_auto, bed_type_or_auto, hook_and_start, hooked_start, job_started, needs_inspection,
    start_invalid, start_refused, wants, Plan, StartAnswer, StartBody, StartEvent, StartPort,
    StartTap, Wanted,
};
use crate::paths::{
    is_safe_file_name, is_safe_upload_dir, remote_in, remote_path, safe_file_name, safe_upload_dir,
};
use crate::reply::{
    bad, bad_request, busy, conflict, is_busy, opt_reply, or_refuse, refused, reply, require_idle,
    server_error, Answer, Refusal, Reply, Task,
};
use crate::start::{inspected_md5, is_three_mf, PlateInspection, StartRequest};
use crate::text::{debug_text, ends_with, join2, join4, opt_text, quoted, same_text, to_lower};
use crate::trace::lemma_then;

verus! {

// ── Receiving a body ────────────────────────────────────────────────────────

/// The most bytes that are taken in of a body that is held to a limit.
pub const MAX_UPLOAD_BYTES: u64 = 536_870_912;

/// What happened while a body was being received into a file.
#[derive(Debug)]
pub enum BodyEvent {
    /// The file could not be made.
    NotCreated(String),
    /// This many more bytes arrived.
    Chunk(usize),
    /// The body broke off.
    Broken,
    /// What had arrived could not be written.
    NotWritten,
    /// The body ended; whether the file was then flushed.
    Ended { flushed: bool },
}

/// What to do next with a body.
#[derive(Debug)]
pub enum BodyStep {
    /// Write what arrived and go on, this many bytes having arrived so far.
    Write(u64),
    /// All of it is there: this many bytes.
    Complete(u64),
    Refuse(Reply),
}

/// A count of bytes, as far as it can be counted.
pub open spec fn counted(n: int) -> u64 {
    if n > u64::MAX {
        u64::MAX
    } else {
        n as u64
    }
}

/// `r` is what comes after `e`, `written` bytes having arrived before it. Only a
/// body that is to be printed or sliced is `limited`.
pub open spec fn body_answer(limited: bool, written: u64, e: BodyEvent, r: BodyStep) -> bool {
    match e {
        BodyEvent::NotCreated(why) => r matches BodyStep::Refuse(x) && x@ == (500u16, why@),
        BodyEvent::Chunk(n) => if limited && written + n > MAX_UPLOAD_BYTES {
            r matches BodyStep::Refuse(x) && x@ == (
                413u16,
                "upload exceeds the 512 MiB limit"@,
            )
        } else {
            r == BodyStep::Write(counted(written + n))
        },
        BodyEvent::Broken => r matches BodyStep::Refuse(x) && x@ == bad("upload stream error"@),
        BodyEvent::NotWritten => r matches BodyStep::Refuse(x) && x@ == (
            500u16,
            "writing upload"@,
        ),
        BodyEvent::Ended { flushed } => if flushed {
            r == BodyStep::Complete(written)
        } else {
            r matches BodyStep::Refuse(x) && x@ == (500u16, "flushing upload"@)
        },
    }
}

/// The next step in receiving a body, of which `written` bytes arrived so far.
pub fn stream_body_to(limited: bool, written: u64, e: &BodyEvent) -> (r: BodyStep)
    ensures
        body_answer(limited, written, *e, r),
{
    match e {
        BodyEvent::NotCreated(why) => BodyStep::Refuse(server_error(why.clone())),
        BodyEvent::Chunk(n) => {
            let more: u64 = *n as u64;
            if limited && (written > MAX_UPLOAD_BYTES || more > MAX_UPLOAD_BYTES - written) {
                BodyStep::Refuse(reply(413, "upload exceeds the 512 MiB limit".to_owned()))
            } else if more > u64::MAX - written {
                BodyStep::Write(u64::MAX)
            } else {
                BodyStep::Write(written + more)
            }
        },
        BodyEvent::Broken => BodyStep::Refuse(bad_request("upload stream error".to_owned())),
        BodyEvent::NotWritten => BodyStep::Refuse(server_error("writing upload".to_owned())),
        BodyEvent::Ended { flushed } => if *flushed {
            BodyStep::Complete(written)
        } else {
            BodyStep::Refuse(server_error("flushing upload".to_owned()))
        },
    }
}

// ── Where to ────────────────────────────────────────────────────────────────

/// The directory a request names, or the root.
pub open spec fn dir_or_root(dir: Option<Seq<char>>) -> Seq<char> {
    match dir {
        Some(d) => d,
        None => "/"@,
    }
}

pub fn upload_dir(dir: &Option<String>) -> (r: String)
    ensures
        r@ == dir_or_root(opt_text(*dir)),
{
    match dir {
        Some(d) => d.clone(),
        None => "/".to_owned(),
    }
}

/// The refusal of a name that is not a single file name.
pub open spec fn bad_name(name: Seq<char>) -> Option<Refusal> {
    if safe_file_name(name) {
        None
    } else {
        Some(bad("invalid filename "@ + debug_text(name)))
    }
}

/// The refusal of a directory that may not be uploaded to.
pub open spec fn bad_dir(dir: Seq<char>) -> Option<Refusal> {
    if safe_upload_dir(dir) {
        None
    } else {
        Some(bad("invalid dir "@ + debug_text(dir)))
    }
}

pub fn name_refusal(name: &str) -> (r: Option<Reply>)
    ensures
        opt_reply(r) == bad_name(name@),
{
    if is_safe_file_name(name) {
        None
    } else {
        let q = quoted(name);
        Some(bad_request(join2("invalid filename ", q.as_str())))
    }
}

pub fn dir_refusal(dir: &str) -> (r: Option<Reply>)
    ensures
        opt_reply(r) == bad_dir(dir@),
{
    if is_safe_upload_dir(dir) {
        None
    } else {
        let q = quoted(dir);
        Some(bad_request(join2("invalid dir ", q.as_str())))
    }
}

// ── An upload alone ─────────────────────────────────────────────────────────

/// The refusal of an upload that did not reach the printer.
pub open spec fn upload_failed(res: Task<Result<(), String>>) -> Option<Refusal> {
    match res {
        Task::Done(Ok(_)) => None,
        Task::Done(Err(e)) => Some((502, e@)),
        Task::Lost => Some((500, "upload task failed"@)),
    }
}

fn upload_reply(res: Task<Result<(), String>>) -> (r: Option<Reply>)
    ensures
        opt_reply(r) == upload_failed(res),
{
    match res {
        Task::Done(Ok(_)) => None,
        Task::Done(Err(e)) => Some(reply(502, e)),
        Task::Lost => Some(server_error("upload task failed".to_owned())),
    }
}

/// `ev` is all that an upload does outside, and `r` its answer: the name of the
/// file, or the refusal.
pub open spec fn file_uploaded(
    ev: Seq<StartEvent>,
    name: Seq<char>,
    dir: Option<Seq<char>>,
    r: Result<String, Reply>,
) -> bool {
    let d = dir_or_root(dir);
    match or_refuse(bad_name(name), bad_dir(d)) {
        Some(why) => ev.len() == 0 && (r matches Err(x) && x@ == why),
        None => {
            &&& ev.len() >= 1
            &&& ev[0] matches StartEvent::Staged { limited, res: staged }
            &&& !limited
            &&& match staged {
                Err(why) => ev.len() == 1 && (r matches Err(x) && x@ == why),
                Ok(path) => {
                    &&& ev.len() == 2
                    &&& ev[1] matches StartEvent::Uploaded { local, remote, res }
                    &&& local == path
                    &&& remote == remote_path(d, name)
                    &&& match upload_failed(res) {
                        Some(why) => r matches Err(x) && x@ == why,
                        None => r matches Ok(n) && n@ == name,
                    }
                },
            }
        },
    }
}

/// Upload a file to the printer: a single name, into the root or a safe
/// directory.
pub fn upload_file<P: StartPort>(
    tap: &mut StartTap<P>,
    name: &str,
    dir: &Option<String>,
) -> (r: Result<String, Reply>)
    ensures
        old(tap).log().is_prefix_of(final(tap).log()),
        file_uploaded(
            final(tap).log().skip(old(tap).log().len() as int),
            name@,
            opt_text(*dir),
            r,
        ),
{
    if let Some(why) = name_refusal(name) {
        return Err(why);
    }
    let d = upload_dir(dir);
    if let Some(why) = dir_refusal(d.as_str()) {
        return Err(why);
    }
    let local = match tap.stage(false) {
        Ok(path) => path,
        Err(why) => {
            return Err(why);
        },
    };
    let remote = remote_in(d.as_str(), name);
    let res = tap.upload(local.as_str(), remote.as_str());
    match upload_reply(res) {
        Some(why) => Err(why),
        None => Ok(name.to_owned()),
    }
}

// ── Upload, and print ───────────────────────────────────────────────────────

/// Where a staged file is going, and how to print it once it is there.
#[derive(Debug)]
pub struct UploadStart {
    /// The file on this side.
    pub local: String,
    pub dir: String,
    /// The file's name on the printer.
    pub name: String,
    pub overwrite: bool,
    /// How the request spells its permission to overwrite.
    pub overwrite_hint: String,
    pub plate: u32,
    pub use_ams: bool,
    pub ams_map: Vec<i32>,
    pub bed_type: String,
    pub timelapse: bool,
    pub inspection: Option<PlateInspection>,
}

/// An entry of this name is among `entries`.
pub open spec fn has_name(entries: Seq<FileEntry>, name: Seq<char>) -> bool {
    exists|i: int| 0 <= i < entries.len() && (#[trigger] entries[i]).name@ == name
}

fn listed(entries: &Vec<FileEntry>, name: &str) -> (r: bool)
    ensures
        r == has_name(entries@, name@),
{
    let mut i: usize = 0;
    while i < entries.len()
        invariant
            i <= entries@.len(),
            forall|j: int| 0 <= j < i ==> (#[trigger] entries@[j]).name@ != name@,
        decreases entries@.len() - i,
    {
        if same_text(entries[i].name.as_str(), name) {
            assert(entries@[i as int].name@ == name@);
            return true;
        }
        i += 1;
    }
    false
}

/// The refusal to replace a file that is there. A listing that failed does not
/// stand in the way.
pub open spec fn would_overwrite(u: UploadStart, res: Option<Seq<FileEntry>>) -> Option<Refusal> {
    match res {
        Some(entries) => if has_name(entries, u.name@) {
            Some(
                conflict(
                    remote_path(u.dir@, u.name@) + " already exists ("@ + u.overwrite_hint@
                        + " to replace it)"@,
                ),
            )
        } else {
            None
        },
        None => None,
    }
}

/// What is started once the file is on the printer.
pub open spec fn wanted_upload(u: UploadStart) -> Wanted {
    Wanted {
        file: remote_path(u.dir@, u.name@),
        plate: u.plate,
        use_ams: u.use_ams,
        ams_map: u.ams_map@,
        bed_type: u.bed_type@,
        timelapse: u.timelapse,
        inspection: u.inspection,
    }
}

/// `ev` uploads the file, finds the printer still idle, and goes on to the
/// sequence and the start. The upload can take minutes: a job that was started
/// at the printer meanwhile must not be driven into.
pub open spec fn sent_and_started(ev: Seq<StartEvent>, u: UploadStart, r: Answer) -> bool {
    &&& ev.len() >= 1
    &&& ev[0] matches StartEvent::Uploaded { local, remote, res }
    &&& local == u.local@
    &&& remote == remote_path(u.dir@, u.name@)
    &&& match upload_failed(res) {
        Some(why) => ev.len() == 1 && refused(r, why),
        None => {
            &&& ev.len() >= 2
            &&& ev[1] matches StartEvent::State(state)
            &&& match busy(state) {
                Some(why) => ev.len() == 2 && refused(r, why),
                None => hooked_start(ev.skip(2), wanted_upload(u), r),
            }
        },
    }
}

/// `ev` looks whether the file is there already, unless it may be replaced, and
/// goes on to the upload.
pub open spec fn checked_and_sent(ev: Seq<StartEvent>, u: UploadStart, r: Answer) -> bool {
    if u.overwrite {
        sent_and_started(ev, u, r)
    } else {
        &&& ev.len() >= 1
        &&& ev[0] matches StartEvent::Listed { dir, res }
        &&& dir == u.dir@
        &&& match would_overwrite(u, res) {
            Some(why) => ev.len() == 1 && refused(r, why),
            None => sent_and_started(ev.skip(1), u, r),
        }
    }
}

/// `ev` is all that an upload and start does outside: it holds the lock over
/// both halves, and finds the printer idle before either.
pub open spec fn uploaded_and_started(ev: Seq<StartEvent>, u: UploadStart, r: Answer) -> bool {
    &&& ev.len() >= 1
    &&& ev[0] matches StartEvent::Locked(free)
    &&& if !free {
        ev.len() == 1 && refused(r, conflict("a print start is already in progress"@))
    } else {
        &&& ev.len() >= 2
        &&& ev[1] matches StartEvent::State(state)
        &&& match busy(state) {
            Some(why) => ev.len() == 2 && refused(r, why),
            None => checked_and_sent(ev.skip(2), u, r),
        }
    }
}

fn send_and_start<P: StartPort>(tap: &mut StartTap<P>, u: UploadStart) -> (r: Answer)
    ensures
        old(tap).log().is_prefix_of(final(tap).log()),
        sent_and_started(final(tap).log().skip(old(tap).log().len() as int), u, r),
{
    let ghost start = tap.log();
    let remote = remote_in(u.dir.as_str(), u.name.as_str());
    let res = tap.upload(u.local.as_str(), remote.as_str());
    if let Some(why) = upload_reply(res) {
        return Answer::Refused(why);
    }
    let state = tap.gcode_state();
    if let Some(why) = require_idle(&state) {
        return Answer::Refused(why);
    }
    let ghost mid = tap.log();
    let req = StartRequest {
        file: remote,
        plate: u.plate,
        use_ams: u.use_ams,
        ams_map: u.ams_map,
        bed_type: u.bed_type,
        timelapse: u.timelapse,
        inspection: u.inspection,
    };
    proof {
        assert(wants(req) =~= wanted_upload(u));
    }
    let r = hook_and_start(tap, req);
    proof {
        lemma_then(start, mid, tap.log());
    }
    r
}

fn check_and_send<P: StartPort>(tap: &mut StartTap<P>, u: UploadStart) -> (r: Answer)
    ensures
        old(tap).log().is_prefix_of(final(tap).log()),
        checked_and_sent(final(tap).log().skip(old(tap).log().len() as int), u, r),
{
    let ghost start = tap.log();
    if u.overwrite {
        return send_and_start(tap, u);
    }
    if let Some(entries) = tap.list(u.dir.as_str()) {
        if listed(&entries, u.name.as_str()) {
            let remote = remote_in(u.dir.as_str(), u.name.as_str());
            return Answer::Refused(
                reply(
                    409,
                    join4(
                        remote.as_str(),
                        " already exists (",
                        u.overwrite_hint.as_str(),
                        " to replace it)",
                    ),
                ),
            );
        }
    }
    let ghost mid = tap.log();
    let r = send_and_start(tap, u);
    proof {
        lemma_then(start, mid, tap.log());
    }
    r
}

/// Put a staged file on the printer and print it: hold the lock over both
/// halves, refuse while busy, refuse to replace a file, upload, look again
/// whether the printer is idle, run the pre-print sequence, start.
pub fn upload_and_start<P: StartPort>(tap: &mut StartTap<P>, u: UploadStart) -> (r: Answer)
    ensures
        old(tap).log().is_prefix_of(final(tap).log()),
        uploaded_and_started(final(tap).log().skip(old(tap).log().len() as int), u, r),
{
    let ghost start = tap.log();
    if !tap.try_lock() {
        return Answer::Refused(reply(409, "a print start is already in progress".to_owned()));
    }
    let state = tap.gcode_state();
    if let Some(why) = require_idle(&state) {
        return Answer::Refused(why);
    }
    let ghost mid = tap.log();
    let r = check_and_send(tap, u);
    proof {
        lemma_then(start, mid, tap.log());
    }
    r
}

// ── One request for both ────────────────────────────────────────────────────

/// An upload that is to be printed, as it was asked for.
#[derive(Debug)]
pub struct UploadStartQuery {
    pub name: String,
    pub dir: Option<String>,
    pub plate: u32,
    pub timelapse: bool,
    pub bed_type: Option<String>,
    pub confirm: bool,
    pub dry_run: bool,
    pub overwrite: bool,
}

/// What is wrong with such an upload before its body is read. One that is
/// neither confirmed nor a dry run cannot do anything, so a body of any size is
/// not taken in for it.
pub open spec fn upload_start_invalid(q: UploadStartQuery) -> Option<Refusal> {
    let gate = if q.confirm || q.dry_run {
        None
    } else {
        Some((428u16, "confirm required: add &confirm=true (try &dry_run=true first)"@))
    };
    or_refuse(or_refuse(bad_name(q.name@), bad_dir(dir_or_root(opt_text(q.dir)))), gate)
}

fn upload_start_refusal(q: &UploadStartQuery) -> (r: Option<Reply>)
    ensures
        opt_reply(r) == upload_start_invalid(*q),
{
    if let Some(why) = name_refusal(q.name.as_str()) {
        return Some(why);
    }
    let dir = upload_dir(&q.dir);
    if let Some(why) = dir_refusal(dir.as_str()) {
        return Some(why);
    }
    if !q.confirm && !q.dry_run {
        return Some(
            reply(
                428,
                "confirm required: add &confirm=true (try &dry_run=true first)".to_owned(),
            ),
        );
    }
    None
}

/// The refusal of a staged file whose plate could not be inspected.
pub open spec fn staged_refusal(res: Task<Result<PlateInspection, String>>) -> Option<Refusal> {
    match res {
        Task::Done(Ok(_)) => None,
        Task::Done(Err(e)) => Some(bad("3mf inspection: "@ + e@)),
        Task::Lost => Some((500, "3mf inspection task failed"@)),
    }
}

pub fn staged_inspection(res: Task<Result<PlateInspection, String>>) -> (r: Result<
    PlateInspection,
    Reply,
>)
    ensures
        match r {
            Ok(i) => res == Task::Done(Ok::<PlateInspection, String>(i)),
            Err(x) => staged_refusal(res) == Some(x@),
        },
{
    match res {
        Task::Done(Ok(i)) => Ok(i),
        Task::Done(Err(e)) => Err(bad_request(join2("3mf inspection: ", e.as_str()))),
        Task::Lost => Err(server_error("3mf inspection task failed".to_owned())),
    }
}

/// Whether an inspected plate parks on every layer.
pub open spec fn inspected_blocks(i: Option<PlateInspection>) -> Option<bool> {
    match i {
        Some(insp) => Some(insp.has_timelapse_blocks),
        None => None,
    }
}

/// The dry run of an upload says what would be done.
pub open spec fn upload_plans(
    p: Plan,
    q: UploadStartQuery,
    inspection: Option<PlateInspection>,
    hook: Option<Seq<char>>,
) -> bool {
    &&& p.file@ == remote_path(dir_or_root(opt_text(q.dir)), q.name@)
    &&& p.plate == q.plate
    &&& !p.use_ams
    &&& p.ams_map@.len() == 0
    &&& p.bed_type@ == bed_or_auto(opt_text(q.bed_type))
    &&& p.timelapse == q.timelapse
    &&& p.has_timelapse_blocks == inspected_blocks(inspection)
    &&& opt_text(p.md5) == inspected_md5(inspection)
    &&& p.overwrite == Some(q.overwrite)
    &&& opt_text(p.pre_print) == hook
    &&& p.expect is None
}

/// Where the upload goes and how it is printed.
pub open spec fn upload_of(
    u: UploadStart,
    q: UploadStartQuery,
    local: Seq<char>,
    inspection: Option<PlateInspection>,
) -> bool {
    &&& u.local@ == local
    &&& u.dir@ == dir_or_root(opt_text(q.dir))
    &&& u.name@ == q.name@
    &&& u.overwrite == q.overwrite
    &&& u.overwrite_hint@ == "add &overwrite=true"@
    &&& u.plate == q.plate
    &&& !u.use_ams
    &&& u.ams_map@.len() == 0
    &&& u.bed_type@ == bed_or_auto(opt_text(q.bed_type))
    &&& u.timelapse == q.timelapse
    &&& u.inspection == inspection
}

/// `ev` is what is done once the staged file is dealt with.
pub open spec fn staged_start(
    ev: Seq<StartEvent>,
    q: UploadStartQuery,
    local: Seq<char>,
    inspection: Option<PlateInspection>,
    r: StartAnswer,
) -> bool {
    if q.dry_run {
        &&& ev.len() == 1
        &&& ev[0] matches StartEvent::HookName(hook)
        &&& r matches StartAnswer::Plan(p)
        &&& upload_plans(p, q, inspection, hook)
    } else {
        &&& r matches StartAnswer::Answer(a)
        &&& exists|u: UploadStart|
            upload_of(u, q, local, inspection) && #[trigger] uploaded_and_started(ev, u, a)
    }
}

/// `ev` is all that an upload to be printed does outside, and `r` what it is
/// answered.
pub open spec fn upload_job(ev: Seq<StartEvent>, q: UploadStartQuery, r: StartAnswer) -> bool {
    match upload_start_invalid(q) {
        Some(why) => ev.len() == 0 && start_refused(r, why),
        None => {
            &&& ev.len() >= 1
            &&& ev[0] matches StartEvent::Staged { limited, res: staged }
            &&& limited
            &&& match staged {
                Err(why) => ev.len() == 1 && start_refused(r, why),
                Ok(path) => if is_three_mf(q.name@) {
                    &&& ev.len() >= 2
                    &&& ev[1] matches StartEvent::StagedInspected { local, plate, res }
                    &&& local == path
                    &&& plate == q.plate
                    &&& match staged_refusal(res) {
                        Some(why) => ev.len() == 2 && start_refused(r, why),
                        None => staged_start(ev.skip(2), q, path, Some(res->Done_0->Ok_0), r),
                    }
                } else {
                    staged_start(ev.skip(1), q, path, None, r)
                },
            }
        },
    }
}

fn start_staged<P: StartPort>(
    tap: &mut StartTap<P>,
    q: &UploadStartQuery,
    local: String,
    inspection: Option<PlateInspection>,
) -> (r: StartAnswer)
    ensures
        old(tap).log().is_prefix_of(final(tap).log()),
        staged_start(
            final(tap).log().skip(old(tap).log().len() as int),
            *q,
            local@,
            inspection,
            r,
        ),
{
    let dir = upload_dir(&q.dir);
    if q.dry_run {
        let (md5, blocks): (Option<String>, Option<bool>) = match &inspection {
            Some(i) => (Some(i.gcode_md5.clone()), Some(i.has_timelapse_blocks)),
            None => (None, None),
        };
        let pre_print = tap.hook_name();
        return StartAnswer::Plan(
            Plan {
                file: remote_in(dir.as_str(), q.name.as_str()),
                plate: q.plate,
                use_ams: false,
                ams_map: Vec::new(),
                bed_type: bed_type_or_auto(&q.bed_type),
                timelapse: q.timelapse,
                has_timelapse_blocks: blocks,
                pre_print,
                md5,
                overwrite: Some(q.overwrite),
                expect: None,
            },
        );
    }
    let u = UploadStart {
        local,
        dir,
        name: q.name.clone(),
        overwrite: q.overwrite,
        overwrite_hint: "add &overwrite=true".to_owned(),
        plate: q.plate,
        use_ams: false,
        ams_map: Vec::new(),
        bed_type: bed_type_or_auto(&q.bed_type),
        timelapse: q.timelapse,
        inspection,
    };
    let ghost sent = u;
    proof {
        assert(upload_of(sent, *q, local@, inspection));
    }
    StartAnswer::Answer(upload_and_start(tap, u))
}

/// Upload a file and print it, in one request: the name and the directory are
/// checked and confirmation is asked for before the body is taken in; the plate
/// of a project is inspected, so that the printer can verify it.
pub fn job_upload_start<P: StartPort>(tap: &mut StartTap<P>, q: &UploadStartQuery) -> (r:
    StartAnswer)
    ensures
        old(tap).log().is_prefix_of(final(tap).log()),
        upload_job(final(tap).log().skip(old(tap).log().len() as int), *q, r),
{
    let ghost start = tap.log();
    if let Some(why) = upload_start_refusal(q) {
        return StartAnswer::Answer(Answer::Refused(why));
    }
    let local = match tap.stage(true) {
        Ok(path) => path,
        Err(why) => {
            return StartAnswer::Answer(Answer::Refused(why));
        },
    };
    let lowered = to_lower(q.name.as_str());
    if ends_with(lowered.as_str(), ".3mf") {
        let res = tap.inspect_staged(local.as_str(), q.plate);
        let ghost mid = tap.log();
        match staged_inspection(res) {
            Err(why) => StartAnswer::Answer(Answer::Refused(why)),
            Ok(insp) => {
                let r = start_staged(tap, q, local, Some(insp));
                proof {
                    lemma_then(start, mid, tap.log());
                }
                r
            },
        }
    } else {
        let ghost mid = tap.log();
        let r = start_staged(tap, q, local, None);
        proof {
            lemma_then(start, mid, tap.log());
        }
        r
    }
}

// ── Laws ────────────────────────────────────────────────────────────────────

/// An event that changes something at the printer, or is about to.
pub open spec fn acts(e: StartEvent) -> bool {
    e is Locked || e is HookFlag || e is HookRan || e is Uploaded || e is Started
}

/// An event before `i` that the start at `i` rests on.
pub open spec fn before(ev: Seq<StartEvent>, i: int, e: StartEvent) -> bool {
    exists|j: int| 0 <= j < i && #[trigger] ev[j] == e
}

/// The printer was found idle before `i`, with no upload since.
pub open spec fn idle_before(ev: Seq<StartEvent>, i: int) -> bool {
    exists|j: int|
        0 <= j < i && ((#[trigger] ev[j]) matches StartEvent::State(s) && !is_busy(s))
            && forall|k: int| j < k < i ==> !((#[trigger] ev[k]) is Uploaded)
}

/// The printer has no pre-print sequence, or it ran to its end before `i`.
pub open spec fn hook_done_before(ev: Seq<StartEvent>, i: int) -> bool {
    ||| before(ev, i, StartEvent::HookName(None))
    ||| exists|j: int| 0 <= j < i && hook_ran_through(#[trigger] ev[j])
}

/// The pre-print sequence ran to its end.
pub open spec fn hook_ran_through(e: StartEvent) -> bool {
    e matches StartEvent::HookRan(Task::Done(Ok(_)))
}

/// The file arrived at `remote`.
pub open spec fn arrived(e: StartEvent, at: Seq<char>) -> bool {
    e matches StartEvent::Uploaded { local, remote, res: Task::Done(Ok(_)) } && remote == at
}

/// The file arrived at `remote` before `i`.
pub open spec fn arrived_before(ev: Seq<StartEvent>, i: int, remote: Seq<char>) -> bool {
    exists|j: int| 0 <= j < i && arrived(#[trigger] ev[j], remote)
}

/// The start at `i` is the last thing done, with the lock held, the printer idle
/// and the pre-print sequence done.
pub open spec fn guarded(ev: Seq<StartEvent>, i: int) -> bool {
    &&& i == ev.len() - 1
    &&& before(ev, i, StartEvent::Locked(true))
    &&& idle_before(ev, i)
    &&& hook_done_before(ev, i)
}

proof fn lemma_hooked(ev: Seq<StartEvent>, w: Wanted, r: Answer, i: int)
    requires
        hooked_start(ev, w, r),
        0 <= i < ev.len(),
    ensures
        ev[i] is Started ==> i == ev.len() - 1 && hook_done_before(ev, i),
        !(ev[i] is Locked) && !(ev[i] is State) && !(ev[i] is Uploaded),
{
    if ev[0]->HookName_0 is None {
        if i > 0 {
            assert(ev.skip(1)[i - 1] == ev[i]);
            assert(ev[0] == StartEvent::HookName(None));
            assert(before(ev, i, StartEvent::HookName(None)));
        }
    } else if i >= 4 {
        assert(ev.skip(4)[i - 4] == ev[i]);
        assert(hook_ran_through(ev[2]));
    }
}

/// The guards found in the tail of a trace hold of the whole of it.
proof fn lemma_hook_done_in_tail(ev: Seq<StartEvent>, k: int, i: int)
    requires
        0 <= k <= i < ev.len(),
        hook_done_before(ev.skip(k), i - k),
    ensures
        hook_done_before(ev, i),
{
    let t = ev.skip(k);
    if before(t, i - k, StartEvent::HookName(None)) {
        let j = choose|j: int| 0 <= j < i - k && #[trigger] t[j] == StartEvent::HookName(None);
        assert(ev[j + k] == t[j]);
    } else {
        let j = choose|j: int| 0 <= j < i - k && hook_ran_through(#[trigger] t[j]);
        assert(ev[j + k] == t[j]);
    }
}

/// A print of a file on the printer is started only as its last act, with the
/// request sound and confirmed, the lock held, the printer idle and the
/// pre-print sequence run to its end; a dry run never starts anything.
pub proof fn a_start_is_guarded(ev: Seq<StartEvent>, b: StartBody, r: StartAnswer, i: int)
    requires
        job_started(ev, b, r),
        0 <= i < ev.len(),
        ev[i] is Started,
    ensures
        b.confirm && !b.dry_run,
        start_invalid(b) is None,
        guarded(ev, i),
{
    let k: int = if needs_inspection(b) {
        2
    } else {
        0
    };
    let t = ev.skip(k);
    assert(t =~= ev || k == 2);
    if i >= k {
        assert(t[i - k] == ev[i]);
        let a = r->Answer_0;
        let m = t.skip(2);
        let w = m;
        if i - k >= 2 {
            assert(m[i - k - 2] == ev[i]);
            assert(m =~= ev.skip(k + 2));
            assert(exists|wd: Wanted| hooked_start(m, wd, a));
            let wd = choose|wd: Wanted| hooked_start(m, wd, a);
            lemma_hooked(m, wd, a, i - k - 2);
            lemma_hook_done_in_tail(ev, k + 2, i);
            assert(ev[k] == t[0]);
            assert(ev[k + 1] == t[1]);
            assert(before(ev, i, StartEvent::Locked(true)));
            assert forall|x: int| k + 1 < x < i implies !((#[trigger] ev[x]) is Uploaded) by {
                assert(m[x - k - 2] == ev[x]);
                lemma_hooked(m, wd, a, x - k - 2);
            }
            assert(idle_before(ev, i));
        }
    }
}

/// A print that needs a tray map is started only with one that fits: it was found
/// to fit the plate that was inspected, and it has one tray for each filament that
/// the plate uses.
pub proof fn a_tray_map_that_is_sent_fits(
    ev: Seq<StartEvent>,
    b: StartBody,
    r: StartAnswer,
    i: int,
)
    requires
        job_started(ev, b, r),
        needs_inspection(b),
        0 <= i < ev.len(),
        ev[i] is Started,
    ensures
        ev[0] matches StartEvent::Inspected { file, plate, res: Ok(Ok(insp)) } && {
            &&& file == b.file@ && plate == b.plate
            &&& b.ams_map@.len() == insp.filament_ids@.len()
            &&& ev[1] matches StartEvent::MapChecked { map, filament_ids, res: Ok(_) }
            &&& map == b.ams_map@ && filament_ids == insp.filament_ids@
        },
{
}

/// Without confirmation, and in a dry run, a start takes no lock, runs no
/// sequence and starts nothing.
pub proof fn nothing_is_done_unconfirmed(ev: Seq<StartEvent>, b: StartBody, r: StartAnswer, i: int)
    requires
        job_started(ev, b, r),
        !b.confirm || b.dry_run,
        0 <= i < ev.len(),
    ensures
        !acts(ev[i]),
{
    let k: int = if needs_inspection(b) {
        2
    } else {
        0
    };
    let t = ev.skip(k);
    assert(t =~= ev || k == 2);
    if i >= k {
        assert(t[i - k] == ev[i]);
    }
}

proof fn lemma_sent(ev: Seq<StartEvent>, u: UploadStart, r: Answer, i: int)
    requires
        sent_and_started(ev, u, r),
        0 <= i < ev.len(),
    ensures
        ev[i] is Started ==> i == ev.len() - 1 && hook_done_before(ev, i) && idle_before(ev, i)
            && arrived_before(ev, i, remote_path(u.dir@, u.name@)),
        !(ev[i] is Locked),
{
    let t = ev.skip(2);
    if i >= 2 {
        assert(t[i - 2] == ev[i]);
        lemma_hooked(t, wanted_upload(u), r, i - 2);
        if ev[i] is Started {
            lemma_hook_done_in_tail(ev, 2, i);
            assert forall|x: int| 1 < x < i implies !((#[trigger] ev[x]) is Uploaded) by {
                assert(t[x - 2] == ev[x]);
                lemma_hooked(t, wanted_upload(u), r, x - 2);
            }
            assert(idle_before(ev, i)) by {
                assert(ev[1] is State);
            }
            assert(arrived(ev[0], remote_path(u.dir@, u.name@)));
        }
    }
}

/// An uploaded file is started only as the last act, after an upload that
/// worked, with the lock held, the printer found idle again after the upload and
/// the pre-print sequence run to its end.
pub proof fn an_uploaded_start_is_guarded(
    ev: Seq<StartEvent>,
    u: UploadStart,
    r: Answer,
    i: int,
)
    requires
        uploaded_and_started(ev, u, r),
        0 <= i < ev.len(),
        ev[i] is Started,
    ensures
        guarded(ev, i),
        arrived_before(ev, i, remote_path(u.dir@, u.name@)),
{
    let k: int = if u.overwrite {
        2
    } else {
        3
    };
    let t = ev.skip(k);
    assert(ev.skip(2).skip(1) =~= ev.skip(3));
    if i == 2 && !u.overwrite {
        assert(ev.skip(2)[0] == ev[2]);
    } else if i >= 2 {
        assert(ev.skip(2)[i - 2] == ev[i]);
        assert(t[i - k] == ev[i]);
        lemma_sent(t, u, r, i - k);
        lemma_hook_done_in_tail(ev, k, i);
        let at = remote_path(u.dir@, u.name@);
        let j = choose|j: int| 0 <= j < i - k && arrived(#[trigger] t[j], at);
        assert(ev[j + k] == t[j]);
        let h = choose|h: int|
            0 <= h < i - k && ((#[trigger] t[h]) matches StartEvent::State(s) && !is_busy(s))
                && forall|x: int| h < x < i - k ==> !((#[trigger] t[x]) is Uploaded);
        assert(ev[h + k] == t[h]);
        assert forall|x: int| h + k < x < i implies !((#[trigger] ev[x]) is Uploaded) by {
            assert(t[x - k] == ev[x]);
        }
        assert(idle_before(ev, i));
        assert(ev[0] == StartEvent::Locked(true));
        assert(before(ev, i, StartEvent::Locked(true)));
    }
}

/// A file that is there is never replaced unless that was allowed: an upload
/// without that permission follows a listing that does not show it.
pub proof fn nothing_is_overwritten_unasked(ev: Seq<StartEvent>, u: UploadStart, r: Answer, i: int)
    requires
        uploaded_and_started(ev, u, r),
        0 <= i < ev.len(),
        ev[i] is Uploaded,
        !u.overwrite,
    ensures
        exists|j: int|
            0 <= j < i && ((#[trigger] ev[j]) matches StartEvent::Listed { dir, res } && dir
                == u.dir@ && (res matches Some(entries) ==> !has_name(entries, u.name@))),
{
    let t = ev.skip(2);
    if i >= 2 {
        assert(t[i - 2] == ev[i]);
        assert(t[0] == ev[2]);
    }
}

/// A request that is neither confirmed nor a dry run is refused before its body
/// is read.
pub proof fn an_unconfirmed_body_is_not_read(
    ev: Seq<StartEvent>,
    q: UploadStartQuery,
    r: StartAnswer,
)
    requires
        upload_job(ev, q, r),
        !q.confirm,
        !q.dry_run,
    ensures
        ev.len() == 0,
{
}

/// A dry run of an upload does nothing at the printer.
pub proof fn a_dry_upload_does_nothing(
    ev: Seq<StartEvent>,
    q: UploadStartQuery,
    r: StartAnswer,
    i: int,
)
    requires
        upload_job(ev, q, r),
        q.dry_run,
        0 <= i < ev.len(),
    ensures
        !acts(ev[i]),
{
    if i >= 1 {
        assert(ev.skip(1)[i - 1] == ev[i]);
    }
    if i >= 2 {
        assert(ev.skip(2)[i - 2] == ev[i]);
    }
}

/// How many bytes of a limited body have arrived after these chunks; none once it
/// was refused.
pub open spec fn received(chunks: Seq<usize>) -> Option<nat>
    decreases chunks.len(),
{
    if chunks.len() == 0 {
        Some(0)
    } else {
        match received(chunks.drop_last()) {
            Some(n) => if n + chunks.last() > MAX_UPLOAD_BYTES {
                None
            } else {
                Some(n + chunks.last() as nat)
            },
            None => None,
        }
    }
}

/// No more of a limited body is ever taken in than the limit, however it is cut
/// into chunks.
pub proof fn a_body_stays_under_its_limit(chunks: Seq<usize>)
    ensures
        received(chunks) matches Some(n) ==> n <= MAX_UPLOAD_BYTES,
    decreases chunks.len(),
{
    if chunks.len() > 0 {
        a_body_stays_under_its_limit(chunks.drop_last());
    }
}

/// What a start request asks for is what was asked: the same file, plate, trays,
/// bed and timelapse.
pub open spec fn asks_for(
    req: StartRequest,
    file: Seq<char>,
    plate: u32,
    use_ams: bool,
    ams_map: Seq<i32>,
    bed_type: Option<Seq<char>>,
    timelapse: bool,
) -> bool {
    &&& req.file@ == file
    &&& req.plate == plate
    &&& req.use_ams == use_ams
    &&& req.ams_map@ == ams_map
    &&& req.bed_type@ == match bed_type {
        Some(t) => t,
        None => "auto"@,
    }
    &&& req.timelapse == timelapse
}

/// What a dry run plans is what was asked.
pub open spec fn plans_for(
    p: Plan,
    file: Seq<char>,
    plate: u32,
    use_ams: bool,
    ams_map: Seq<i32>,
    bed_type: Option<Seq<char>>,
    timelapse: bool,
) -> bool {
    &&& p.file@ == file
    &&& p.plate == plate
    &&& p.use_ams == use_ams
    &&& p.ams_map@ == ams_map
    &&& p.bed_type@ == match bed_type {
        Some(t) => t,
        None => "auto"@,
    }
    &&& p.timelapse == timelapse
}

proof fn lemma_hooked_start_asks(ev: Seq<StartEvent>, w: Wanted, r: Answer, i: int)
    requires
        hooked_start(ev, w, r),
        0 <= i < ev.len(),
        ev[i] is Started,
    ensures
        wants(ev[i]->Started_req) == w,
        crate::reply::answered(ev[i]->Started_res, r),
        i == ev.len() - 1,
{
    if ev[0]->HookName_0 is None {
        assert(ev.skip(1)[i - 1] == ev[i]);
    } else if i >= 4 {
        assert(ev.skip(4)[i - 4] == ev[i]);
    }
}

/// The printer is asked to start exactly what the request asked for, with the
/// inspection of that very plate where its trays are mapped; and the request is
/// answered with what came of that start.
pub proof fn a_start_asks_for_what_was_asked(
    ev: Seq<StartEvent>,
    b: StartBody,
    r: StartAnswer,
    i: int,
)
    requires
        job_started(ev, b, r),
        0 <= i < ev.len(),
        ev[i] is Started,
    ensures
        asks_for(
            ev[i]->Started_req,
            b.file@,
            b.plate,
            b.use_ams,
            b.ams_map@,
            opt_text(b.bed_type),
            b.timelapse,
        ),
        ev[i]->Started_req.inspection matches Some(insp) ==> (ev[0]
            matches StartEvent::Inspected { file, plate, res: Ok(Ok(seen)) } && seen == insp && file
            == b.file@ && plate == b.plate),
        b.use_ams && ".3mf"@.is_suffix_of(crate::text::lower(b.file@))
            <==> ev[i]->Started_req.inspection is Some,
        r matches StartAnswer::Answer(Answer::Outcome { status, outcome }) ==> ev[i]->Started_res
            == Task::Done(Ok::<_, crate::reply::ControlError>(outcome)),
        ev[i]->Started_res matches Task::Done(Ok(o)) ==> (r
            matches StartAnswer::Answer(Answer::Outcome { status, outcome }) && outcome == o),
{
    let k: int = if needs_inspection(b) {
        2
    } else {
        0
    };
    let t = ev.skip(k);
    assert(t =~= ev || k == 2);
    if i >= k {
        assert(t[i - k] == ev[i]);
        let m = t.skip(2);
        if i - k >= 2 {
            assert(m[i - k - 2] == ev[i]);
            let insp = if needs_inspection(b) {
                Some(ev[0]->Inspected_res->Ok_0->Ok_0)
            } else {
                None
            };
            lemma_hooked_start_asks(m, crate::job::wanted(b, insp), r->Answer_0, i - k - 2);
        }
    }
}

/// A dry run says what would be done: its plan is what the same request, confirmed,
/// asks the printer for.
pub proof fn a_dry_run_plans_what_is_started(
    dry: Seq<StartEvent>,
    ev: Seq<StartEvent>,
    d: StartBody,
    b: StartBody,
    p: Plan,
    r: StartAnswer,
    i: int,
)
    requires
        job_started(dry, d, StartAnswer::Plan(p)),
        job_started(ev, b, r),
        d.file@ == b.file@,
        d.plate == b.plate,
        d.use_ams == b.use_ams,
        d.ams_map@ == b.ams_map@,
        opt_text(d.bed_type) == opt_text(b.bed_type),
        d.timelapse == b.timelapse,
        0 <= i < ev.len(),
        ev[i] is Started,
    ensures
        d.dry_run,
        plans_for(
            p,
            ev[i]->Started_req.file@,
            ev[i]->Started_req.plate,
            ev[i]->Started_req.use_ams,
            ev[i]->Started_req.ams_map@,
            Some(ev[i]->Started_req.bed_type@),
            ev[i]->Started_req.timelapse,
        ),
{
    a_start_asks_for_what_was_asked(ev, b, r, i);
    a_plan_is_what_was_asked(dry, d, p);
}

/// The plan of a dry run is what the request asked for, and tells the sequence that
/// would run and whether the plate that was looked at parks on every layer.
pub proof fn a_plan_is_what_was_asked(ev: Seq<StartEvent>, b: StartBody, p: Plan)
    requires
        job_started(ev, b, StartAnswer::Plan(p)),
    ensures
        b.dry_run,
        plans_for(
            p,
            b.file@,
            b.plate,
            b.use_ams,
            b.ams_map@,
            opt_text(b.bed_type),
            b.timelapse,
        ),
        ev.len() > 0,
        ev.last() matches StartEvent::HookName(name) && opt_text(p.pre_print) == name,
        p.has_timelapse_blocks matches Some(blocks) ==> ev.len() >= 2 && (ev[ev.len() - 2]
            matches StartEvent::Inspected { file, plate, res: Ok(Ok(insp)) } && file == b.file@
            && plate == b.plate && insp.has_timelapse_blocks == blocks),
{
    let k: int = if needs_inspection(b) {
        2
    } else {
        0
    };
    let t = ev.skip(k);
    assert(t =~= ev || k == 2);
    assert(t.last() == ev.last());
    if t.len() == 2 {
        assert(t[0] == ev[ev.len() - 2]);
    }
}

/// An uploaded file is printed from where it was put, and the file that was put
/// there is the one that was handed over: what is started is the upload, as it was
/// asked to be printed.
pub proof fn what_was_uploaded_is_started(
    ev: Seq<StartEvent>,
    u: UploadStart,
    r: Answer,
    i: int,
    j: int,
)
    requires
        uploaded_and_started(ev, u, r),
        0 <= i < ev.len(),
        ev[i] is Started,
        0 <= j < ev.len(),
        ev[j] is Uploaded,
    ensures
        j < i,
        ev[j]->Uploaded_local == u.local@,
        ev[i]->Started_req.file@ == ev[j]->Uploaded_remote,
        asks_for(
            ev[i]->Started_req,
            ev[j]->Uploaded_remote,
            u.plate,
            u.use_ams,
            u.ams_map@,
            Some(u.bed_type@),
            u.timelapse,
        ),
        ev[i]->Started_req.inspection == u.inspection,
        r matches Answer::Outcome { status, outcome } ==> ev[i]->Started_res == Task::Done(
            Ok::<_, crate::reply::ControlError>(outcome),
        ),
        ev[i]->Started_res matches Task::Done(Ok(o)) ==> (r
            matches Answer::Outcome { status, outcome } && outcome == o),
{
    let k: int = if u.overwrite {
        2
    } else {
        3
    };
    let t = ev.skip(k);
    assert(ev.skip(2).skip(1) =~= ev.skip(3));
    if !u.overwrite {
        assert(ev.skip(2)[0] == ev[2]);
    }
    if i >= k {
        assert(t[i - k] == ev[i]);
        assert(t[0] == ev[k]);
        let m = t.skip(2);
        if i - k >= 2 {
            assert(m[i - k - 2] == ev[i]);
            lemma_hooked_start_asks(m, wanted_upload(u), r, i - k - 2);
            if j >= k + 2 {
                assert(m[j - k - 2] == ev[j]);
                lemma_hooked(m, wanted_upload(u), r, j - k - 2);
            } else if j >= k {
                assert(t[j - k] == ev[j]);
            }
        }
    }
}

/// A file is put where its directory and its name say.
pub proof fn an_upload_goes_where_it_was_sent(
    ev: Seq<StartEvent>,
    u: UploadStart,
    r: Answer,
    j: int,
)
    requires
        uploaded_and_started(ev, u, r),
        0 <= j < ev.len(),
        ev[j] is Uploaded,
        !u.name@.contains('/'),
    ensures
        ("/"@ + u.name@).is_suffix_of(ev[j]->Uploaded_remote),
        crate::text::after_last(ev[j]->Uploaded_remote, '/') == u.name@,
        ev[j]->Uploaded_remote.take(ev[j]->Uploaded_remote.len() - u.name@.len() - 1).is_prefix_of(
            u.dir@,
        ),
{
    let k: int = if u.overwrite {
        2
    } else {
        3
    };
    let t = ev.skip(k);
    assert(ev.skip(2).skip(1) =~= ev.skip(3));
    if !u.overwrite {
        assert(ev.skip(2)[0] == ev[2]);
    }
    if j >= k {
        assert(t[j - k] == ev[j]);
        if j - k >= 2 {
            let m = t.skip(2);
            assert(m[j - k - 2] == ev[j]);
            lemma_hooked(m, wanted_upload(u), r, j - k - 2);
        }
    }
    crate::paths::a_remote_path_ends_in_its_name(u.dir@, u.name@);
}

/// An upload to be printed is the body of its own request, inspected at its own
/// plate: it is put where the request says and printed as the request says.
pub proof fn an_upload_is_printed_as_asked(
    ev: Seq<StartEvent>,
    q: UploadStartQuery,
    r: StartAnswer,
    i: int,
)
    requires
        upload_job(ev, q, r),
        0 <= i < ev.len(),
        ev[i] is Started,
    ensures
        q.confirm && !q.dry_run,
        ev[0] matches StartEvent::Staged { limited: true, res: Ok(path) } && exists|j: int|
            0 < j < i && ((#[trigger] ev[j]) matches StartEvent::Uploaded {
                local,
                remote,
                res: Task::Done(Ok(_)),
            } && local == path && asks_for(
                ev[i]->Started_req,
                remote,
                q.plate,
                false,
                Seq::empty(),
                opt_text(q.bed_type),
                q.timelapse,
            ) && crate::text::after_last(remote, '/') == q.name@),
        match ev[i]->Started_req.inspection {
            Some(insp) => ev[1] matches StartEvent::StagedInspected {
                local,
                plate,
                res: Task::Done(Ok(seen)),
            } && seen == insp && plate == q.plate && local == ev[0]->Staged_res->Ok_0,
            None => !".3mf"@.is_suffix_of(crate::text::lower(q.name@)),
        },
{
    let path = ev[0]->Staged_res->Ok_0;
    let k: int = if is_three_mf(q.name@) {
        2
    } else {
        1
    };
    let t = ev.skip(k);
    if i >= k {
        assert(t[i - k] == ev[i]);
        let insp = if is_three_mf(q.name@) {
            Some(ev[1]->StagedInspected_res->Done_0->Ok_0)
        } else {
            None
        };
        let a = r->Answer_0;
        let u = choose|u: UploadStart|
            upload_of(u, q, path, insp) && #[trigger] uploaded_and_started(t, u, a);
        an_uploaded_start_is_guarded(t, u, a, i - k);
        let at = remote_path(u.dir@, u.name@);
        let j = choose|j: int| 0 <= j < i - k && arrived(#[trigger] t[j], at);
        assert(ev[j + k] == t[j]);
        what_was_uploaded_is_started(t, u, a, i - k, j);
        an_upload_goes_where_it_was_sent(t, u, a, j);
        assert(u.ams_map@ =~= Seq::<i32>::empty());
        assert(ev[j + k] is Uploaded);
    }
}

/// The dry run of an upload plans what the upload, confirmed, is printed as.
pub proof fn a_dry_upload_plans_what_is_printed(
    ev: Seq<StartEvent>,
    q: UploadStartQuery,
    p: Plan,
)
    requires
        upload_job(ev, q, StartAnswer::Plan(p)),
    ensures
        q.dry_run,
        crate::text::after_last(p.file@, '/') == q.name@,
        plans_for(
            p,
            p.file@,
            q.plate,
            false,
            Seq::empty(),
            opt_text(q.bed_type),
            q.timelapse,
        ),
        p.overwrite == Some(q.overwrite),
        ev.last() matches StartEvent::HookName(name) && opt_text(p.pre_print) == name,
        p.md5 matches Some(md5) ==> (ev[1] matches StartEvent::StagedInspected {
            local,
            plate,
            res: Task::Done(Ok(insp)),
        } && md5@ == insp.gcode_md5@ && p.has_timelapse_blocks == Some(insp.has_timelapse_blocks)),
{
    let k: int = if is_three_mf(q.name@) {
        2
    } else {
        1
    };
    let t = ev.skip(k);
    assert(t.last() == ev.last());
    assert(p.ams_map@ =~= Seq::<i32>::empty());
    let d = dir_or_root(opt_text(q.dir));
    crate::paths::a_remote_path_ends_in_its_name(d, q.name@);
}

/// A plain upload puts the body of its request under the name it gives, and is told
/// to have worked exactly where it did.
pub proof fn a_plain_upload_lands_under_its_name(
    ev: Seq<StartEvent>,
    name: Seq<char>,
    dir: Option<Seq<char>>,
    r: Result<String, Reply>,
)
    requires
        file_uploaded(ev, name, dir, r),
    ensures
        r matches Ok(told) ==> {
            &&& told@ == name
            &&& ev.len() == 2
            &&& ev[0] matches StartEvent::Staged { limited: false, res: Ok(path) }
            &&& ev[1] matches StartEvent::Uploaded { local, remote, res: Task::Done(Ok(_)) }
            &&& local == path
            &&& crate::text::after_last(remote, '/') == name
            &&& remote.take(remote.len() - name.len() - 1).is_prefix_of(
                match dir {
                    Some(d) => d,
                    None => "/"@,
                },
            )
        },
        (ev.len() == 2 && (ev[1] matches StartEvent::Uploaded { local, remote, res: Task::Done(Ok(_)) }))
            ==> r is Ok,
        name.contains('/') || name.contains('\\') || name.len() == 0 ==> r is Err && ev.len() == 0,
        forall|i: int| 0 <= i < ev.len() ==> !((#[trigger] ev[i]) is Started),
{
    crate::paths::a_remote_path_ends_in_its_name(dir_or_root(dir), name);
}

/// A body is taken in as long as it fits, which only what is printed or sliced has to,
/// and every byte of it is counted; it is complete only once it was written out, with
/// what was counted; and what goes wrong on this side is told as such.
pub proof fn a_body_is_counted_as_it_comes(limited: bool, written: u64, e: BodyEvent, r: BodyStep)
    requires
        body_answer(limited, written, e, r),
    ensures
        e matches BodyEvent::Chunk(n) ==> (r is Refuse <==> limited && written + n > 536870912),
        e matches BodyEvent::Chunk(n) ==> (r matches BodyStep::Write(m) ==> (written + n
            <= u64::MAX ==> m == written + n)),
        e matches BodyEvent::Chunk(n) ==> (r matches BodyStep::Refuse(x) ==> x@.0 == 413),
        r is Complete <==> (e matches BodyEvent::Ended { flushed } && flushed),
        r matches BodyStep::Complete(m) ==> m == written,
        e is Broken ==> (r matches BodyStep::Refuse(x) && x@.0 == 400),
        e is NotWritten ==> (r matches BodyStep::Refuse(x) && x@.0 == 500),
        e matches BodyEvent::NotCreated(why) ==> (r matches BodyStep::Refuse(x) && x@ == (
            500u16,
            why@,
        )),
{
}

/// A start that is sound, confirmed and whose trays fit goes through: it waits for
/// nothing but the lock and an idle printer, it runs the pre-print sequence where there
/// is one, flagged while it runs and not after, and it then starts the print; and
/// whichever of these fails is what it is refused for.
pub proof fn a_sound_start_goes_through(
    ev: Seq<StartEvent>,
    b: StartBody,
    r: StartAnswer,
    k: int,
)
    requires
        job_started(ev, b, r),
        start_invalid(b) is None,
        b.confirm,
        !b.dry_run,
        k == (if b.use_ams && ".3mf"@.is_suffix_of(crate::text::lower(b.file@)) {
            2int
        } else {
            0int
        }),
        k == 2 ==> (ev[0] matches StartEvent::Inspected { file, plate, res: Ok(Ok(insp)) } && (
        ev[1] matches StartEvent::MapChecked { map, filament_ids, res: Ok(_) }
            && b.ams_map@.len() == insp.filament_ids@.len())),
    ensures
        ev.len() > k,
        ev[k] is Locked,
        r is Answer,
        ev[k] == StartEvent::Locked(false) ==> ev.len() == k + 1 && (
        r->Answer_0 matches Answer::Refused(x) && x@.0 == 409),
        ev[k] == StartEvent::Locked(true) ==> ev.len() > k + 1 && (ev[k + 1] matches StartEvent::State(
            s,
        ) && match busy(s) {
            Some(why) => ev.len() == k + 2 && (r->Answer_0 matches Answer::Refused(x) && x@ == why),
            None => ev.len() > k + 3 && match ev[k + 2] {
                StartEvent::HookName(None) => ev.len() == k + 4 && ev[k + 3] is Started,
                StartEvent::HookName(Some(_)) => {
                    &&& ev.len() > k + 5
                    &&& ev[k + 3] == StartEvent::HookFlag(true)
                    &&& ev[k + 5] == StartEvent::HookFlag(false)
                    &&& ev[k + 4] matches StartEvent::HookRan(o)
                    &&& (o matches Task::Done(Ok(_))) ==> ev.len() == k + 7 && ev[k
                        + 6] is Started
                    &&& !(o matches Task::Done(Ok(_))) ==> ev.len() == k + 6 && (
                    r->Answer_0 is Refused)
                },
                _ => false,
            },
        }),
        ev.last() is Started ==> (match ev.last()->Started_res {
            Task::Done(Ok(o)) => r->Answer_0 matches Answer::Outcome { status, outcome } && outcome
                == o,
            _ => r->Answer_0 is Refused,
        }),
{
    let t = ev.skip(k);
    assert(k == 0 ==> t =~= ev);
    let a = r->Answer_0;
    assert(t[0] == ev[k]);
    if ev[k] == StartEvent::Locked(true) {
        assert(t[1] == ev[k + 1]);
        let s = ev[k + 1]->State_0;
        if busy(s) is None {
            let m = t.skip(2);
            assert(m[0] == ev[k + 2]);
            assert forall|x: int| 0 <= x < m.len() implies #[trigger] m[x] == ev[k + 2 + x] by {}
            match m[0]->HookName_0 {
                None => {
                    assert(m.skip(1)[0] == m[1]);
                },
                Some(_) => {
                    assert(m[1] == ev[k + 3] && m[2] == ev[k + 4] && m[3] == ev[k + 5]);
                    if ev[k + 4]->HookRan_0 matches Task::Done(Ok(_)) {
                        assert(m.skip(4)[0] == m[4]);
                    }
                },
            }
        }
    }
}

/// An upload that did not reach the printer is the printer's fault, and one that was lost
/// on the way this server's; a file that cannot be inspected is the file's.
pub proof fn an_upload_is_refused_for_what_went_wrong(
    sent: Task<Result<(), String>>,
    inspected: Task<Result<PlateInspection, String>>,
)
    ensures
        upload_failed(sent) is None <==> (sent matches Task::Done(Ok(_))),
        sent matches Task::Done(Err(e)) ==> upload_failed(sent) == Some((502u16, e@)),
        sent is Lost ==> (upload_failed(sent) matches Some(why) && why.0 == 500),
        staged_refusal(inspected) is None <==> (inspected matches Task::Done(Ok(_))),
        inspected matches Task::Done(Err(e)) ==> (staged_refusal(inspected) matches Some(why)
            && why.0 == 400 && e@.is_suffix_of(why.1)),
        inspected is Lost ==> (staged_refusal(inspected) matches Some(why) && why.0 == 500),
{
    if let Task::Done(Err(e)) = inspected {
        let t = "3mf inspection: "@ + e@;
        assert(t.subrange(t.len() - e@.len(), t.len() as int) =~= e@);
    }
}

/// A file of the same name stands in the way, and no other does; a listing that failed
/// does not.
pub proof fn only_a_file_of_its_name_stands_in_the_way(u: UploadStart, entries: Seq<FileEntry>)
    ensures
        would_overwrite(u, Some(entries)) is Some <==> exists|i: int|
            0 <= i < entries.len() && (#[trigger] entries[i]).name@ == u.name@,
        would_overwrite(u, Some(entries)) matches Some(why) ==> why.0 == 409,
        would_overwrite(u, None) is None,
{
}

/// An upload to be printed needs a sound name and directory, and is to be confirmed or
/// only planned.
pub proof fn an_upload_to_print_is_sound_and_confirmed(q: UploadStartQuery)
    ensures
        upload_start_invalid(q) is None <==> safe_file_name(q.name@) && safe_upload_dir(
            match q.dir {
                Some(d) => d@,
                None => "/"@,
            },
        ) && (q.confirm || q.dry_run),
        safe_file_name(q.name@) && safe_upload_dir(
            match q.dir {
                Some(d) => d@,
                None => "/"@,
            },
        ) && !q.confirm && !q.dry_run ==> (upload_start_invalid(q) matches Some(why) && why.0
            == 428),
        upload_start_invalid(q) matches Some(why) ==> why.0 == 400 || why.0 == 428,
{
}

/// An upload to be printed goes through where the lock is free, the printer idle before
/// and after it, and no file is in its way: it is sent and then started, after the
/// pre-print sequence where there is one; and what fails is what it is refused for.
pub proof fn a_sound_upload_goes_through(ev: Seq<StartEvent>, u: UploadStart, r: Answer, k: int)
    requires
        uploaded_and_started(ev, u, r),
        k == (if u.overwrite {
            2int
        } else {
            3int
        }),
    ensures
        ev.len() >= 1,
        ev[0] == StartEvent::Locked(false) ==> ev.len() == 1 && (r matches Answer::Refused(x)
            && x@.0 == 409),
        ev[0] == StartEvent::Locked(true) ==> ev.len() >= 2 && ev[1] is State,
        ev[0] == StartEvent::Locked(true) && busy(ev[1]->State_0) is Some ==> ev.len() == 2 && (
        r matches Answer::Refused(x) && Some(x@) == busy(ev[1]->State_0)),
        ev[0] == StartEvent::Locked(true) && busy(ev[1]->State_0) is None && (u.overwrite || (
        ev[2] matches StartEvent::Listed { dir, res: None })) ==> ev.len() > k && ev[k] is Uploaded,
        ev.len() > k && (ev[k] matches StartEvent::Uploaded { local, remote, res } && (
        res matches Task::Done(Ok(_)))) ==> ev.len() > k + 1 && (ev[k
            + 1] matches StartEvent::State(s) && match busy(s) {
            Some(why) => ev.len() == k + 2 && (r matches Answer::Refused(x) && x@ == why),
            None => ev.len() > k + 3 && match ev[k + 2] {
                StartEvent::HookName(None) => ev.len() == k + 4 && ev[k + 3] is Started,
                StartEvent::HookName(Some(_)) => {
                    &&& ev.len() > k + 5
                    &&& ev[k + 3] == StartEvent::HookFlag(true)
                    &&& ev[k + 5] == StartEvent::HookFlag(false)
                    &&& ev[k + 4] matches StartEvent::HookRan(o)
                    &&& (o matches Task::Done(Ok(_))) ==> ev.len() == k + 7 && ev[k
                        + 6] is Started
                    &&& !(o matches Task::Done(Ok(_))) ==> ev.len() == k + 6 && r is Refused
                },
                _ => false,
            },
        }),
{
    if ev[0] == StartEvent::Locked(true) && busy(ev[1]->State_0) is None {
        let c = ev.skip(2);
        assert(c.len() >= 1 && c[0] == ev[2]);
        let t = ev.skip(k);
        if u.overwrite {
            assert(t =~= c);
        } else {
            assert(t =~= c.skip(1));
        }
        if ev.len() > k {
            assert(t[0] == ev[k]);
            if ev[k] is Uploaded && (ev[k]->Uploaded_res matches Task::Done(Ok(_))) {
                assert(t[1] == ev[k + 1]);
                if busy(ev[k + 1]->State_0) is None {
                    let m = t.skip(2);
                    assert forall|x: int| 0 <= x < m.len() implies #[trigger] m[x] == ev[k + 2
                        + x] by {}
                    assert(m[0] == ev[k + 2]);
                    match m[0]->HookName_0 {
                        None => {
                            assert(m.skip(1)[0] == m[1]);
                        },
                        Some(_) => {
                            assert(m[1] == ev[k + 3] && m[2] == ev[k + 4] && m[3] == ev[k + 5]);
                            if ev[k + 4]->HookRan_0 matches Task::Done(Ok(_)) {
                                assert(m.skip(4)[0] == m[4]);
                            }
                        },
                    }
                }
            }
        }
    }
}

} // verus!
