//! Slicing a model into a file that can be printed, and printing it.
//!
//! What a slice request asks of the outside goes through a [`SlicePort`], and a
//! [`SliceTap`] keeps the log of it.
use vstd::prelude::*;

use crate::job::{
    ams_map_refusal, bad_ams_map, bed_or_auto, bed_type_or_auto, start_refused, Plan, StartAnswer,
    StartEvent, StartPort, StartTap,
};
use crate::number::{decimal, digits};
use crate::paths::{remote_in, remote_path};
use crate::reply::{
    bad, bad_request, conflict, need_confirm, opt_reply, or_refuse, reply, server_error,
    unconfirmed, Answer, Refusal, Reply,
};
use crate::slice_slot::{SliceJobStatus, SliceParams, SliceResult, SliceState};
use crate::start::{is_three_mf, PlateInspection};
use crate::text::{
    after_last, copied, debug_text, ends_with, join2, join3, lower, opt_text, quoted, same_text,
    tail_after, text_of, to_lower, trim, trimmed, Strip,
};
use crate::trace::lemma_then;
use crate::upload::{
    bad_dir, bad_name, dir_or_root, dir_refusal, name_refusal, staged_inspection,
    staged_refusal, upload_and_start, upload_dir, uploaded_and_started, UploadStart,
};

verus! {

/// What kind of slicer is installed, and whether it can draw previews.
#[derive(Debug)]
pub struct SlicerInfo {
    pub kind: String,
    /// Without a virtual display a slice still succeeds, with no preview in it.
    pub thumbnails: bool,
}

impl SlicerInfo {
    pub open spec fn same(self, o: SlicerInfo) -> bool {
        self.kind@ == o.kind@ && self.thumbnails == o.thumbnails
    }
}

/// Slices models. An error of `info` says why slicing is not available here.
pub trait Slicer {
    fn info(&self) -> Result<SlicerInfo, String>;

    /// Slice into the file that the parameters name; where the output is.
    fn slice(&mut self, p: &SliceParams) -> Result<String, String>;
}

/// No slicer here, or none for this model, and why.
#[derive(Debug)]
pub struct NoSlicer(pub String);

impl Slicer for NoSlicer {
    fn info(&self) -> (r: Result<SlicerInfo, String>)
        ensures
            r matches Err(e) && e@ == self.0@,
    {
        Err(self.0.clone())
    }

    fn slice(&mut self, p: &SliceParams) -> (r: Result<String, String>)
        ensures
            r matches Err(e) && e@ == old(self).0@,
            *final(self) == *old(self),
    {
        Err(self.0.clone())
    }
}

// ── Availability ────────────────────────────────────────────────────────────

/// The printer that would be sliced for: its model, and the machine whose
/// profiles are verified for it, where there is one.
#[derive(Debug)]
pub struct SliceTarget {
    pub model: Option<String>,
    pub machine_base: Option<String>,
}

/// Why a model without verified profiles is not sliced for.
pub open spec fn unmapped(model: Option<Seq<char>>) -> Seq<char> {
    "no verified slicer profile mapping for model "@ + match model {
        Some(m) => m,
        None => "unknown"@,
    }
}

/// Whether this printer can be sliced for: the machine's profiles have to be
/// verified, and the slicer has to be there. No other machine's profile stands
/// in for a missing one.
pub open spec fn available(
    t: SliceTarget,
    info: Result<SlicerInfo, String>,
    r: Result<SlicerInfo, String>,
) -> bool {
    if t.machine_base is None {
        r matches Err(e) && e@ == unmapped(opt_text(t.model))
    } else {
        r == info
    }
}

/// The answer on availability, from what the slicer says of itself.
pub fn slice_available(t: &SliceTarget, info: Result<SlicerInfo, String>) -> (r: Result<
    SlicerInfo,
    String,
>)
    ensures
        available(*t, info, r),
{
    match &t.machine_base {
        Some(_) => info,
        None => match &t.model {
            Some(m) => Err(join2("no verified slicer profile mapping for model ", m.as_str())),
            None => Err(join2("no verified slicer profile mapping for model ", "unknown")),
        },
    }
}

/// What a client is told of slicing here.
#[derive(Debug)]
pub struct SliceInfo {
    pub available: bool,
    pub slicer: Option<SlicerInfo>,
    pub reason: Option<String>,
    pub machine: Option<String>,
    pub job: SliceJobStatus,
}

/// Whether slicing is available, and what the job is doing.
pub fn slice_info(t: &SliceTarget, info: Result<SlicerInfo, String>, job: SliceJobStatus) -> (r:
    SliceInfo)
    ensures
        r.available == (t.machine_base is Some && info is Ok),
        r.available ==> r.reason is None && r.slicer == Some(info->Ok_0),
        !r.available ==> r.slicer is None && opt_text(r.reason) == Some(
            if t.machine_base is None {
                unmapped(opt_text(t.model))
            } else {
                info->Err_0@
            },
        ),
        opt_text(r.machine) == opt_text(t.machine_base),
        r.job == job,
{
    let (slicer, reason): (Option<SlicerInfo>, Option<String>) = match slice_available(t, info) {
        Ok(i) => (Some(i), None),
        Err(e) => (None, Some(e)),
    };
    SliceInfo {
        available: slicer.is_some(),
        slicer,
        reason,
        machine: copied(&t.machine_base),
        job,
    }
}

// ── The outside of a slice request ──────────────────────────────────────────

/// What a slice request asks of the outside.
pub trait SlicePort {
    /// Whether a profile of this name stays within the profiles' directory.
    fn is_safe_profile_name(&mut self, name: &str) -> bool;

    /// What the slicer says of itself.
    fn info(&mut self) -> Result<SlicerInfo, String>;

    /// The nozzle the printer reports.
    fn reported_nozzle(&mut self) -> Option<String>;

    /// The machine preset for this nozzle.
    fn machine_profile(&mut self, nozzle: &str) -> String;

    /// The suffix of the process presets for this nozzle, or why there are none.
    fn process_suffix(&mut self, nozzle: &str) -> Result<String, String>;

    /// Whether the nozzle can lay layers of this height.
    fn layer_fits_nozzle(&mut self, layer: &str, nozzle: &str) -> Result<(), String>;

    /// Claim the printer's slice job; whether it was free.
    fn reserve(&mut self) -> bool;

    /// Give the claim back.
    fn release(&mut self);

    /// Spend the claim.
    fn commit(&mut self);

    /// Receive the request's body into a file whose name ends in `suffix`, held to
    /// the limit; where it is, and how many bytes came.
    fn stage(&mut self, suffix: &str) -> Result<(String, u64), Reply>;

    /// Whether this file is a project with plates of its own.
    fn is_authored_project(&mut self, path: &str) -> Result<bool, String>;

    /// Make the job's working directory; where it is.
    fn make_workdir(&mut self) -> Result<String, String>;

    /// The name of the output for a model of this name.
    fn output_name(&mut self, name: &str) -> String;

    /// Start the job.
    fn start(&mut self, p: SliceParams) -> Result<(), String>;
}

/// The parameters of a slice, by their texts.
pub struct ParamsView {
    pub input: Seq<char>,
    pub input_name: Seq<char>,
    pub out_dir: Seq<char>,
    pub out_name: Seq<char>,
    pub machine_profile: Seq<char>,
    pub preset_suffix: Seq<char>,
    pub layer_mm: Seq<char>,
    pub filament: Seq<char>,
    pub bed_type: Seq<char>,
    pub brim_mm: Option<Seq<char>>,
}

pub open spec fn params_view(p: SliceParams) -> ParamsView {
    ParamsView {
        input: p.input@,
        input_name: p.input_name@,
        out_dir: p.out_dir@,
        out_name: p.out_name@,
        machine_profile: p.machine_profile@,
        preset_suffix: p.preset_suffix@,
        layer_mm: p.layer_mm@,
        filament: p.filament@,
        bed_type: p.bed_type@,
        brim_mm: opt_text(p.brim_mm),
    }
}

/// One question to the outside and its answer.
#[allow(inconsistent_fields)]
pub enum SliceEvent {
    NameSafe { name: Seq<char>, safe: bool },
    Info(Result<SlicerInfo, String>),
    Nozzle(Option<Seq<char>>),
    Machine { nozzle: Seq<char>, profile: Seq<char> },
    Suffix { nozzle: Seq<char>, res: Result<String, String> },
    Fits { layer: Seq<char>, nozzle: Seq<char>, res: Result<(), String> },
    Reserved(bool),
    Released,
    Committed,
    Staged { suffix: Seq<char>, res: Result<(String, u64), Reply> },
    Authored { path: Seq<char>, res: Result<bool, String> },
    Workdir(Result<String, String>),
    OutName { name: Seq<char>, out: Seq<char> },
    Started { params: ParamsView, res: Result<(), String> },
}

/// A port and the log of what went through it.
pub struct SliceTap<P> {
    port: P,
    events: Ghost<Seq<SliceEvent>>,
}

impl<P: SlicePort> SliceTap<P> {
    /// What went through the port so far.
    pub closed spec fn log(self) -> Seq<SliceEvent> {
        self.events@
    }

    /// The port as it is now.
    pub closed spec fn inner(self) -> P {
        self.port
    }

    pub fn new(port: P) -> (r: SliceTap<P>)
        ensures
            r.inner() == port,
            r.log() == Seq::<SliceEvent>::empty(),
    {
        SliceTap { port, events: Ghost(Seq::empty()) }
    }

    /// The port again.
    pub fn into_port(self) -> (r: P)
        ensures
            r == self.inner(),
    {
        self.port
    }

    fn is_safe_profile_name(&mut self, name: &str) -> (r: bool)
        ensures
            final(self).log() == old(self).log().push(
                SliceEvent::NameSafe { name: name@, safe: r },
            ),
    {
        let r: bool = self.port.is_safe_profile_name(name);
        self.events = Ghost(self.events@.push(SliceEvent::NameSafe { name: name@, safe: r }));
        r
    }

    fn info(&mut self) -> (r: Result<SlicerInfo, String>)
        ensures
            final(self).log() == old(self).log().push(SliceEvent::Info(r)),
    {
        let r = self.port.info();
        self.events = Ghost(self.events@.push(SliceEvent::Info(r)));
        r
    }

    fn reported_nozzle(&mut self) -> (r: Option<String>)
        ensures
            final(self).log() == old(self).log().push(SliceEvent::Nozzle(opt_text(r))),
    {
        let r = self.port.reported_nozzle();
        self.events = Ghost(self.events@.push(SliceEvent::Nozzle(opt_text(r))));
        r
    }

    fn machine_profile(&mut self, nozzle: &str) -> (r: String)
        ensures
            final(self).log() == old(self).log().push(
                SliceEvent::Machine { nozzle: nozzle@, profile: r@ },
            ),
    {
        let r = self.port.machine_profile(nozzle);
        self.events = Ghost(self.events@.push(SliceEvent::Machine { nozzle: nozzle@, profile: r@ }));
        r
    }

    fn process_suffix(&mut self, nozzle: &str) -> (r: Result<String, String>)
        ensures
            final(self).log() == old(self).log().push(
                SliceEvent::Suffix { nozzle: nozzle@, res: r },
            ),
    {
        let r = self.port.process_suffix(nozzle);
        self.events = Ghost(self.events@.push(SliceEvent::Suffix { nozzle: nozzle@, res: r }));
        r
    }

    fn layer_fits_nozzle(&mut self, layer: &str, nozzle: &str) -> (r: Result<(), String>)
        ensures
            final(self).log() == old(self).log().push(
                SliceEvent::Fits { layer: layer@, nozzle: nozzle@, res: r },
            ),
    {
        let r = self.port.layer_fits_nozzle(layer, nozzle);
        self.events =
        Ghost(self.events@.push(SliceEvent::Fits { layer: layer@, nozzle: nozzle@, res: r }));
        r
    }

    fn reserve(&mut self) -> (r: bool)
        ensures
            final(self).log() == old(self).log().push(SliceEvent::Reserved(r)),
    {
        let r: bool = self.port.reserve();
        self.events = Ghost(self.events@.push(SliceEvent::Reserved(r)));
        r
    }

    fn release(&mut self)
        ensures
            final(self).log() == old(self).log().push(SliceEvent::Released),
    {
        self.port.release();
        self.events = Ghost(self.events@.push(SliceEvent::Released));
    }

    fn commit(&mut self)
        ensures
            final(self).log() == old(self).log().push(SliceEvent::Committed),
    {
        self.port.commit();
        self.events = Ghost(self.events@.push(SliceEvent::Committed));
    }

    fn stage(&mut self, suffix: &str) -> (r: Result<(String, u64), Reply>)
        ensures
            final(self).log() == old(self).log().push(
                SliceEvent::Staged { suffix: suffix@, res: r },
            ),
    {
        let r = self.port.stage(suffix);
        self.events = Ghost(self.events@.push(SliceEvent::Staged { suffix: suffix@, res: r }));
        r
    }

    fn is_authored_project(&mut self, path: &str) -> (r: Result<bool, String>)
        ensures
            final(self).log() == old(self).log().push(
                SliceEvent::Authored { path: path@, res: r },
            ),
    {
        let r = self.port.is_authored_project(path);
        self.events = Ghost(self.events@.push(SliceEvent::Authored { path: path@, res: r }));
        r
    }

    fn make_workdir(&mut self) -> (r: Result<String, String>)
        ensures
            final(self).log() == old(self).log().push(SliceEvent::Workdir(r)),
    {
        let r = self.port.make_workdir();
        self.events = Ghost(self.events@.push(SliceEvent::Workdir(r)));
        r
    }

    fn output_name(&mut self, name: &str) -> (r: String)
        ensures
            final(self).log() == old(self).log().push(
                SliceEvent::OutName { name: name@, out: r@ },
            ),
    {
        let r = self.port.output_name(name);
        self.events = Ghost(self.events@.push(SliceEvent::OutName { name: name@, out: r@ }));
        r
    }

    fn start(&mut self, p: SliceParams) -> (r: Result<(), String>)
        ensures
            final(self).log() == old(self).log().push(
                SliceEvent::Started { params: params_view(p), res: r },
            ),
    {
        let ghost params = params_view(p);
        let r = self.port.start(p);
        self.events = Ghost(self.events@.push(SliceEvent::Started { params, res: r }));
        r
    }
}

// ── Asking for a slice ──────────────────────────────────────────────────────

/// A slice as it was asked for. The layer height and the brim are the numbers as
/// they are written; the brim comes with whether it lies within 0 to 20 mm.
#[derive(Debug)]
pub struct SliceQuery {
    pub name: Option<String>,
    pub layer: Option<String>,
    pub filament: Option<String>,
    pub bed_type: Option<String>,
    pub brim: Option<(String, bool)>,
    pub nozzle: Option<String>,
}

/// The text, or nothing.
pub open spec fn or_empty(s: Option<Seq<char>>) -> Seq<char> {
    match s {
        Some(t) => t,
        None => Seq::empty(),
    }
}

/// The text where it says something.
pub open spec fn filled_text(s: Option<Seq<char>>) -> Option<Seq<char>> {
    match s {
        Some(t) => if trimmed(t, Strip::Space).len() == 0 {
            None
        } else {
            Some(t)
        },
        None => None,
    }
}

/// The text where it says something.
fn filled(s: &Option<String>) -> (r: Option<String>)
    ensures
        opt_text(r) == filled_text(opt_text(*s)),
{
    match s {
        Some(t) => {
            let core = trim(t.as_str(), Strip::Space);
            if same_text(core.as_str(), "") {
                proof {
                    reveal_strlit("");
                }
                None
            } else {
                proof {
                    reveal_strlit("");
                    if core@.len() == 0 {
                        assert(core@ =~= ""@);
                    }
                }
                Some(t.clone())
            }
        },
        None => None,
    }
}

/// A model that the slicer reads.
pub open spec fn is_model_file(name: Seq<char>) -> bool {
    ||| ".stl"@.is_suffix_of(lower(name))
    ||| ".obj"@.is_suffix_of(lower(name))
    ||| ".amf"@.is_suffix_of(lower(name))
    ||| ".3mf"@.is_suffix_of(lower(name))
}

/// What is wrong with the name of a model.
pub open spec fn bad_model(name: Seq<char>) -> Option<Refusal> {
    if bad_name(name) is Some {
        bad_name(name)
    } else if ".gcode.3mf"@.is_suffix_of(lower(name)) {
        Some(
            bad(
                "that is already a sliced .gcode.3mf — send it to the printer with /job/upload-start"@,
            ),
        )
    } else if !is_model_file(name) {
        Some(
            bad(
                debug_text(name)
                    + " is not a model file this slicer reads: expected .stl, .obj, .amf or .3mf (STEP is not supported — convert it first)"@,
            ),
        )
    } else {
        None
    }
}

fn model_refusal(name: &str) -> (r: Option<Reply>)
    ensures
        opt_reply(r) == bad_model(name@),
{
    if let Some(why) = name_refusal(name) {
        return Some(why);
    }
    let lowered = to_lower(name);
    let l = lowered.as_str();
    if ends_with(l, ".gcode.3mf") {
        return Some(
            bad_request(
                "that is already a sliced .gcode.3mf — send it to the printer with /job/upload-start".to_owned(),
            ),
        );
    }
    if !(ends_with(l, ".stl") || ends_with(l, ".obj") || ends_with(l, ".amf") || ends_with(
        l,
        ".3mf",
    )) {
        let q = quoted(name);
        return Some(
            bad_request(
                join2(
                    q.as_str(),
                    " is not a model file this slicer reads: expected .stl, .obj, .amf or .3mf (STEP is not supported — convert it first)",
                ),
            ),
        );
    }
    None
}

/// The refusal of a slice without a layer height.
pub open spec fn no_layer() -> Refusal {
    bad(
        "layer required: the layer height in mm, e.g. &layer=0.2 (there is no default — it is your call, not the server's)"@,
    )
}

/// The refusal of a slice without a filament.
pub open spec fn no_filament() -> Refusal {
    bad("filament required: a full profile name, e.g. &filament=Bambu PLA Basic @BBL A1M"@)
}

/// The refusal of a slice without a plate.
pub open spec fn no_bed_type() -> Refusal {
    bad(
        "bed_type required: the plate actually on the printer, e.g. &bed_type=Textured PEI Plate — it sets the bed temperature, and guessing it means a cold plate and a print that lifts"@,
    )
}

/// What is wrong with a request before anything is asked.
pub open spec fn slice_invalid(q: SliceQuery) -> Option<Refusal> {
    let name = or_empty(opt_text(q.name));
    if bad_model(name) is Some {
        bad_model(name)
    } else if q.layer is None {
        Some(no_layer())
    } else if filled_text(opt_text(q.filament)) is None {
        Some(no_filament())
    } else {
        None
    }
}

/// What a request to slice is answered.
#[derive(Debug)]
pub enum SliceAnswer {
    /// The job runs.
    Accepted,
    Refused(Reply),
}

pub open spec fn slice_refused(r: SliceAnswer, why: Refusal) -> bool {
    r matches SliceAnswer::Refused(x) && x@ == why
}

/// The extension that the staged model keeps, in lower case: the slicer chooses
/// its reader by it. A name that starts with its only dot has none.
pub open spec fn model_suffix(name: Seq<char>) -> Seq<char> {
    let tail = after_last(name, '.');
    if tail.len() + 1 >= name.len() {
        Seq::empty()
    } else {
        "."@ + lower(tail)
    }
}

fn staged_suffix(name: &str) -> (r: String)
    ensures
        r@ == model_suffix(name@),
{
    let tail = tail_after(name, '.');
    let a = crate::text::chars_of(name);
    let b = crate::text::chars_of(tail.as_str());
    if b.len() >= a.len() || a.len() - b.len() == 1 {
        let none: Vec<char> = Vec::new();
        let r = text_of(&none);
        proof {
            assert(r@ =~= Seq::<char>::empty());
        }
        r
    } else {
        let low = to_lower(tail.as_str());
        join2(".", low.as_str())
    }
}

/// The nozzle to slice for: the one the printer reports, else the caller's.
pub open spec fn nozzle_of(reported: Option<Seq<char>>, asked: Option<Seq<char>>) -> Option<
    Seq<char>,
> {
    match reported {
        Some(n) => Some(n),
        None => filled_text(asked),
    }
}

/// What was found for a job before it is launched: the staged model, and the
/// profiles for the nozzle.
pub struct Prepared {
    pub input: Seq<char>,
    pub machine: Seq<char>,
    pub suffix: Seq<char>,
}

/// The parameters of the job, which works in `dir`.
pub open spec fn job_params(
    q: SliceQuery,
    dir: Seq<char>,
    out: Seq<char>,
    f: Prepared,
) -> ParamsView {
    ParamsView {
        input: f.input,
        input_name: or_empty(opt_text(q.name)),
        out_dir: dir,
        out_name: out,
        machine_profile: f.machine,
        preset_suffix: f.suffix,
        layer_mm: or_empty(opt_text(q.layer)),
        filament: or_empty(opt_text(q.filament)),
        bed_type: or_empty(opt_text(q.bed_type)),
        brim_mm: match q.brim {
            Some((t, _)) => Some(t@),
            None => None,
        },
    }
}

/// `ev` starts the job in a fresh directory, spending the claim where the job
/// runs and giving it back where it does not.
pub open spec fn launched(
    ev: Seq<SliceEvent>,
    q: SliceQuery,
    f: Prepared,
    r: SliceAnswer,
) -> bool {
    &&& ev.len() >= 1
    &&& ev[0] matches SliceEvent::Workdir(dir)
    &&& match dir {
        Err(e) => {
            &&& ev.len() == 2
            &&& ev[1] is Released
            &&& slice_refused(r, (500, e@))
        },
        Ok(d) => {
            &&& ev.len() == 4
            &&& ev[1] matches SliceEvent::OutName { name, out }
            &&& name == or_empty(opt_text(q.name))
            &&& ev[2] matches SliceEvent::Started { params, res }
            &&& params == job_params(q, d@, out, f)
            &&& match res {
                Ok(_) => ev[3] is Committed && r is Accepted,
                Err(e) => ev[3] is Released && slice_refused(r, conflict(e@)),
            }
        },
    }
}

/// Why a staged project is not sliced.
pub open spec fn authored_refusal(res: Result<bool, String>) -> Option<Refusal> {
    match res {
        Ok(false) => None,
        Ok(true) => Some(
            bad(
                "this is an authored project 3mf; slicing it here would re-arrange and re-orient its plates — slice it with its own settings instead"@,
            ),
        ),
        Err(e) => Some(bad("3mf inspection: "@ + e@)),
    }
}

/// `ev` stages the model under the claim, and goes on to the job. Whatever it
/// ends with, the claim is given back or spent.
pub open spec fn claimed(
    ev: Seq<SliceEvent>,
    q: SliceQuery,
    machine: Seq<char>,
    suffix: Seq<char>,
    r: SliceAnswer,
) -> bool {
    let name = or_empty(opt_text(q.name));
    &&& ev.len() >= 1
    &&& ev[0] matches SliceEvent::Staged { suffix: ext, res }
    &&& ext == model_suffix(name)
    &&& match res {
        Err(why) => ev.len() == 2 && ev[1] is Released && slice_refused(r, why@),
        Ok((input, n)) => if n == 0 {
            &&& ev.len() == 2
            &&& ev[1] is Released
            &&& slice_refused(r, bad("empty body: POST the model file's bytes"@))
        } else if is_three_mf(name) {
            &&& ev.len() >= 2
            &&& ev[1] matches SliceEvent::Authored { path, res: authored }
            &&& path == input@
            &&& match authored_refusal(authored) {
                Some(why) => ev.len() == 3 && ev[2] is Released && slice_refused(r, why),
                None => launched(ev.skip(2), q, Prepared { input: input@, machine, suffix }, r),
            }
        } else {
            launched(ev.skip(1), q, Prepared { input: input@, machine, suffix }, r)
        },
    }
}

/// `ev` finds the profiles for the nozzle, asks whether it can lay the layers,
/// and claims the job.
pub open spec fn fitted(ev: Seq<SliceEvent>, q: SliceQuery, r: SliceAnswer) -> bool {
    &&& ev.len() >= 1
    &&& ev[0] matches SliceEvent::Nozzle(reported)
    &&& match nozzle_of(reported, opt_text(q.nozzle)) {
        None => ev.len() == 1 && slice_refused(r, bad("nozzle unknown — pass &nozzle=0.4"@)),
        Some(nozzle) => {
            &&& ev.len() >= 3
            &&& ev[1] matches SliceEvent::Machine { nozzle: n1, profile }
            &&& n1 == nozzle
            &&& ev[2] matches SliceEvent::NameSafe { name, safe }
            &&& name == profile
            &&& if !safe {
                ev.len() == 3 && slice_refused(r, bad("invalid nozzle "@ + debug_text(nozzle)))
            } else {
                &&& ev.len() >= 4
                &&& ev[3] matches SliceEvent::Suffix { nozzle: n2, res }
                &&& n2 == nozzle
                &&& match res {
                    Err(why) => ev.len() == 4 && slice_refused(r, bad(why@)),
                    Ok(suffix) => {
                        &&& ev.len() >= 5
                        &&& ev[4] matches SliceEvent::Fits { layer, nozzle: n3, res: fits }
                        &&& n3 == nozzle
                        &&& layer == or_empty(opt_text(q.layer))
                        &&& match fits {
                            Err(why) => ev.len() == 5 && slice_refused(r, bad(why@)),
                            Ok(_) => {
                                &&& ev.len() >= 6
                                &&& ev[5] matches SliceEvent::Reserved(free)
                                &&& if !free {
                                    ev.len() == 6 && slice_refused(
                                        r,
                                        conflict("a slice is already running"@),
                                    )
                                } else {
                                    claimed(ev.skip(6), q, profile, suffix@, r)
                                }
                            },
                        }
                    },
                }
            }
        },
    }
}

/// `ev` asks whether the slicer is there.
pub open spec fn supplied(
    ev: Seq<SliceEvent>,
    t: SliceTarget,
    q: SliceQuery,
    r: SliceAnswer,
) -> bool {
    if t.machine_base is None {
        ev.len() == 0 && slice_refused(r, (503, unmapped(opt_text(t.model))))
    } else {
        &&& ev.len() >= 1
        &&& ev[0] matches SliceEvent::Info(info)
        &&& match info {
            Err(why) => ev.len() == 1 && slice_refused(r, (503, why@)),
            Ok(_) => fitted(ev.skip(1), q, r),
        }
    }
}

/// The refusal of a brim out of range.
pub open spec fn bad_brim(brim: Option<(String, bool)>) -> Option<Refusal> {
    match brim {
        Some((t, ok)) => if ok {
            None
        } else {
            Some(bad("brim="@ + t@ + " is outside 0–20 mm"@))
        },
        None => None,
    }
}

/// `ev` is all that a request to slice does outside, and `r` what it is answered.
pub open spec fn slice_asked(
    ev: Seq<SliceEvent>,
    t: SliceTarget,
    q: SliceQuery,
    r: SliceAnswer,
) -> bool {
    match slice_invalid(q) {
        Some(why) => ev.len() == 0 && slice_refused(r, why),
        None => {
            let filament = or_empty(opt_text(q.filament));
            &&& ev.len() >= 1
            &&& ev[0] == SliceEvent::NameSafe { name: filament, safe: ev[0]->NameSafe_safe }
            &&& if !ev[0]->NameSafe_safe {
                ev.len() == 1 && slice_refused(
                    r,
                    bad("invalid filament profile name "@ + debug_text(filament)),
                )
            } else if filled_text(opt_text(q.bed_type)) is None {
                ev.len() == 1 && slice_refused(r, no_bed_type())
            } else {
                let bed = or_empty(opt_text(q.bed_type));
                &&& ev.len() >= 2
                &&& ev[1] == SliceEvent::NameSafe { name: bed, safe: ev[1]->NameSafe_safe }
                &&& if !ev[1]->NameSafe_safe {
                    ev.len() == 2 && slice_refused(
                        r,
                        bad("invalid bed_type "@ + debug_text(bed)),
                    )
                } else {
                    match bad_brim(q.brim) {
                        Some(why) => ev.len() == 2 && slice_refused(r, why),
                        None => supplied(ev.skip(2), t, q, r),
                    }
                }
            }
        },
    }
}

fn text_or_empty(s: &Option<String>) -> (r: String)
    ensures
        r@ == or_empty(opt_text(*s)),
{
    match s {
        Some(t) => t.clone(),
        None => {
            let none: Vec<char> = Vec::new();
            let r = text_of(&none);
            proof {
                assert(r@ =~= Seq::<char>::empty());
            }
            r
        },
    }
}

fn launch<P: SlicePort>(
    tap: &mut SliceTap<P>,
    q: &SliceQuery,
    input: String,
    machine: String,
    suffix: String,
) -> (r: SliceAnswer)
    ensures
        old(tap).log().is_prefix_of(final(tap).log()),
        launched(
            final(tap).log().skip(old(tap).log().len() as int),
            *q,
            (Prepared { input: input@, machine: machine@, suffix: suffix@ }),
            r,
        ),
{
    let ghost start = tap.log();
    let out_dir = match tap.make_workdir() {
        Ok(d) => d,
        Err(e) => {
            tap.release();
            return SliceAnswer::Refused(server_error(e));
        },
    };
    let name = text_or_empty(&q.name);
    let out = tap.output_name(name.as_str());
    let brim_mm = match &q.brim {
        Some((t, _)) => Some(t.clone()),
        None => None,
    };
    let params = SliceParams {
        input,
        input_name: name,
        out_dir,
        out_name: out,
        machine_profile: machine,
        preset_suffix: suffix,
        layer_mm: text_or_empty(&q.layer),
        filament: text_or_empty(&q.filament),
        bed_type: text_or_empty(&q.bed_type),
        brim_mm,
    };
    let started = tap.start(params);
    match started {
        Ok(_) => {
            tap.commit();
            SliceAnswer::Accepted
        },
        Err(e) => {
            tap.release();
            SliceAnswer::Refused(reply(409, e))
        },
    }
}

fn stage_and_launch<P: SlicePort>(
    tap: &mut SliceTap<P>,
    q: &SliceQuery,
    machine: String,
    suffix: String,
) -> (r: SliceAnswer)
    ensures
        old(tap).log().is_prefix_of(final(tap).log()),
        claimed(final(tap).log().skip(old(tap).log().len() as int), *q, machine@, suffix@, r),
{
    let ghost start = tap.log();
    let name = text_or_empty(&q.name);
    let ext = staged_suffix(name.as_str());
    let (input, written): (String, u64) = match tap.stage(ext.as_str()) {
        Ok(staged) => staged,
        Err(why) => {
            tap.release();
            return SliceAnswer::Refused(why);
        },
    };
    if written == 0 {
        tap.release();
        return SliceAnswer::Refused(
            bad_request("empty body: POST the model file's bytes".to_owned()),
        );
    }
    let lowered = to_lower(name.as_str());
    if ends_with(lowered.as_str(), ".3mf") {
        match tap.is_authored_project(input.as_str()) {
            Ok(true) => {
                tap.release();
                return SliceAnswer::Refused(
                    bad_request(
                        "this is an authored project 3mf; slicing it here would re-arrange and re-orient its plates — slice it with its own settings instead".to_owned(),
                    ),
                );
            },
            Ok(false) => {},
            Err(e) => {
                tap.release();
                return SliceAnswer::Refused(bad_request(join2("3mf inspection: ", e.as_str())));
            },
        }
    }
    let ghost mid = tap.log();
    let r = launch(tap, q, input, machine, suffix);
    proof {
        lemma_then(start, mid, tap.log());
    }
    r
}

fn fit_and_claim<P: SlicePort>(tap: &mut SliceTap<P>, q: &SliceQuery) -> (r: SliceAnswer)
    ensures
        old(tap).log().is_prefix_of(final(tap).log()),
        fitted(final(tap).log().skip(old(tap).log().len() as int), *q, r),
{
    let ghost start = tap.log();
    let nozzle = match tap.reported_nozzle() {
        Some(n) => n,
        None => match filled(&q.nozzle) {
            Some(n) => n,
            None => {
                return SliceAnswer::Refused(
                    bad_request("nozzle unknown — pass &nozzle=0.4".to_owned()),
                );
            },
        },
    };
    let machine = tap.machine_profile(nozzle.as_str());
    if !tap.is_safe_profile_name(machine.as_str()) {
        let n = quoted(nozzle.as_str());
        return SliceAnswer::Refused(bad_request(join2("invalid nozzle ", n.as_str())));
    }
    let suffix = match tap.process_suffix(nozzle.as_str()) {
        Ok(s) => s,
        Err(why) => {
            return SliceAnswer::Refused(bad_request(why));
        },
    };
    let layer = text_or_empty(&q.layer);
    if let Err(why) = tap.layer_fits_nozzle(layer.as_str(), nozzle.as_str()) {
        return SliceAnswer::Refused(bad_request(why));
    }
    if !tap.reserve() {
        return SliceAnswer::Refused(reply(409, "a slice is already running".to_owned()));
    }
    let ghost mid = tap.log();
    let r = stage_and_launch(tap, q, machine, suffix);
    proof {
        lemma_then(start, mid, tap.log());
    }
    r
}

fn find_slicer<P: SlicePort>(tap: &mut SliceTap<P>, t: &SliceTarget, q: &SliceQuery) -> (r:
    SliceAnswer)
    ensures
        old(tap).log().is_prefix_of(final(tap).log()),
        supplied(final(tap).log().skip(old(tap).log().len() as int), *t, *q, r),
{
    let ghost start = tap.log();
    if t.machine_base.is_none() {
        return match &t.model {
            Some(m) => SliceAnswer::Refused(
                reply(503, join2("no verified slicer profile mapping for model ", m.as_str())),
            ),
            None => SliceAnswer::Refused(
                reply(503, join2("no verified slicer profile mapping for model ", "unknown")),
            ),
        };
    }
    if let Err(why) = tap.info() {
        return SliceAnswer::Refused(reply(503, why));
    }
    let ghost mid = tap.log();
    let r = fit_and_claim(tap, q);
    proof {
        lemma_then(start, mid, tap.log());
    }
    r
}

/// Slice a model. The layer height, the filament and the plate have to be given:
/// only the caller knows them. The job is claimed before the model is received,
/// so that one slice at a time bounds the disk as well as the slicer.
pub fn slice_start<P: SlicePort>(tap: &mut SliceTap<P>, t: &SliceTarget, q: &SliceQuery) -> (r:
    SliceAnswer)
    ensures
        old(tap).log().is_prefix_of(final(tap).log()),
        slice_asked(final(tap).log().skip(old(tap).log().len() as int), *t, *q, r),
{
    let ghost start = tap.log();
    let name = text_or_empty(&q.name);
    if let Some(why) = model_refusal(name.as_str()) {
        return SliceAnswer::Refused(why);
    }
    if q.layer.is_none() {
        return SliceAnswer::Refused(
            bad_request(
                "layer required: the layer height in mm, e.g. &layer=0.2 (there is no default — it is your call, not the server's)".to_owned(),
            ),
        );
    }
    let filament = match filled(&q.filament) {
        Some(f) => f,
        None => {
            return SliceAnswer::Refused(
                bad_request(
                    "filament required: a full profile name, e.g. &filament=Bambu PLA Basic @BBL A1M".to_owned(),
                ),
            );
        },
    };
    if !tap.is_safe_profile_name(filament.as_str()) {
        let f = quoted(filament.as_str());
        return SliceAnswer::Refused(
            bad_request(join2("invalid filament profile name ", f.as_str())),
        );
    }
    let bed = match filled(&q.bed_type) {
        Some(b) => b,
        None => {
            return SliceAnswer::Refused(
                bad_request(
                    "bed_type required: the plate actually on the printer, e.g. &bed_type=Textured PEI Plate — it sets the bed temperature, and guessing it means a cold plate and a print that lifts".to_owned(),
                ),
            );
        },
    };
    if !tap.is_safe_profile_name(bed.as_str()) {
        let b = quoted(bed.as_str());
        return SliceAnswer::Refused(bad_request(join2("invalid bed_type ", b.as_str())));
    }
    if let Some((text, ok)) = &q.brim {
        if !*ok {
            return SliceAnswer::Refused(
                bad_request(join3("brim=", text.as_str(), " is outside 0–20 mm")),
            );
        }
    }
    let ghost mid = tap.log();
    let r = find_slicer(tap, t, q);
    proof {
        lemma_then(start, mid, tap.log());
    }
    r
}

// ── Handing the slice out ───────────────────────────────────────────────────

/// What a request for the finished slice is answered.
#[derive(Debug)]
pub enum SliceDownload {
    Refused(Reply),
    /// There is none: with what the job is doing.
    Missing(Reply, SliceJobStatus),
    /// The file at this path, to be saved under this name.
    File { path: String, name: String },
}

/// What the file of a slice is called.
pub open spec fn slice_name(out_name: Option<Seq<char>>) -> Seq<char> {
    match out_name {
        Some(n) => n,
        None => "slice.gcode.3mf"@,
    }
}

fn name_of_slice(out_name: &Option<String>) -> (r: String)
    ensures
        r@ == slice_name(opt_text(*out_name)),
{
    match out_name {
        Some(n) => n.clone(),
        None => "slice.gcode.3mf".to_owned(),
    }
}

/// The finished slice, as far as there is one.
pub fn slice_result(status: SliceJobStatus, done: Option<SliceResult>) -> (r: SliceDownload)
    ensures
        if status.state is Running {
            r matches SliceDownload::Refused(why) && why@ == conflict("slice still running"@)
        } else {
            match done {
                None => {
                    &&& r matches SliceDownload::Missing(why, job)
                    &&& why@ == (404u16, "no finished slice"@)
                    &&& job == status
                },
                Some(d) => {
                    &&& r matches SliceDownload::File { path, name }
                    &&& path == d.path
                    &&& name@ == slice_name(opt_text(d.status.out_name))
                },
            }
        },
{
    if let SliceState::Running = status.state {
        return SliceDownload::Refused(reply(409, "slice still running".to_owned()));
    }
    match done {
        None => SliceDownload::Missing(reply(404, "no finished slice".to_owned()), status),
        Some(d) => {
            let name = name_of_slice(&d.status.out_name);
            SliceDownload::File { path: d.path, name }
        },
    }
}

/// The header that has a slice saved under its name.
pub fn attachment(name: &str) -> (r: String)
    ensures
        r@ == "attachment; filename=\""@ + name@ + "\""@,
{
    join3("attachment; filename=\"", name, "\"")
}

// ── Printing the slice ──────────────────────────────────────────────────────

/// A request to print the finished slice.
#[derive(Debug)]
pub struct SlicePrintBody {
    pub plate: u32,
    pub timelapse: bool,
    pub bed_type: Option<String>,
    pub use_ams: bool,
    pub ams_map: Vec<i32>,
    pub dir: Option<String>,
    pub overwrite: bool,
    pub confirm: bool,
    pub dry_run: bool,
    /// Which slice is meant: the one the dry run named. Another caller can slice
    /// between the plan and its confirmation.
    pub expect: Option<u64>,
}

impl Default for SlicePrintBody {
    fn default() -> (r: SlicePrintBody)
        ensures
            r.plate == 1,
            !r.timelapse,
            r.bed_type is None,
            !r.use_ams,
            r.ams_map@.len() == 0,
            r.dir is None,
            !r.overwrite,
            !r.confirm,
            !r.dry_run,
            r.expect is None,
    {
        SlicePrintBody {
            plate: 1,
            timelapse: false,
            bed_type: None,
            use_ams: false,
            ams_map: Vec::new(),
            dir: None,
            overwrite: false,
            confirm: false,
            dry_run: false,
            expect: None,
        }
    }
}

/// The refusal of a tray map that is not the one tray of the one filament that a
/// slice uses: a map of another length would leave the trays to the file.
pub open spec fn not_one_tray(use_ams: bool, map: Seq<i32>) -> Option<Refusal> {
    if use_ams && map.len() != 1 {
        Some(
            bad(
                "ams_map has "@ + digits(map.len())
                    + " entries but this slice uses 1 filament — pass exactly one tray"@,
            ),
        )
    } else {
        None
    }
}

/// What is wrong with a request to print a slice.
pub open spec fn print_invalid(b: SlicePrintBody) -> Option<Refusal> {
    or_refuse(
        or_refuse(bad_ams_map(b.use_ams, b.ams_map@), not_one_tray(b.use_ams, b.ams_map@)),
        bad_dir(dir_or_root(opt_text(b.dir))),
    )
}

fn print_refusal(b: &SlicePrintBody) -> (r: Option<Reply>)
    ensures
        opt_reply(r) == print_invalid(*b),
{
    if let Some(why) = ams_map_refusal(b.use_ams, &b.ams_map) {
        return Some(why);
    }
    if b.use_ams && b.ams_map.len() != 1 {
        let n = decimal(b.ams_map.len() as u64);
        return Some(
            bad_request(
                join3(
                    "ams_map has ",
                    n.as_str(),
                    " entries but this slice uses 1 filament — pass exactly one tray",
                ),
            ),
        );
    }
    let dir = upload_dir(&b.dir);
    dir_refusal(dir.as_str())
}

/// How a slice is named in a refusal.
pub open spec fn id_text(id: Option<u64>, none: Seq<char>) -> Seq<char> {
    match id {
        Some(v) => digits(v as nat),
        None => none,
    }
}

/// The refusal of a confirmation that does not name the slice that is loaded.
pub open spec fn wrong_slice(expect: Option<u64>, id: Option<u64>) -> Option<Refusal> {
    match expect {
        Some(want) => if id == Some(want) {
            None
        } else {
            Some(
                conflict(
                    "slice "@ + digits(want as nat)
                        + " is no longer the one loaded (the slot now holds "@ + id_text(
                        id,
                        "none"@,
                    ) + ") — dry-run again and confirm against that"@,
                ),
            )
        },
        None => Some(
            bad(
                "confirming a print needs \"expect\": <the dry run's slice id> — this slice is "@
                    + id_text(id, "unknown"@),
            ),
        ),
    }
}

fn name_of_id(id: Option<u64>, none: &str) -> (r: String)
    ensures
        r@ == id_text(id, none@),
{
    match id {
        Some(v) => decimal(v),
        None => none.to_owned(),
    }
}

/// Whether a confirmation names the slice that is loaded.
pub fn slice_mismatch(expect: Option<u64>, id: Option<u64>) -> (r: Option<Reply>)
    ensures
        opt_reply(r) == wrong_slice(expect, id),
{
    match expect {
        Some(want) => {
            let named: bool = match id {
                Some(have) => have == want,
                None => false,
            };
            if named {
                None
            } else {
                let w = decimal(want);
                let have = name_of_id(id, "none");
                Some(
                    reply(
                        409,
                        crate::text::join5(
                            "slice ",
                            w.as_str(),
                            " is no longer the one loaded (the slot now holds ",
                            have.as_str(),
                            ") — dry-run again and confirm against that",
                        ),
                    ),
                )
            }
        },
        None => {
            let have = name_of_id(id, "unknown");
            Some(
                bad_request(
                    join2(
                        "confirming a print needs \"expect\": <the dry run's slice id> — this slice is ",
                        have.as_str(),
                    ),
                ),
            )
        },
    }
}

/// The dry run of a print says what would be done, and which slice it is for.
pub open spec fn print_plans(
    p: Plan,
    b: SlicePrintBody,
    status: SliceJobStatus,
    i: PlateInspection,
) -> bool {
    &&& p.file@ == remote_path(
        dir_or_root(opt_text(b.dir)),
        slice_name(opt_text(status.out_name)),
    )
    &&& p.plate == b.plate
    &&& p.use_ams == b.use_ams
    &&& p.ams_map == b.ams_map
    &&& p.bed_type@ == bed_or_auto(opt_text(b.bed_type))
    &&& p.timelapse == b.timelapse
    &&& p.has_timelapse_blocks == Some(i.has_timelapse_blocks)
    &&& opt_text(p.md5) == Some(i.gcode_md5@)
    &&& p.overwrite == Some(b.overwrite)
    &&& p.pre_print is None
    &&& p.expect == status.id
}

/// Where the slice goes and how it is printed.
pub open spec fn print_of(
    u: UploadStart,
    b: SlicePrintBody,
    d: SliceResult,
    i: PlateInspection,
) -> bool {
    &&& u.local@ == d.path@
    &&& u.dir@ == dir_or_root(opt_text(b.dir))
    &&& u.name@ == slice_name(opt_text(d.status.out_name))
    &&& u.overwrite == b.overwrite
    &&& u.overwrite_hint@ == "pass \"overwrite\": true"@
    &&& u.plate == b.plate
    &&& u.use_ams == b.use_ams
    &&& u.ams_map == b.ams_map
    &&& u.bed_type@ == bed_or_auto(opt_text(b.bed_type))
    &&& u.timelapse == b.timelapse
    &&& u.inspection == Some(i)
}

/// `ev` is what is done with the slice once its plate was inspected.
pub open spec fn inspected_print(
    ev: Seq<StartEvent>,
    b: SlicePrintBody,
    d: SliceResult,
    i: PlateInspection,
    r: StartAnswer,
) -> bool {
    if b.dry_run {
        ev.len() == 0 && (r matches StartAnswer::Plan(p) && print_plans(p, b, d.status, i))
    } else {
        match or_refuse(unconfirmed(b.confirm), wrong_slice(b.expect, d.status.id)) {
            Some(why) => ev.len() == 0 && start_refused(r, why),
            None => {
                &&& r matches StartAnswer::Answer(a)
                &&& exists|u: UploadStart|
                    print_of(u, b, d, i) && #[trigger] uploaded_and_started(ev, u, a)
            },
        }
    }
}

/// `ev` is all that a request to print the slice does outside, and `r` what it is
/// answered.
pub open spec fn slice_printed(
    ev: Seq<StartEvent>,
    running: bool,
    done: Option<SliceResult>,
    b: SlicePrintBody,
    r: StartAnswer,
) -> bool {
    if running {
        ev.len() == 0 && start_refused(r, conflict("slice still running"@))
    } else {
        match done {
            None => ev.len() == 0 && start_refused(
                r,
                (404, "no finished slice to print — POST /api/slice first"@),
            ),
            Some(d) => match print_invalid(b) {
                Some(why) => ev.len() == 0 && start_refused(r, why),
                None => {
                    &&& ev.len() >= 1
                    &&& ev[0] matches StartEvent::StagedInspected { local, plate, res }
                    &&& local == d.path@
                    &&& plate == b.plate
                    &&& match staged_refusal(res) {
                        Some(why) => ev.len() == 1 && start_refused(r, why),
                        None => inspected_print(
                            ev.skip(1),
                            b,
                            d,
                            res->Done_0->Ok_0,
                            r,
                        ),
                    }
                },
            },
        }
    }
}

fn refuse_start(why: Reply) -> (r: StartAnswer)
    ensures
        start_refused(r, why@),
{
    StartAnswer::Answer(Answer::Refused(why))
}

fn print_inspected<P: StartPort>(
    tap: &mut StartTap<P>,
    b: SlicePrintBody,
    d: &SliceResult,
    i: PlateInspection,
) -> (r: StartAnswer)
    ensures
        old(tap).log().is_prefix_of(final(tap).log()),
        inspected_print(final(tap).log().skip(old(tap).log().len() as int), b, *d, i, r),
{
    let dir = upload_dir(&b.dir);
    let name = name_of_slice(&d.status.out_name);
    let bed_type = bed_type_or_auto(&b.bed_type);
    if b.dry_run {
        return StartAnswer::Plan(
            Plan {
                file: remote_in(dir.as_str(), name.as_str()),
                plate: b.plate,
                use_ams: b.use_ams,
                ams_map: b.ams_map,
                bed_type,
                timelapse: b.timelapse,
                has_timelapse_blocks: Some(i.has_timelapse_blocks),
                pre_print: None,
                md5: Some(i.gcode_md5.clone()),
                overwrite: Some(b.overwrite),
                expect: d.status.id,
            },
        );
    }
    if let Some(why) = need_confirm(b.confirm) {
        return refuse_start(why);
    }
    if let Some(why) = slice_mismatch(b.expect, d.status.id) {
        return refuse_start(why);
    }
    let u = UploadStart {
        local: d.path.clone(),
        dir,
        name,
        overwrite: b.overwrite,
        overwrite_hint: "pass \"overwrite\": true".to_owned(),
        plate: b.plate,
        use_ams: b.use_ams,
        ams_map: b.ams_map,
        bed_type,
        timelapse: b.timelapse,
        inspection: Some(i),
    };
    proof {
        assert(print_of(u, b, *d, i));
    }
    StartAnswer::Answer(upload_and_start(tap, u))
}

/// Print the finished slice: upload it and start it. A confirmation has to name
/// the slice that the plan described.
pub fn slice_print<P: StartPort>(
    tap: &mut StartTap<P>,
    status: &SliceJobStatus,
    done: Option<SliceResult>,
    b: SlicePrintBody,
) -> (r: StartAnswer)
    ensures
        old(tap).log().is_prefix_of(final(tap).log()),
        slice_printed(
            final(tap).log().skip(old(tap).log().len() as int),
            status.state is Running,
            done,
            b,
            r,
        ),
{
    let ghost start = tap.log();
    if let SliceState::Running = status.state {
        return refuse_start(reply(409, "slice still running".to_owned()));
    }
    let d = match done {
        Some(d) => d,
        None => {
            return refuse_start(
                reply(404, "no finished slice to print — POST /api/slice first".to_owned()),
            );
        },
    };
    if let Some(why) = print_refusal(&b) {
        return refuse_start(why);
    }
    let res = tap.inspect_staged(d.path.as_str(), b.plate);
    let ghost mid = tap.log();
    match staged_inspection(res) {
        Err(why) => refuse_start(why),
        Ok(insp) => {
            let r = print_inspected(tap, b, &d, insp);
            proof {
                lemma_then(start, mid, tap.log());
            }
            r
        },
    }
}

// ── Laws ────────────────────────────────────────────────────────────────────

/// A claim is never left behind: a request that claimed the job ends by giving
/// the claim back or by spending it on a job that runs, and does either once.
pub proof fn a_claim_is_given_back_or_spent(
    ev: Seq<SliceEvent>,
    t: SliceTarget,
    q: SliceQuery,
    r: SliceAnswer,
    i: int,
)
    requires
        slice_asked(ev, t, q, r),
        0 <= i < ev.len(),
        ev[i] == SliceEvent::Reserved(true),
    ensures
        i < ev.len() - 1,
        r is Accepted ==> ev.last() is Committed,
        !(r is Accepted) ==> ev.last() is Released,
        forall|j: int|
            0 <= j < ev.len() - 1 ==> !((#[trigger] ev[j]) is Released) && !(ev[j] is Committed),
{
    let f = ev.skip(3);
    assert(ev.skip(2).skip(1) =~= f);
    assert(ev.skip(2)[0] == ev[2]);
    lemma_request_parts(ev, t, q, r);
    let c = ev.skip(9);
    assert(f.skip(6) =~= c);
    assert forall|j: int| 3 <= j < ev.len() implies f[j - 3] == #[trigger] ev[j] by {}
    assert forall|j: int| 9 <= j < ev.len() implies c[j - 9] == #[trigger] ev[j] by {}
    if i >= 9 {
        lemma_claimed_events(c, q, f[1]->Machine_profile, f[3]->Suffix_res->Ok_0@, r);
        assert(c[i - 9] == ev[i]);
    }
    lemma_claimed_events(c, q, f[1]->Machine_profile, f[3]->Suffix_res->Ok_0@, r);
}

/// A request that got as far as a claim passed every question before it.
proof fn lemma_request_parts(ev: Seq<SliceEvent>, t: SliceTarget, q: SliceQuery, r: SliceAnswer)
    requires
        slice_asked(ev, t, q, r),
    ensures
        (exists|i: int| 0 <= i < ev.len() && #[trigger] ev[i] == SliceEvent::Reserved(true)) ==> {
            &&& ev.len() >= 10
            &&& slice_invalid(q) is None
            &&& supplied(ev.skip(2), t, q, r)
            &&& fitted(ev.skip(2).skip(1), q, r)
            &&& ev[8] == SliceEvent::Reserved(true)
            &&& claimed(
                ev.skip(2).skip(1).skip(6),
                q,
                ev[4]->Machine_profile,
                ev[6]->Suffix_res->Ok_0@,
                r,
            )
            &&& forall|j: int|
                0 <= j < 9 ==> !((#[trigger] ev[j]) is Released) && !(ev[j] is Committed)
                    && !(ev[j] is Staged) && !(ev[j] is Started)
        },
{
    let a = ev.skip(2);
    let f = a.skip(1);
    assert forall|j: int| 2 <= j < ev.len() implies a[j - 2] == #[trigger] ev[j] by {}
    assert forall|j: int| 3 <= j < ev.len() implies f[j - 3] == #[trigger] ev[j] by {}
}

/// What happens under a claim: its last event alone ends the claim.
proof fn lemma_claimed_events(
    c: Seq<SliceEvent>,
    q: SliceQuery,
    machine: Seq<char>,
    suffix: Seq<char>,
    r: SliceAnswer,
)
    requires
        claimed(c, q, machine, suffix, r),
    ensures
        c.len() >= 2,
        r is Accepted ==> c.last() is Committed,
        !(r is Accepted) ==> c.last() is Released,
        forall|j: int|
            0 <= j < c.len() - 1 ==> !((#[trigger] c[j]) is Released) && !(c[j] is Committed),
        forall|j: int| 0 <= j < c.len() ==> !((#[trigger] c[j]) is Reserved),
{
    assert forall|j: int| 1 <= j < c.len() implies c.skip(1)[j - 1] == #[trigger] c[j] by {}
    assert forall|j: int| 2 <= j < c.len() implies c.skip(2)[j - 2] == #[trigger] c[j] by {}
}

/// Nothing of a model is received, and no job is started, before the job is
/// claimed.
pub proof fn nothing_is_staged_unclaimed(
    ev: Seq<SliceEvent>,
    t: SliceTarget,
    q: SliceQuery,
    r: SliceAnswer,
    i: int,
)
    requires
        slice_asked(ev, t, q, r),
        0 <= i < ev.len(),
        ev[i] is Staged || ev[i] is Started,
    ensures
        exists|j: int| 0 <= j < i && #[trigger] ev[j] == SliceEvent::Reserved(true),
{
    let a = ev.skip(2);
    let f = a.skip(1);
    assert forall|j: int| 2 <= j < ev.len() implies a[j - 2] == #[trigger] ev[j] by {}
    assert forall|j: int| 3 <= j < ev.len() implies f[j - 3] == #[trigger] ev[j] by {}
    if ev.len() > 8 && ev[8] == SliceEvent::Reserved(true) {
        assert(i > 8);
    }
}

/// A slice is never made on a guess: a job that was accepted was asked for with
/// a layer height, a filament and a plate, for a machine whose profiles are
/// verified.
pub proof fn nothing_is_guessed(
    ev: Seq<SliceEvent>,
    t: SliceTarget,
    q: SliceQuery,
    r: SliceAnswer,
)
    requires
        slice_asked(ev, t, q, r),
        r is Accepted,
    ensures
        q.layer is Some,
        filled_text(opt_text(q.filament)) is Some,
        filled_text(opt_text(q.bed_type)) is Some,
        t.machine_base is Some,
{
}

/// A confirmation prints the slice that its plan described, or nothing: what is
/// uploaded is the file of the slice whose name was given back.
pub proof fn a_print_is_of_the_slice_that_was_planned(
    ev: Seq<StartEvent>,
    running: bool,
    done: Option<SliceResult>,
    b: SlicePrintBody,
    r: StartAnswer,
    i: int,
)
    requires
        slice_printed(ev, running, done, b, r),
        0 <= i < ev.len(),
        crate::upload::acts(ev[i]),
    ensures
        b.confirm && !b.dry_run,
        b.expect is Some,
        done matches Some(d) && d.status.id == b.expect && (ev[i] matches StartEvent::Uploaded {
            local,
            remote,
            res,
        } ==> local == d.path@),
{
    if i >= 1 {
        assert(ev.skip(1)[i - 1] == ev[i]);
    }
}

proof fn lemma_started(
    ev: Seq<SliceEvent>,
    t: SliceTarget,
    q: SliceQuery,
    r: SliceAnswer,
    i: int,
)
    requires
        slice_asked(ev, t, q, r),
        0 <= i < ev.len(),
        ev[i] is Started,
    ensures
        ev.len() >= 13,
        claimed(
            ev.skip(9),
            q,
            ev[4]->Machine_profile,
            ev[6]->Suffix_res->Ok_0@,
            r,
        ),
        fitted(ev.skip(3), q, r),
        i == ev.len() - 2,
        ev[9] is Staged,
        ev[9]->Staged_res is Ok,
        ev[9]->Staged_res->Ok_0.1 > 0,
        !is_three_mf(or_empty(opt_text(q.name))) ==> i == 12 && launched(
            ev.skip(10),
            q,
            Prepared {
                input: ev[9]->Staged_res->Ok_0.0@,
                machine: ev[4]->Machine_profile,
                suffix: ev[6]->Suffix_res->Ok_0@,
            },
            r,
        ),
        is_three_mf(or_empty(opt_text(q.name))) ==> i == 13 && launched(
            ev.skip(11),
            q,
            Prepared {
                input: ev[9]->Staged_res->Ok_0.0@,
                machine: ev[4]->Machine_profile,
                suffix: ev[6]->Suffix_res->Ok_0@,
            },
            r,
        ),
{
    let a = ev.skip(2);
    let f = a.skip(1);
    let c = f.skip(6);
    assert(f =~= ev.skip(3));
    assert(c =~= ev.skip(9));
    assert forall|j: int| 2 <= j < ev.len() implies a[j - 2] == #[trigger] ev[j] by {}
    assert forall|j: int| 3 <= j < ev.len() implies f[j - 3] == #[trigger] ev[j] by {}
    assert forall|j: int| 9 <= j < ev.len() implies c[j - 9] == #[trigger] ev[j] by {}
    assert(c.skip(1) =~= ev.skip(10));
    assert(c.skip(2) =~= ev.skip(11));
    assert forall|j: int| 10 <= j < ev.len() implies c.skip(1)[j - 10] == #[trigger] ev[j] by {}
    assert forall|j: int| 11 <= j < ev.len() implies c.skip(2)[j - 11] == #[trigger] ev[j] by {}
}

/// A model is sliced as it was asked to be: the job gets the layer height, the
/// filament, the plate and the brim of its request, and what it gets is what was
/// checked. The names of its profiles were found safe, the layer was found to fit
/// the nozzle, and the profiles are those of that nozzle.
pub proof fn a_job_slices_what_was_asked(
    ev: Seq<SliceEvent>,
    t: SliceTarget,
    q: SliceQuery,
    r: SliceAnswer,
    i: int,
)
    requires
        slice_asked(ev, t, q, r),
        0 <= i < ev.len(),
        ev[i] is Started,
    ensures
        ({
            let p = ev[i]->Started_params;
            &&& q.layer matches Some(layer) && p.layer_mm == layer@
            &&& q.filament matches Some(filament) && p.filament == filament@
            &&& q.bed_type matches Some(bed) && p.bed_type == bed@
            &&& q.name matches Some(name) && p.input_name == name@
            &&& match q.brim {
                Some((brim, fits)) => fits && p.brim_mm == Some(brim@),
                None => p.brim_mm is None,
            }
            &&& ev[0] == (SliceEvent::NameSafe { name: p.filament, safe: true })
            &&& ev[1] == (SliceEvent::NameSafe { name: p.bed_type, safe: true })
            &&& ev[2] matches SliceEvent::Info(Ok(_))
            &&& ev[3] matches SliceEvent::Nozzle(reported)
            &&& ev[4] matches SliceEvent::Machine { nozzle, profile }
            &&& profile == p.machine_profile
            &&& match reported {
                Some(n) => n == nozzle,
                None => q.nozzle matches Some(n) && n@ == nozzle,
            }
            &&& ev[5] == (SliceEvent::NameSafe { name: p.machine_profile, safe: true })
            &&& ev[6] matches SliceEvent::Suffix { nozzle: n2, res: Ok(suffix) }
            &&& n2 == nozzle && suffix@ == p.preset_suffix
            &&& ev[7] matches SliceEvent::Fits { layer, nozzle: n3, res: Ok(_) }
            &&& n3 == nozzle && layer == p.layer_mm
            &&& ev[8] == SliceEvent::Reserved(true)
        }),
        t.machine_base is Some,
{
    lemma_started(ev, t, q, r, i);
    assert forall|j: int| 3 <= j < ev.len() implies ev.skip(3)[j - 3] == #[trigger] ev[j] by {}
    assert forall|j: int| 2 <= j < ev.len() implies ev.skip(2)[j - 2] == #[trigger] ev[j] by {}
    let k: int = if is_three_mf(or_empty(opt_text(q.name))) {
        11
    } else {
        10
    };
    assert(ev.skip(k)[2] == ev[k + 2]);
    reveal_strlit(".3mf");
    reveal_strlit(".stl");
    reveal_strlit(".obj");
    reveal_strlit(".amf");
    if q.name is None {
        assert(or_empty(opt_text(q.name)).len() == 0);
    }
}

/// What is sliced is the model that was sent: the job reads the file that the body
/// was received into, which is not empty, and works in a directory made for it,
/// under the name made of the model's. A project that was laid out by its author is
/// never sliced.
pub proof fn a_job_slices_what_was_sent(
    ev: Seq<SliceEvent>,
    t: SliceTarget,
    q: SliceQuery,
    r: SliceAnswer,
    i: int,
)
    requires
        slice_asked(ev, t, q, r),
        0 <= i < ev.len(),
        ev[i] is Started,
    ensures
        ({
            let p = ev[i]->Started_params;
            &&& ev[9] matches SliceEvent::Staged { suffix, res: Ok((input, n)) }
            &&& p.input == input@ && n > 0
            &&& ev[i - 2] matches SliceEvent::Workdir(Ok(dir))
            &&& p.out_dir == dir@
            &&& ev[i - 1] matches SliceEvent::OutName { name, out }
            &&& name == p.input_name && out == p.out_name
            &&& ".3mf"@.is_suffix_of(lower(p.input_name)) ==> (ev[10]
                matches SliceEvent::Authored { path, res } && path == input@ && res == Ok::<
                bool,
                String,
            >(false))
        }),
        r is Accepted <==> ev[i]->Started_res is Ok,
        i + 1 == ev.len() - 1,
        r is Accepted ==> ev[i + 1] is Committed,
        !(r is Accepted) ==> ev[i + 1] is Released,
{
    lemma_started(ev, t, q, r, i);
    let k: int = if is_three_mf(or_empty(opt_text(q.name))) {
        11
    } else {
        10
    };
    assert(ev.skip(k)[0] == ev[k]);
    assert(ev.skip(k)[1] == ev[k + 1]);
    assert(ev.skip(k)[2] == ev[k + 2]);
    assert(ev.skip(k)[3] == ev[k + 3]);
    assert(ev.skip(9)[1] == ev[10]);
    assert(ev.skip(9)[0] == ev[9]);
}

/// A request is accepted only where its job was started.
pub proof fn an_accepted_slice_was_started(
    ev: Seq<SliceEvent>,
    t: SliceTarget,
    q: SliceQuery,
    r: SliceAnswer,
)
    requires
        slice_asked(ev, t, q, r),
        r is Accepted,
    ensures
        ev.len() >= 2,
        ev[ev.len() - 2] matches SliceEvent::Started { params, res: Ok(_) },
        ev.last() is Committed,
{
    let a = ev.skip(2);
    let f = a.skip(1);
    let c = f.skip(6);
    assert(c =~= ev.skip(9));
    let n = ev.len() as int;
    if is_three_mf(or_empty(opt_text(q.name))) {
        let l = c.skip(2);
        assert(l[2] == ev[n - 2] && l[3] == ev[n - 1]);
    } else {
        let l = c.skip(1);
        assert(l[2] == ev[n - 2] && l[3] == ev[n - 1]);
    }
}

/// A model that is sliced is of a kind the slicer reads, and not sliced already.
pub proof fn only_models_are_sliced(name: Seq<char>)
    requires
        bad_model(name) is None,
    ensures
        name.len() > 0 && !name.contains('/') && !name.contains('\\'),
        ".stl"@.is_suffix_of(lower(name)) || ".obj"@.is_suffix_of(lower(name))
            || ".amf"@.is_suffix_of(lower(name)) || ".3mf"@.is_suffix_of(lower(name)),
        !".gcode.3mf"@.is_suffix_of(lower(name)),
{
}

/// The staged model keeps its extension, whatever case it was written in, so that
/// the slicer reads it as what it is.
pub proof fn a_staged_model_keeps_its_extension(name: Seq<char>, i: int)
    requires
        0 < i < name.len(),
        name[i] == '.',
        forall|j: int| i < j < name.len() ==> name[j] != '.',
    ensures
        i < name.len() - 1 ==> model_suffix(name) == lower(name.skip(i)),
        model_suffix(name).is_suffix_of(lower(name)) || i == name.len() - 1,
{
    crate::text::lemma_after_last(name, '.', i + 1);
    reveal_strlit(".");
    let low = lower(name);
    if i < name.len() - 1 {
        assert(model_suffix(name) =~= lower(name.skip(i)));
        assert(low.subrange(low.len() - (name.len() - i), low.len() as int) =~= lower(name.skip(i)));
    }
}

/// No other machine's profiles stand in for missing ones, and what the slicer says
/// of itself is told as it is.
pub proof fn slicing_is_offered_only_for_a_known_machine(
    t: SliceTarget,
    info: Result<SlicerInfo, String>,
    r: Result<SlicerInfo, String>,
)
    requires
        available(t, info, r),
    ensures
        t.machine_base is None ==> r is Err,
        t.machine_base is Some ==> r == info,
{
}

/// A confirmation prints exactly where it names the slice that is loaded.
pub proof fn only_the_named_slice_is_printed(expect: Option<u64>, id: Option<u64>)
    ensures
        wrong_slice(expect, id) is None <==> expect is Some && expect == id,
        expect is None ==> (wrong_slice(expect, id) matches Some(why) && why.0 == 400),
        expect is Some && expect != id ==> (wrong_slice(expect, id) matches Some(why) && why.0
            == 409),
{
}

/// A slice is printed as it was asked to be: from where its file was put, at the
/// plate, with the tray, the bed and the timelapse of the request, and with the
/// inspection of that plate of that file.
pub proof fn a_slice_is_printed_as_asked(
    ev: Seq<StartEvent>,
    running: bool,
    done: Option<SliceResult>,
    b: SlicePrintBody,
    r: StartAnswer,
    i: int,
)
    requires
        slice_printed(ev, running, done, b, r),
        0 <= i < ev.len(),
        ev[i] is Started,
        done matches Some(d) ==> (d.status.out_name matches Some(n) ==> !n@.contains('/')),
    ensures
        !running,
        done is Some,
        exists|j: int|
            0 < j < i && ((#[trigger] ev[j]) matches StartEvent::Uploaded {
                local,
                remote,
                res: crate::reply::Task::Done(Ok(_)),
            } && local == done->0.path@ && crate::upload::asks_for(
                ev[i]->Started_req,
                remote,
                b.plate,
                b.use_ams,
                b.ams_map@,
                opt_text(b.bed_type),
                b.timelapse,
            ) && after_last(remote, '/') == match done->0.status.out_name {
                Some(n) => n@,
                None => "slice.gcode.3mf"@,
            }),
        ev[0] matches StartEvent::StagedInspected {
            local,
            plate,
            res: crate::reply::Task::Done(Ok(seen)),
        } && local == done->0.path@ && plate == b.plate && ev[i]->Started_req.inspection == Some(
            seen,
        ),
        b.use_ams ==> b.ams_map@.len() == 1 && -1 <= b.ams_map@[0] <= 3,
        crate::upload::guarded(ev.skip(1), i - 1),
{
    let t = ev.skip(1);
    if i >= 1 {
        assert(t[i - 1] == ev[i]);
        let d = done->0;
        let insp = ev[0]->StagedInspected_res->Done_0->Ok_0;
        let a = r->Answer_0;
        let u = choose|u: UploadStart|
            print_of(u, b, d, insp) && #[trigger] uploaded_and_started(t, u, a);
        crate::upload::an_uploaded_start_is_guarded(t, u, a, i - 1);
        let at = remote_path(u.dir@, u.name@);
        let j = choose|j: int| 0 <= j < i - 1 && crate::upload::arrived(#[trigger] t[j], at);
        assert(ev[j + 1] == t[j]);
        crate::upload::what_was_uploaded_is_started(t, u, a, i - 1, j);
        reveal_strlit("slice.gcode.3mf");
        crate::upload::an_upload_goes_where_it_was_sent(t, u, a, j);
        assert(ev[j + 1] is Uploaded);
        if b.use_ams {
            crate::job::every_tray_is_known(b.ams_map@, 0);
        }
    }
}

/// The plan of a print is what was asked for, names the slice it is for, and can be
/// confirmed by that name.
pub proof fn a_print_plan_can_be_confirmed(
    ev: Seq<StartEvent>,
    running: bool,
    done: Option<SliceResult>,
    b: SlicePrintBody,
    p: Plan,
)
    requires
        slice_printed(ev, running, done, b, StartAnswer::Plan(p)),
        done matches Some(d) ==> (d.status.out_name matches Some(n) ==> !n@.contains('/')),
    ensures
        b.dry_run,
        done matches Some(d) && p.expect == d.status.id && after_last(p.file@, '/')
            == match d.status.out_name {
            Some(n) => n@,
            None => "slice.gcode.3mf"@,
        },
        crate::upload::plans_for(
            p,
            p.file@,
            b.plate,
            b.use_ams,
            b.ams_map@,
            opt_text(b.bed_type),
            b.timelapse,
        ),
        p.overwrite == Some(b.overwrite),
        p.expect is Some ==> wrong_slice(p.expect, done->0.status.id) is None,
        ev.len() == 1,
        ev[0] matches StartEvent::StagedInspected {
            local,
            plate,
            res: crate::reply::Task::Done(Ok(insp)),
        } && local == done->0.path@ && plate == b.plate && (p.md5 matches Some(m) && m@
            == insp.gcode_md5@),
{
    reveal_strlit("slice.gcode.3mf");
    crate::paths::a_remote_path_ends_in_its_name(
        dir_or_root(opt_text(b.dir)),
        slice_name(opt_text(done->0.status.out_name)),
    );
}

/// `r` says whose fault it is that `ev` ended as it did: another job's, the slicer's, or
/// this machine's.
pub open spec fn blames(ev: Seq<SliceEvent>, r: SliceAnswer) -> bool {
    &&& ev.len() >= 1 && ev.last() == SliceEvent::Reserved(false) ==> (
    r matches SliceAnswer::Refused(x) && x@.0 == 409)
    &&& ev.len() >= 1 && (ev.last() matches SliceEvent::Info(Err(_))) ==> (
    r matches SliceAnswer::Refused(x) && x@.0 == 503 && x@.1 == ev.last()->Info_0->Err_0@)
    &&& ev.len() >= 2 && (ev[ev.len() - 2] matches SliceEvent::Started { params, res: Err(_) })
        ==> (r matches SliceAnswer::Refused(x) && x@.0 == 409 && x@.1 == ev[ev.len()
        - 2]->Started_res->Err_0@)
    &&& ev.len() >= 2 && (ev[ev.len() - 2] matches SliceEvent::Workdir(Err(_))) ==> (
    r matches SliceAnswer::Refused(x) && x@.0 == 500)
}

proof fn lemma_blames_on(ev: Seq<SliceEvent>, k: int, r: SliceAnswer)
    requires
        0 <= k < ev.len(),
        blames(ev.skip(k), r),
        ev.len() == k + 1 && k > 0 ==> !(ev[k - 1] is Started) && !(ev[k - 1] is Workdir),
    ensures
        blames(ev, r),
{
    let t = ev.skip(k);
    assert(t.last() == ev.last());
    if t.len() >= 2 {
        assert(t[t.len() - 2] == ev[ev.len() - 2]);
    }
}

proof fn lemma_claimed_blames(
    ev: Seq<SliceEvent>,
    q: SliceQuery,
    machine: Seq<char>,
    suffix: Seq<char>,
    r: SliceAnswer,
)
    requires
        claimed(ev, q, machine, suffix, r),
    ensures
        blames(ev, r),
        ev.len() >= 2,
{
    let name = or_empty(opt_text(q.name));
    if let Ok((input, n)) = ev[0]->Staged_res {
        if n != 0 {
            if is_three_mf(name) {
                if authored_refusal(ev[1]->Authored_res) is None {
                    assert(blames(ev.skip(2), r));
                    lemma_blames_on(ev, 2, r);
                }
            } else {
                assert(blames(ev.skip(1), r));
                lemma_blames_on(ev, 1, r);
            }
        }
    }
}

proof fn lemma_fitted_blames(ev: Seq<SliceEvent>, q: SliceQuery, r: SliceAnswer)
    requires
        fitted(ev, q, r),
    ensures
        blames(ev, r),
        ev.len() >= 1,
        ev[0] is Nozzle,
{
    if ev.len() > 6 {
        let t = ev.skip(6);
        lemma_claimed_blames(t, q, ev[1]->profile, ev[3]->Suffix_res->Ok_0@, r);
        lemma_blames_on(ev, 6, r);
    }
}

/// A request to slice is put down to whose fault it is: to a job that runs already, to a
/// slicer that is not there, to this machine where it has no room, and to the request
/// itself where that is not sound.
pub proof fn a_refused_slice_says_whose_fault_it_is(
    ev: Seq<SliceEvent>,
    t: SliceTarget,
    q: SliceQuery,
    r: SliceAnswer,
)
    requires
        slice_asked(ev, t, q, r),
    ensures
        blames(ev, r),
        ev.len() == 0 ==> (r matches SliceAnswer::Refused(x) && x@.0 == 400),
        ev.len() == 2 && t.machine_base is Some ==> (r matches SliceAnswer::Refused(x) && x@.0
            == 400),
        ev.len() == 2 && t.machine_base is None && ev[1] == (SliceEvent::NameSafe {
            name: ev[1]->NameSafe_name,
            safe: true,
        }) && bad_brim(q.brim) is None ==> (r matches SliceAnswer::Refused(x) && x@.0 == 503),
{
    if slice_invalid(q) is None && ev.len() > 2 {
        let s = ev.skip(2);
        let f = s.skip(1);
        if s[0]->Info_0 is Ok {
            lemma_fitted_blames(f, q, r);
            lemma_blames_on(s, 1, r);
        }
        lemma_blames_on(ev, 2, r);
    }
}

} // verus!
