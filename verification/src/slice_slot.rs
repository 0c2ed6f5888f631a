//! The one slice job that a printer has at a time: its status, its claim and its
//! result.
use vstd::prelude::*;

use crate::slicer::{inside, join_path};
use crate::text::{copied, join2, opt_text};

verus! {

/// Where the job stands.
#[derive(Clone, Copy, Debug, PartialEq, Eq, Structural)]
pub enum SliceState {
    Idle,
    Running,
    Done,
    Failed,
}

impl SliceState {
    pub open spec fn name(self) -> Seq<char> {
        match self {
            SliceState::Idle => "idle"@,
            SliceState::Running => "running"@,
            SliceState::Done => "done"@,
            SliceState::Failed => "failed"@,
        }
    }

    /// The state, as a client is told it.
    pub fn as_str(self) -> (r: &'static str)
        ensures
            r@ == self.name(),
    {
        match self {
            SliceState::Idle => "idle",
            SliceState::Running => "running",
            SliceState::Done => "done",
            SliceState::Failed => "failed",
        }
    }
}

/// The state of a printer's slice job. The layer height is the number as it is
/// written.
#[derive(Debug)]
pub struct SliceJobStatus {
    pub state: SliceState,
    /// Which slice this is.
    pub id: Option<u64>,
    pub input_name: Option<String>,
    pub out_name: Option<String>,
    pub layer_mm: Option<String>,
    pub filament: Option<String>,
    pub bed_type: Option<String>,
    /// From the verified G-code, not from the request.
    pub layers: Option<u32>,
    pub bed_temp_c: Option<u32>,
    pub size_bytes: Option<u64>,
    pub error: Option<String>,
}

/// A status, by its texts.
pub struct JobView {
    pub state: SliceState,
    pub id: Option<u64>,
    pub input_name: Option<Seq<char>>,
    pub out_name: Option<Seq<char>>,
    pub layer_mm: Option<Seq<char>>,
    pub filament: Option<Seq<char>>,
    pub bed_type: Option<Seq<char>>,
    pub layers: Option<u32>,
    pub bed_temp_c: Option<u32>,
    pub size_bytes: Option<u64>,
    pub error: Option<Seq<char>>,
}

impl View for SliceJobStatus {
    type V = JobView;

    open spec fn view(&self) -> JobView {
        JobView {
            state: self.state,
            id: self.id,
            input_name: opt_text(self.input_name),
            out_name: opt_text(self.out_name),
            layer_mm: opt_text(self.layer_mm),
            filament: opt_text(self.filament),
            bed_type: opt_text(self.bed_type),
            layers: self.layers,
            bed_temp_c: self.bed_temp_c,
            size_bytes: self.size_bytes,
            error: opt_text(self.error),
        }
    }
}

/// The status of a printer that never sliced.
pub open spec fn no_job() -> JobView {
    JobView {
        state: SliceState::Idle,
        id: None,
        input_name: None,
        out_name: None,
        layer_mm: None,
        filament: None,
        bed_type: None,
        layers: None,
        bed_temp_c: None,
        size_bytes: None,
        error: None,
    }
}

/// The status of a job while a request stages its model.
pub open spec fn staging() -> JobView {
    JobView { state: SliceState::Running, ..no_job() }
}

impl Default for SliceJobStatus {
    fn default() -> (r: SliceJobStatus)
        ensures
            r@ == no_job(),
    {
        SliceJobStatus {
            state: SliceState::Idle,
            id: None,
            input_name: None,
            out_name: None,
            layer_mm: None,
            filament: None,
            bed_type: None,
            layers: None,
            bed_temp_c: None,
            size_bytes: None,
            error: None,
        }
    }
}

impl SliceJobStatus {
    /// The same status.
    pub fn copy(&self) -> (r: SliceJobStatus)
        ensures
            r@ == self@,
    {
        SliceJobStatus {
            state: self.state,
            id: self.id,
            input_name: copied(&self.input_name),
            out_name: copied(&self.out_name),
            layer_mm: copied(&self.layer_mm),
            filament: copied(&self.filament),
            bed_type: copied(&self.bed_type),
            layers: self.layers,
            bed_temp_c: self.bed_temp_c,
            size_bytes: self.size_bytes,
            error: copied(&self.error),
        }
    }
}

/// Everything that one slice needs. Nothing here has a default: the layer
/// height, the filament and the plate are the caller's to know.
#[derive(Debug)]
pub struct SliceParams {
    /// The staged model.
    pub input: String,
    /// What the model's file is called.
    pub input_name: String,
    /// The job's own directory: its profiles, its log and its output.
    pub out_dir: String,
    /// The bare name of the output.
    pub out_name: String,
    /// The full machine preset.
    pub machine_profile: String,
    /// The suffix of the process presets.
    pub preset_suffix: String,
    pub layer_mm: String,
    /// The full filament preset.
    pub filament: String,
    /// The plate on the printer: it decides the bed's temperature.
    pub bed_type: String,
    pub brim_mm: Option<String>,
}

/// What a verified slice was found to hold.
#[derive(Clone, Copy, Debug, PartialEq, Eq, Structural)]
pub struct SliceMeta {
    pub layers: Option<u32>,
    pub bed_temp_c: Option<u32>,
}

/// How a job ended: with what was verified and the size of the output, with why
/// it was refused, or with the loss of its task.
#[derive(Debug)]
pub enum SliceEnd {
    Verified(SliceMeta, u64),
    Refused(String),
    Lost(String),
}

/// The status of the job that `p` starts.
pub open spec fn begun(p: SliceParams, id: u64) -> JobView {
    JobView {
        state: SliceState::Running,
        id: Some(id),
        input_name: Some(p.input_name@),
        out_name: Some(p.out_name@),
        layer_mm: Some(p.layer_mm@),
        filament: Some(p.filament@),
        bed_type: Some(p.bed_type@),
        ..no_job()
    }
}

/// The name after this one.
pub open spec fn next_name(id: u64) -> u64 {
    if id == u64::MAX {
        0
    } else {
        (id + 1) as u64
    }
}

/// The status of a job that ended.
pub open spec fn ended(s: JobView, end: SliceEnd) -> JobView {
    match end {
        SliceEnd::Verified(meta, size) => JobView {
            state: SliceState::Done,
            layers: meta.layers,
            bed_temp_c: meta.bed_temp_c,
            size_bytes: Some(size),
            ..s
        },
        SliceEnd::Refused(e) => JobView { state: SliceState::Failed, error: Some(e@), ..s },
        SliceEnd::Lost(e) => JobView {
            state: SliceState::Failed,
            error: Some("slice task failed: "@ + e@),
            ..s
        },
    }
}

/// The claim on a printer's slice job. It is held while the model is staged, and
/// given back or spent.
#[derive(Debug)]
pub struct SliceSlot(());

/// A finished slice: where it is and what it is.
#[derive(Debug)]
pub struct SliceResult {
    pub path: String,
    pub status: SliceJobStatus,
}

/// One slice at a time, for one printer.
#[derive(Debug)]
pub struct SliceManager {
    job: SliceJobStatus,
    out_path: Option<String>,
    next_id: u64,
    held: bool,
}

impl SliceManager {
    /// The job last started, whatever is staged meanwhile.
    pub closed spec fn job(self) -> JobView {
        self.job@
    }

    /// A request holds the claim.
    pub closed spec fn held(self) -> bool {
        self.held
    }

    /// Where the job's output goes.
    pub closed spec fn out_path(self) -> Option<Seq<char>> {
        opt_text(self.out_path)
    }

    /// The name the next slice gets.
    pub closed spec fn next_id(self) -> u64 {
        self.next_id
    }

    /// A job that was started has an output and a name that no later one has
    /// next.
    pub open spec fn wf(self) -> bool {
        &&& self.job().state is Idle <==> self.job().id is None
        &&& self.job().id is Some ==> self.job().id != Some(self.next_id())
        &&& self.job().id is Some <==> self.out_path() is Some
    }

    /// What a client is told: a claim that is held reads as a running job.
    pub open spec fn shown(self) -> JobView {
        if self.held() {
            staging()
        } else {
            self.job()
        }
    }

    pub fn new() -> (r: SliceManager)
        ensures
            r.wf(),
            !r.held(),
            r.job() == no_job(),
            r.out_path() is None,
            r.next_id() == 1,
    {
        let job = SliceJobStatus::default();
        SliceManager { job, out_path: None, next_id: 1, held: false }
    }

    pub fn status(&self) -> (r: SliceJobStatus)
        ensures
            r@ == self.shown(),
    {
        if self.held {
            let mut s = SliceJobStatus::default();
            s.state = SliceState::Running;
            s
        } else {
            self.job.copy()
        }
    }

    /// Claim the job before a model is staged for it: a check alone would let
    /// every caller write its model first and race for the job afterwards.
    pub fn reserve(&mut self) -> (r: Option<SliceSlot>)
        requires
            old(self).wf(),
        ensures
            final(self).wf(),
            r is Some <==> !(old(self).shown().state is Running),
            final(self).held() == (old(self).held() || r is Some),
            final(self).job() == old(self).job(),
            final(self).out_path() == old(self).out_path(),
            final(self).next_id() == old(self).next_id(),
    {
        if self.held {
            return None;
        }
        match self.job.state {
            SliceState::Running => None,
            _ => {
                self.held = true;
                Some(SliceSlot(()))
            },
        }
    }

    /// Give the claim back: nothing was started, and the job reads as before.
    pub fn release(&mut self, slot: SliceSlot)
        requires
            old(self).wf(),
        ensures
            final(self).wf(),
            !final(self).held(),
            final(self).job() == old(self).job(),
            final(self).out_path() == old(self).out_path(),
            final(self).next_id() == old(self).next_id(),
    {
        self.held = false;
    }

    /// Spend the claim on the job that was started: the running job keeps the
    /// next caller out from here on.
    pub fn commit(&mut self, slot: SliceSlot)
        requires
            old(self).wf(),
        ensures
            final(self).wf(),
            !final(self).held(),
            final(self).job() == old(self).job(),
            final(self).out_path() == old(self).out_path(),
            final(self).next_id() == old(self).next_id(),
    {
        self.held = false;
    }

    /// Begin a slice, whose output goes into its directory; the name it is given. It
    /// is refused while one runs; what a finished job left is forgotten.
    pub fn start(&mut self, p: &SliceParams) -> (r: Result<u64, String>)
        requires
            old(self).wf(),
        ensures
            final(self).wf(),
            final(self).held() == old(self).held(),
            match r {
                Ok(id) => {
                    &&& !(old(self).job().state is Running)
                    &&& id == old(self).next_id()
                    &&& final(self).job() == begun(*p, id)
                    &&& final(self).out_path() == Some(inside(p.out_dir@, p.out_name@))
                    &&& final(self).next_id() == next_name(id)
                },
                Err(e) => {
                    &&& old(self).job().state is Running
                    &&& e@ == "a slice is already running"@
                    &&& *final(self) == *old(self)
                },
            },
    {
        match self.job.state {
            SliceState::Running => Err("a slice is already running".to_owned()),
            _ => {
                let id: u64 = self.next_id;
                self.next_id = if id == u64::MAX {
                    0
                } else {
                    id + 1
                };
                self.job =
                SliceJobStatus {
                    state: SliceState::Running,
                    id: Some(id),
                    input_name: Some(p.input_name.clone()),
                    out_name: Some(p.out_name.clone()),
                    layer_mm: Some(p.layer_mm.clone()),
                    filament: Some(p.filament.clone()),
                    bed_type: Some(p.bed_type.clone()),
                    layers: None,
                    bed_temp_c: None,
                    size_bytes: None,
                    error: None,
                };
                self.out_path = Some(join_path(p.out_dir.as_str(), p.out_name.as_str()));
                Ok(id)
            },
        }
    }

    /// Say how the running job ended.
    pub fn finish(&mut self, end: SliceEnd)
        requires
            old(self).wf(),
            old(self).job().state is Running,
        ensures
            final(self).wf(),
            final(self).held() == old(self).held(),
            final(self).job() == ended(old(self).job(), end),
            final(self).out_path() == old(self).out_path(),
            final(self).next_id() == old(self).next_id(),
    {
        match end {
            SliceEnd::Verified(meta, size) => {
                self.job.state = SliceState::Done;
                self.job.layers = meta.layers;
                self.job.bed_temp_c = meta.bed_temp_c;
                self.job.size_bytes = Some(size);
            },
            SliceEnd::Refused(e) => {
                self.job.state = SliceState::Failed;
                self.job.error = Some(e);
            },
            SliceEnd::Lost(e) => {
                self.job.state = SliceState::Failed;
                self.job.error = Some(join2("slice task failed: ", e.as_str()));
            },
        }
    }

    /// A job is running.
    pub fn is_running(&self) -> (r: bool)
        ensures
            r == (self.job().state is Running),
    {
        match self.job.state {
            SliceState::Running => true,
            _ => false,
        }
    }

    /// The finished slice and the status that describes it; none while the job
    /// is idle, running or failed.
    pub fn result(&self) -> (r: Option<SliceResult>)
        requires
            self.wf(),
        ensures
            r is Some <==> self.shown().state is Done,
            r matches Some(done) ==> {
                &&& done.status@ == self.job()
                &&& Some(done.path@) == self.out_path()
            },
    {
        if self.held {
            return None;
        }
        match self.job.state {
            SliceState::Done => match &self.out_path {
                Some(path) => Some(SliceResult { path: path.clone(), status: self.job.copy() }),
                None => None,
            },
            _ => None,
        }
    }
}

impl Default for SliceManager {
    fn default() -> (r: SliceManager)
        ensures
            r.wf(),
            !r.held(),
            r.job() == no_job(),
            r.out_path() is None,
            r.next_id() == 1,
    {
        SliceManager::new()
    }
}

// ── Laws ────────────────────────────────────────────────────────────────────

/// A slice is begun between these two states of a manager, as
/// [`SliceManager::start`] begins it.
pub open spec fn begins(before: SliceManager, after: SliceManager) -> bool {
    &&& after.job().id == Some(before.next_id())
    &&& after.next_id() == next_name(before.next_id())
}

/// One step in the life of a manager: a slice is begun, or none is and the next name
/// stays.
pub open spec fn moves_on(before: SliceManager, after: SliceManager) -> bool {
    begins(before, after) || after.next_id() == before.next_id()
}

/// The states of one manager, one after the other.
pub open spec fn life(states: Seq<SliceManager>) -> bool {
    forall|k: int|
        0 <= k < states.len() - 1 ==> moves_on(#[trigger] states[k], states[k + 1])
}

/// How far the names move on over some steps.
proof fn lemma_names(states: Seq<SliceManager>, i: int, j: int) -> (m: int)
    requires
        life(states),
        0 <= i <= j < states.len(),
    ensures
        0 <= m <= j - i,
        states[j].next_id() == (states[i].next_id() + m) % 0x1_0000_0000_0000_0000,
        i < j && begins(states[i], states[i + 1]) ==> m >= 1,
    decreases j - i,
{
    if i == j {
        0
    } else {
        let less = lemma_names(states, i, j - 1);
        assert(moves_on(states[j - 1], states[j - 1 + 1]));
        if begins(states[j - 1], states[j]) {
            less + 1
        } else {
            less
        }
    }
}

/// A slice is never taken for another: over the life of a manager, no two slices
/// bear one name, be they neighbours or not. (After 2^64 of them the names start
/// over.)
pub proof fn a_new_slice_gets_a_new_id(states: Seq<SliceManager>, i: int, j: int)
    requires
        life(states),
        states.len() <= 0x1_0000_0000_0000_0000,
        0 <= i < j < states.len() - 1,
        begins(states[i], states[i + 1]),
        begins(states[j], states[j + 1]),
    ensures
        states[i + 1].job().id is Some,
        states[i + 1].job().id != states[j + 1].job().id,
{
    let m = lemma_names(states, i, j);
}

/// A running job has no result, nor has one that failed: what can be printed was
/// verified.
pub proof fn only_a_verified_slice_is_a_result(s: JobView, end: SliceEnd)
    requires
        s.state is Running,
    ensures
        ended(s, end).state is Done <==> end is Verified,
        ended(s, end).id == s.id,
        ended(s, end).out_name == s.out_name,
{
}

/// A job that is begun says of itself what its request says, and nothing yet of what
/// comes of it.
pub proof fn a_begun_job_tells_its_request(p: SliceParams, id: u64)
    ensures
        begun(p, id).state is Running,
        begun(p, id).id == Some(id),
        begun(p, id).input_name == Some(p.input_name@),
        begun(p, id).out_name == Some(p.out_name@),
        begun(p, id).layer_mm == Some(p.layer_mm@),
        begun(p, id).filament == Some(p.filament@),
        begun(p, id).bed_type == Some(p.bed_type@),
        begun(p, id).layers is None,
        begun(p, id).bed_temp_c is None,
        begun(p, id).size_bytes is None,
        begun(p, id).error is None,
{
}

/// The end of a job leaves what was asked for as it was, and tells what was found in
/// the slice, or what went wrong.
pub proof fn an_ended_job_tells_its_end(s: JobView, end: SliceEnd)
    requires
        s.state is Running,
        s.layers is None,
        s.error is None,
        s.size_bytes is None,
    ensures
        ended(s, end).input_name == s.input_name,
        ended(s, end).layer_mm == s.layer_mm,
        ended(s, end).filament == s.filament,
        ended(s, end).bed_type == s.bed_type,
        ended(s, end).id == s.id,
        ended(s, end).state is Failed <==> ended(s, end).error is Some,
        ended(s, end).state is Done <==> ended(s, end).size_bytes is Some,
        end matches SliceEnd::Verified(meta, size) ==> ended(s, end).layers == meta.layers && ended(
            s,
            end,
        ).bed_temp_c == meta.bed_temp_c && ended(s, end).size_bytes == Some(size),
        end matches SliceEnd::Refused(e) ==> ended(s, end).error == Some(e@),
        end matches SliceEnd::Lost(e) ==> e@.is_suffix_of(ended(s, end).error->0),
{
    if let SliceEnd::Lost(e) = end {
        let t = ended(s, end).error->0;
        assert(t.subrange(t.len() - e@.len(), t.len() as int) =~= e@);
    }
}

/// A claim on the job reads as a running job that tells nothing of the one before;
/// without one the job reads as it is.
pub proof fn a_claim_reads_as_a_running_job(m: SliceManager)
    ensures
        m.held() ==> m.shown().state is Running && m.shown().id is None && m.shown().out_name is None
            && m.shown().error is None && m.shown().size_bytes is None,
        !m.held() ==> m.shown() == m.job(),
{
}

/// The states of a job are told apart by their names.
pub proof fn states_have_their_own_names(a: SliceState, b: SliceState)
    ensures
        a.name() == b.name() <==> a == b,
        a is Done ==> a.name() == "done"@,
        a is Failed ==> a.name() == "failed"@,
        a is Running ==> a.name() == "running"@,
{
    reveal_strlit("idle");
    reveal_strlit("running");
    reveal_strlit("done");
    reveal_strlit("failed");
    assert("idle"@[0] == 'i' && "done"@[0] == 'd');
    assert("running"@.len() == 7 && "failed"@.len() == 6 && "idle"@.len() == 4);
}

} // verus!
