//! A resolved print start, and the command it becomes.
use vstd::prelude::*;

use crate::control::Command;
use crate::reply::{CommandOutcome, ControlError};
use crate::text::{after_last, ends_with, join2, lower, opt_text, tail_after, to_lower};

verus! {

/// What was read out of a sliced plate.
#[derive(Debug)]
pub struct PlateInspection {
    pub plate: u32,
    /// The digest of the plate's G-code.
    pub gcode_md5: String,
    pub bed_type: Option<String>,
    pub filament_colors: Vec<String>,
    /// The index in the project of each filament the plate uses.
    pub filament_ids: Vec<u32>,
    /// The plate parks the head on every layer.
    pub has_timelapse_blocks: bool,
}

impl PlateInspection {
    pub fn copy(&self) -> (r: PlateInspection)
        ensures
            r.plate == self.plate,
            r.gcode_md5@ == self.gcode_md5@,
            opt_text(r.bed_type) == opt_text(self.bed_type),
            r.filament_colors@.len() == self.filament_colors@.len(),
            forall|i: int|
                0 <= i < r.filament_colors@.len() ==> (#[trigger] r.filament_colors@[i])@
                    == self.filament_colors@[i]@,
            r.filament_ids@ == self.filament_ids@,
            r.has_timelapse_blocks == self.has_timelapse_blocks,
    {
        let mut colors: Vec<String> = Vec::new();
        let mut i: usize = 0;
        while i < self.filament_colors.len()
            invariant
                i <= self.filament_colors@.len(),
                colors@.len() == i,
                forall|j: int| 0 <= j < i ==> (#[trigger] colors@[j])@ == self.filament_colors@[j]@,
            decreases self.filament_colors@.len() - i,
        {
            colors.push(self.filament_colors[i].clone());
            i += 1;
        }
        PlateInspection {
            plate: self.plate,
            gcode_md5: self.gcode_md5.clone(),
            bed_type: crate::text::copied(&self.bed_type),
            filament_colors: colors,
            filament_ids: self.filament_ids.clone(),
            has_timelapse_blocks: self.has_timelapse_blocks,
        }
    }
}

/// A resolved print-start request.
#[derive(Debug)]
pub struct StartRequest {
    /// The file's absolute path on the printer.
    pub file: String,
    pub plate: u32,
    pub use_ams: bool,
    pub ams_map: Vec<i32>,
    pub bed_type: String,
    /// Arm the printer-side timelapse.
    pub timelapse: bool,
    /// What was read out of the plate, where its bytes were at hand.
    pub inspection: Option<PlateInspection>,
}

/// A start of a project file, as the printer takes it.
#[derive(Debug)]
pub struct ProjectFile {
    pub url: String,
    pub plate: u32,
    pub subtask_name: String,
    pub use_ams: bool,
    pub ams_mapping: Vec<i32>,
    pub bed_type: String,
    pub timelapse: bool,
    /// The digest the printer verifies the plate against.
    pub md5: Option<String>,
    /// The index in the project of the filament that each entry of
    /// `ams_mapping` is for; none where the plate was not inspected.
    pub filaments: Option<Vec<u32>>,
}

/// A path that names a project file.
pub open spec fn is_three_mf(file: Seq<char>) -> bool {
    ".3mf"@.is_suffix_of(lower(file))
}

/// The digest an inspection found.
pub open spec fn inspected_md5(i: Option<PlateInspection>) -> Option<Seq<char>> {
    match i {
        Some(insp) => Some(insp.gcode_md5@),
        None => None,
    }
}

/// `c` starts what `r` asks for: a project file for a `.3mf`, with its digest
/// where the plate was inspected; a plain G-code file otherwise.
pub open spec fn starts(c: Command, r: StartRequest) -> bool {
    if is_three_mf(r.file@) {
        c matches Command::ProjectFile(p) && {
            &&& p.url@ == "ftp://"@ + r.file@
            &&& p.plate == r.plate
            &&& p.subtask_name@ == after_last(r.file@, '/')
            &&& p.use_ams == r.use_ams
            &&& p.ams_mapping@ == r.ams_map@
            &&& p.bed_type@ == r.bed_type@
            &&& p.timelapse == r.timelapse
            &&& opt_text(p.md5) == inspected_md5(r.inspection)
            &&& match (p.filaments, r.inspection) {
                (Some(f), Some(i)) => f@ == i.filament_ids@,
                (None, None) => true,
                _ => false,
            }
        }
    } else {
        c matches Command::GcodeFile(f) && f@ == r.file@
    }
}

impl StartRequest {
    /// The command that starts this print.
    pub fn to_command(&self) -> (r: Command)
        ensures
            starts(r, *self),
    {
        let lowered = to_lower(self.file.as_str());
        if ends_with(lowered.as_str(), ".3mf") {
            let (md5, filaments): (Option<String>, Option<Vec<u32>>) = match &self.inspection {
                Some(i) => (Some(i.gcode_md5.clone()), Some(i.filament_ids.clone())),
                None => (None, None),
            };
            Command::ProjectFile(
                ProjectFile {
                    url: join2("ftp://", self.file.as_str()),
                    plate: self.plate,
                    subtask_name: tail_after(self.file.as_str(), '/'),
                    use_ams: self.use_ams,
                    ams_mapping: self.ams_map.clone(),
                    bed_type: self.bed_type.clone(),
                    timelapse: self.timelapse,
                    md5,
                    filaments,
                },
            )
        } else {
            Command::GcodeFile(self.file.clone())
        }
    }
}

/// Starts prints.
pub trait Starter {
    fn start(&self, req: &StartRequest) -> Result<CommandOutcome, ControlError>;
}

/// A canned starter: every start is verified.
pub struct FakeStarter;

impl Starter for FakeStarter {
    fn start(&self, req: &StartRequest) -> (r: Result<CommandOutcome, ControlError>)
        ensures
            r == Ok::<CommandOutcome, ControlError>(CommandOutcome::Verified),
    {
        Ok(CommandOutcome::Verified)
    }
}

// ── Laws ────────────────────────────────────────────────────────────────────

/// The command that starts a print names the file that was asked for, where the
/// printer finds it, and how it was asked to be printed. A project is started as
/// one, with the digest of the plate that was inspected; G-code is started as it is.
pub proof fn a_command_starts_what_was_asked(c: Command, r: StartRequest)
    requires
        starts(c, r),
    ensures
        ".3mf"@.is_suffix_of(lower(r.file@)) <==> c is ProjectFile,
        !(".3mf"@.is_suffix_of(lower(r.file@))) ==> (c matches Command::GcodeFile(f) && f@
            == r.file@),
        c matches Command::ProjectFile(p) ==> {
            &&& p.url@.skip(6) == r.file@
            &&& p.url@.take(6) == "ftp://"@
            &&& p.plate == r.plate
            &&& p.use_ams == r.use_ams
            &&& p.ams_mapping@ == r.ams_map@
            &&& p.bed_type@ == r.bed_type@
            &&& p.timelapse == r.timelapse
            &&& p.subtask_name@.is_suffix_of(r.file@)
            &&& !p.subtask_name@.contains('/')
            &&& match r.inspection {
                Some(i) => (p.md5 matches Some(m) && m@ == i.gcode_md5@) && (p.filaments
                    matches Some(f) && f@ == i.filament_ids@),
                None => p.md5 is None && p.filaments is None,
            }
        },
{
    reveal_strlit("ftp://");
    if let Command::ProjectFile(p) = c {
        assert(p.url@.skip(6) =~= r.file@);
        assert(p.url@.take(6) =~= "ftp://"@);
        lemma_tail(r.file@);
    }
}

proof fn lemma_tail(s: Seq<char>)
    ensures
        after_last(s, '/').is_suffix_of(s),
        !after_last(s, '/').contains('/'),
    decreases s.len(),
{
    let t = after_last(s, '/');
    if s.len() == 0 || s.last() == '/' {
        assert(t =~= s.subrange(s.len() as int, s.len() as int));
    } else {
        let less = s.drop_last();
        let u = after_last(less, '/');
        lemma_tail(less);
        assert(u =~= less.subrange(less.len() - u.len(), less.len() as int));
        assert(t =~= s.subrange(s.len() - t.len(), s.len() as int));
        if t.contains('/') {
            let k = choose|k: int| 0 <= k < t.len() && t[k] == '/';
            if k < u.len() {
                assert(u[k] == '/');
                assert(u.contains('/'));
            }
        }
    }
}

} // verus!
