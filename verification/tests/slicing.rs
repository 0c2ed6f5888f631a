use bambu_serve::files::extract_gcode;
use bambu_serve::reply::Reply;
use bambu_serve::slice::{
    attachment, slice_available, slice_info, slice_mismatch, slice_result, slice_start, NoSlicer,
    SliceAnswer, SliceDownload, SlicePort, SlicePrintBody, SliceQuery, SliceTap, SliceTarget,
    Slicer, SlicerInfo,
};
use bambu_serve::slice_slot::{
    SliceEnd, SliceManager, SliceMeta, SliceParams, SliceSlot, SliceState,
};
use bambu_serve::slicer::{kind_and_env, probe_bins, probe_dirs, Host, LiveSlicer};
use bambu_serve::slicer_run::{
    judge_profile, log_tail, profile_of, run_and_verify, Bed, Choice, Exit, FakeSlicer,
    FsProfileFetch, Launch, Looked, ProfileKind, ProfilePort, ProfileTap, ProofPort, ProofTap, RunPort,
    RunTap, SliceOutput, SpawnError,
};

fn params() -> SliceParams {
    SliceParams {
        input: "/tmp/bambu-model-1.stl".to_string(),
        input_name: "cube.stl".to_string(),
        out_dir: "/work".to_string(),
        out_name: "cube.gcode.3mf".to_string(),
        machine_profile: "Bambu Lab A1 mini 0.4 nozzle".to_string(),
        preset_suffix: "@BBL A1M".to_string(),
        layer_mm: "0.12".to_string(),
        filament: "Bambu PLA Basic @BBL A1M".to_string(),
        bed_type: "Textured PEI Plate".to_string(),
        brim_mm: None,
    }
}

// ── The slot ──

#[test]
fn a_slice_runs_and_exposes_its_result() {
    let mut mgr = SliceManager::new();
    assert_eq!(mgr.status().state, SliceState::Idle);
    assert!(mgr.result().is_none());
    mgr.start(&params()).unwrap();
    assert_eq!(mgr.status().state.as_str(), "running");
    assert!(mgr.is_running());
    assert!(mgr.result().is_none());
    mgr.finish(SliceEnd::Verified(
        SliceMeta {
            layers: Some(42),
            bed_temp_c: Some(65),
        },
        1234,
    ));
    let done = mgr.result().unwrap();
    assert_eq!(done.status.state, SliceState::Done);
    assert_eq!(done.status.layers, Some(42));
    assert_eq!(done.status.bed_temp_c, Some(65));
    assert_eq!(done.status.size_bytes, Some(1234));
    assert_eq!(done.path, "/work/cube.gcode.3mf");
    assert_eq!(done.status.layer_mm.as_deref(), Some("0.12"));
}

#[test]
fn a_second_start_while_one_runs_changes_nothing() {
    let mut mgr = SliceManager::new();
    let first = mgr.start(&params()).unwrap();
    let err = mgr.start(&params()).unwrap_err();
    assert!(err.contains("already running"), "{err}");
    assert_eq!(mgr.status().id, Some(first));
    mgr.finish(SliceEnd::Refused("released".to_string()));
    assert_eq!(mgr.status().state, SliceState::Failed);
    assert_eq!(mgr.status().error.as_deref(), Some("released"));
    assert!(mgr.result().is_none(), "a failed job has no result to print");
    let second = mgr.start(&params()).unwrap();
    assert_ne!(first, second, "a new slice gets a new id");
    mgr.finish(SliceEnd::Lost("panicked".to_string()));
    assert_eq!(
        mgr.status().error.as_deref(),
        Some("slice task failed: panicked")
    );
}

#[test]
fn a_claim_reads_as_running_and_is_given_back() {
    let mut mgr = SliceManager::default();
    let held = mgr.reserve().expect("the slot starts free");
    assert_eq!(mgr.status().state, SliceState::Running);
    assert!(mgr.reserve().is_none());
    mgr.release(held);
    assert_eq!(mgr.status().state, SliceState::Idle);
    let held = mgr.reserve().expect("usable again");
    mgr.start(&params()).unwrap();
    mgr.commit(held);
    assert_eq!(mgr.status().state, SliceState::Running);
    assert!(mgr.reserve().is_none(), "the running job keeps the next caller out");
}

// ── Asking for a slice ──

struct Desk {
    safe: bool,
    info: Option<String>,
    nozzle: Option<String>,
    free: bool,
    bytes: u64,
    authored: Result<bool, String>,
    fits: Result<(), String>,
    suffix: Result<String, String>,
    workdir: Result<String, String>,
    started: Result<(), String>,
    did: Vec<String>,
}

fn desk() -> Desk {
    Desk {
        safe: true,
        info: None,
        nozzle: None,
        free: true,
        bytes: 10,
        authored: Ok(false),
        fits: Ok(()),
        suffix: Ok("@BBL A1M".to_string()),
        workdir: Ok("/work/7".to_string()),
        started: Ok(()),
        did: Vec::new(),
    }
}

impl SlicePort for Desk {
    fn is_safe_profile_name(&mut self, name: &str) -> bool {
        self.safe && !name.contains('/')
    }
    fn info(&mut self) -> Result<SlicerInfo, String> {
        match &self.info {
            None => Ok(SlicerInfo {
                kind: "fake".to_string(),
                thumbnails: false,
            }),
            Some(e) => Err(e.clone()),
        }
    }
    fn reported_nozzle(&mut self) -> Option<String> {
        self.nozzle.clone()
    }
    fn machine_profile(&mut self, nozzle: &str) -> String {
        format!("Bambu Lab A1 mini {nozzle} nozzle")
    }
    fn process_suffix(&mut self, _nozzle: &str) -> Result<String, String> {
        self.suffix.clone()
    }
    fn layer_fits_nozzle(&mut self, _layer: &str, _nozzle: &str) -> Result<(), String> {
        self.fits.clone()
    }
    fn reserve(&mut self) -> bool {
        self.did.push("reserve".to_string());
        self.free
    }
    fn release(&mut self) {
        self.did.push("release".to_string());
    }
    fn commit(&mut self) {
        self.did.push("commit".to_string());
    }
    fn stage(&mut self, suffix: &str) -> Result<(String, u64), Reply> {
        self.did.push(format!("stage {suffix}"));
        Ok((format!("/tmp/model{suffix}"), self.bytes))
    }
    fn is_authored_project(&mut self, path: &str) -> Result<bool, String> {
        assert_eq!(path, "/tmp/model.3mf");
        self.authored.clone()
    }
    fn make_workdir(&mut self) -> Result<String, String> {
        self.workdir.clone()
    }
    fn output_name(&mut self, name: &str) -> String {
        format!("{}.gcode.3mf", name.split('.').next().unwrap())
    }
    fn start(&mut self, p: SliceParams) -> Result<(), String> {
        self.did.push(format!(
            "start {} in {} as {} {} {} {}",
            p.input, p.out_dir, p.out_name, p.machine_profile, p.filament, p.bed_type
        ));
        self.started.clone()
    }
}

fn query() -> SliceQuery {
    SliceQuery {
        name: Some("cube.stl".to_string()),
        layer: Some("0.12".to_string()),
        filament: Some("Bambu PLA Basic @BBL A1M".to_string()),
        bed_type: Some("Textured PEI Plate".to_string()),
        brim: None,
        nozzle: Some("0.4".to_string()),
    }
}

fn a1_mini() -> SliceTarget {
    SliceTarget {
        model: Some("a1mini".to_string()),
        machine_base: Some("Bambu Lab A1 mini".to_string()),
    }
}

/// The status and the error of a refusal, and what was done.
fn refused(d: Desk, t: &SliceTarget, q: &SliceQuery) -> (u16, String, Vec<String>) {
    let mut tap = SliceTap::new(d);
    match slice_start(&mut tap, t, q) {
        SliceAnswer::Refused(r) => (r.status, r.error, tap.into_port().did),
        SliceAnswer::Accepted => panic!("accepted"),
    }
}

#[test]
fn a_slice_is_claimed_staged_and_started() {
    let mut tap = SliceTap::new(desk());
    let r = slice_start(&mut tap, &a1_mini(), &query());
    assert!(matches!(r, SliceAnswer::Accepted));
    assert_eq!(
        tap.into_port().did,
        vec![
            "reserve",
            "stage .stl",
            "start /tmp/model.stl in /work/7 as cube.gcode.3mf Bambu Lab A1 mini 0.4 nozzle Bambu PLA Basic @BBL A1M Textured PEI Plate",
            "commit",
        ]
    );
}

#[test]
fn slicing_refuses_to_guess_what_only_the_user_knows() {
    let mut q = query();
    q.layer = None;
    assert!(refused(desk(), &a1_mini(), &q).1.starts_with("layer required"));
    let mut q = query();
    q.filament = Some("  ".to_string());
    assert!(refused(desk(), &a1_mini(), &q).1.starts_with("filament required"));
    let mut q = query();
    q.bed_type = None;
    assert!(refused(desk(), &a1_mini(), &q).1.starts_with("bed_type required"));
    let mut q = query();
    q.nozzle = None;
    assert_eq!(
        refused(desk(), &a1_mini(), &q),
        (400, "nozzle unknown — pass &nozzle=0.4".to_string(), vec![])
    );
    // What the printer reports comes first.
    let mut d = desk();
    d.nozzle = Some("0.6".to_string());
    d.suffix = Err("only 0.4".to_string());
    assert_eq!(refused(d, &a1_mini(), &query()).1, "only 0.4");
}

#[test]
fn slicing_refuses_bad_names_extensions_and_numbers() {
    for name in ["../../etc/passwd", "sub/cube.stl", "cube\\x.stl", ""] {
        let mut q = query();
        q.name = Some(name.to_string());
        let (status, error, did) = refused(desk(), &a1_mini(), &q);
        assert_eq!(status, 400);
        assert_eq!(error, format!("invalid filename {name:?}"));
        assert!(did.is_empty());
    }
    let mut q = query();
    q.name = Some("notes.txt".to_string());
    assert!(refused(desk(), &a1_mini(), &q).1.contains("is not a model file"));
    q.name = Some("cube.gcode.3mf".to_string());
    assert!(refused(desk(), &a1_mini(), &q).1.contains("already a sliced"));
    let mut q = query();
    q.brim = Some(("25".to_string(), false));
    assert_eq!(refused(desk(), &a1_mini(), &q).1, "brim=25 is outside 0–20 mm");
    let mut d = desk();
    d.fits = Err("1.5 mm is too high".to_string());
    assert_eq!(refused(d, &a1_mini(), &query()).1, "1.5 mm is too high");
    let mut q = query();
    q.filament = Some("../../etc/passwd".to_string());
    assert_eq!(
        refused(desk(), &a1_mini(), &q).1,
        "invalid filament profile name \"../../etc/passwd\""
    );
    let mut q = query();
    q.bed_type = Some("a/b".to_string());
    assert_eq!(refused(desk(), &a1_mini(), &q).1, "invalid bed_type \"a/b\"");
    let mut q = query();
    q.nozzle = Some("0/4".to_string());
    assert_eq!(refused(desk(), &a1_mini(), &q).1, "invalid nozzle \"0/4\"");
}

#[test]
fn slicing_is_unavailable_without_a_slicer_or_a_mapping() {
    let mut d = desk();
    d.info = Some("no slicer found".to_string());
    assert_eq!(
        refused(d, &a1_mini(), &query()),
        (503, "no slicer found".to_string(), vec![])
    );
    let p1s = SliceTarget {
        model: Some("p1s".to_string()),
        machine_base: None,
    };
    assert_eq!(
        refused(desk(), &p1s, &query()).1,
        "no verified slicer profile mapping for model p1s"
    );
    let ok = SlicerInfo {
        kind: "fake".to_string(),
        thumbnails: true,
    };
    assert!(slice_available(&a1_mini(), Ok(ok)).is_ok());
    let nobody = SliceTarget {
        model: None,
        machine_base: None,
    };
    let info = slice_info(&nobody, Err("x".to_string()), Default::default());
    assert!(!info.available);
    assert_eq!(
        info.reason.as_deref(),
        Some("no verified slicer profile mapping for model unknown")
    );
    assert!(NoSlicer("none".to_string()).info().is_err());
}

#[test]
fn a_claim_is_given_back_whatever_goes_wrong() {
    let mut d = desk();
    d.free = false;
    assert_eq!(
        refused(d, &a1_mini(), &query()),
        (409, "a slice is already running".to_string(), vec!["reserve".to_string()])
    );
    let mut d = desk();
    d.bytes = 0;
    let (status, error, did) = refused(d, &a1_mini(), &query());
    assert_eq!((status, error.as_str()), (400, "empty body: POST the model file's bytes"));
    assert_eq!(did, vec!["reserve", "stage .stl", "release"]);
    let mut q = query();
    q.name = Some("part.3MF".to_string());
    let mut d = desk();
    d.authored = Ok(true);
    let (_, error, did) = refused(d, &a1_mini(), &q);
    assert!(error.contains("authored project"), "{error}");
    assert_eq!(did, vec!["reserve", "stage .3mf", "release"]);
    let mut d = desk();
    d.authored = Err("broken".to_string());
    assert_eq!(refused(d, &a1_mini(), &q).1, "3mf inspection: broken");
    let mut d = desk();
    d.workdir = Err("disk full".to_string());
    let (status, _, did) = refused(d, &a1_mini(), &query());
    assert_eq!(status, 500);
    assert_eq!(did.last().unwrap(), "release");
    let mut d = desk();
    d.started = Err("a slice is already running".to_string());
    let (status, _, did) = refused(d, &a1_mini(), &query());
    assert_eq!(status, 409);
    assert_eq!(did.last().unwrap(), "release");
}

// ── The result ──

#[test]
fn a_result_is_handed_out_once_it_is_there() {
    let mut mgr = SliceManager::new();
    match slice_result(mgr.status(), mgr.result()) {
        SliceDownload::Missing(r, job) => {
            assert_eq!((r.status, r.error.as_str()), (404, "no finished slice"));
            assert_eq!(job.state, SliceState::Idle);
        }
        other => panic!("{other:?}"),
    }
    mgr.start(&params()).unwrap();
    match slice_result(mgr.status(), mgr.result()) {
        SliceDownload::Refused(r) => assert_eq!(r.status, 409),
        other => panic!("{other:?}"),
    }
    mgr.finish(SliceEnd::Verified(
        SliceMeta {
            layers: None,
            bed_temp_c: None,
        },
        1,
    ));
    match slice_result(mgr.status(), mgr.result()) {
        SliceDownload::File { path, name } => {
            assert_eq!(path, "/work/cube.gcode.3mf");
            assert_eq!(attachment(&name), "attachment; filename=\"cube.gcode.3mf\"");
        }
        other => panic!("{other:?}"),
    }
}

#[test]
fn a_confirmation_has_to_name_the_slice() {
    assert!(slice_mismatch(Some(3), Some(3)).is_none());
    let stale = slice_mismatch(Some(3), Some(4)).unwrap();
    assert_eq!(stale.status, 409);
    assert_eq!(
        stale.error,
        "slice 3 is no longer the one loaded (the slot now holds 4) — dry-run again and confirm against that"
    );
    let unnamed = slice_mismatch(None, Some(4)).unwrap();
    assert_eq!(unnamed.status, 400);
    assert!(unnamed.error.ends_with("this slice is 4"));
    let b = SlicePrintBody::default();
    assert_eq!(b.plate, 1);
    assert!(!b.confirm && b.expect.is_none());
}

// ── Finding a slicer ──

fn host(bins: &[&str], dirs: &[&str]) -> Host {
    Host {
        orca: None,
        xvfb: false,
        executables: bins.iter().map(|s| s.to_string()).collect(),
        directories: dirs.iter().map(|s| s.to_string()).collect(),
    }
}

#[test]
fn discover_refuses_a_directory_that_is_not_a_profile_bundle() {
    let err = LiveSlicer::discover(
        &host(&[], &["/empty"]),
        Some("/empty/slicer".to_string()),
        Some("/empty".to_string()),
        1000,
    )
    .err()
    .expect("a non-executable file is not a slicer");
    assert!(err.contains("not an executable file"), "{err}");
    let err = LiveSlicer::discover(
        &host(&["/empty/slicer"], &["/empty"]),
        Some("/empty/slicer".to_string()),
        Some("/empty".to_string()),
        1000,
    )
    .err()
    .expect("an empty directory is not a profile bundle");
    assert!(err.contains("not a BBL profile bundle"), "{err}");
    let err = LiveSlicer::discover(
        &host(&["/empty/slicer"], &["/empty"]),
        Some("/empty/nope".to_string()),
        None,
        1000,
    )
    .err()
    .expect("an explicit --slicer-bin that does not exist is an error");
    assert!(err.contains("not an executable file"), "{err}");
}

#[test]
fn profiles_come_from_beside_the_slicer() {
    let h = host(
        &["/opt/x/bin/slicer"],
        &[
            "/opt/x/resources/profiles/BBL",
            "/opt/x/resources/profiles/BBL/machine",
            "/opt/x/resources/profiles/BBL/process",
            "/opt/x/resources/profiles/BBL/filament",
        ],
    );
    let s = LiveSlicer::discover(&h, Some("/opt/x/bin/slicer".to_string()), None, 5000).unwrap();
    assert_eq!(s.profiles, "/opt/x/resources/profiles/BBL");
    assert_eq!(s.kind, "slicer");
    assert_eq!(s.timeout_ms, 5000);
    let info = s.info().unwrap();
    assert_eq!(info.kind, "slicer");
    let dirs = probe_dirs(&None, &Some("/opt/x/bin/slicer".to_string()), &None);
    assert!(dirs.contains(&"/opt/x/resources/profiles/BBL/process".to_string()));
    let bins = probe_bins(&None, &Some("/opt/x/bin/slicer".to_string()));
    assert_eq!(
        bins,
        vec!["/opt/x/bin/slicer", "/opt/bambustudio-bin/bin/bambu-studio"]
    );
    let none = LiveSlicer::discover(&host(&[], &[]), None, None, 1).err().unwrap();
    assert!(none.starts_with("no slicer found"), "{none}");
    let lonely = LiveSlicer::discover(&host(&["/s"], &[]), Some("/s".to_string()), None, 1)
        .err()
        .unwrap();
    assert_eq!(
        lonely,
        "no BBL profile bundle found beside /s — pass --slicer-profiles"
    );
    let gone = LiveSlicer::discover(
        &host(&["/s"], &[]),
        Some("/s".to_string()),
        Some("/nowhere".to_string()),
        1,
    )
    .err()
    .unwrap();
    assert_eq!(gone, "--slicer-profiles /nowhere is not a directory");
}

#[test]
fn bambu_studio_gets_its_libraries_and_a_plain_locale() {
    let (kind, env) = kind_and_env("/opt/bambustudio-bin/bin/bambu-studio");
    assert_eq!(kind, "bambu-studio");
    assert_eq!(
        env,
        vec![
            (
                "LD_LIBRARY_PATH".to_string(),
                "/opt/bambustudio-bin/bin".to_string()
            ),
            ("LC_ALL".to_string(), "C".to_string()),
        ]
    );
    assert_eq!(kind_and_env("/usr/bin/orca-slicer/"), ("orca-slicer".to_string(), vec![]));
    assert_eq!(kind_and_env("/").0, "slicer");
}

// ── Profiles ──

struct Disk {
    resolves: Vec<(String, Looked<String>)>,
    read: Vec<(String, Vec<u8>)>,
}

impl ProfilePort for Disk {
    fn is_safe_profile_name(&mut self, name: &str) -> bool {
        !name.contains('/') && !name.contains("..")
    }
    fn canonicalize(&mut self, path: &str) -> Looked<String> {
        match self.resolves.iter().find(|(p, _)| p == path) {
            Some((_, Looked::Found(r))) => Looked::Found(r.clone()),
            Some((_, Looked::Failed(e))) => Looked::Failed(e.clone()),
            _ => Looked::Absent,
        }
    }
    fn read(&mut self, path: &str) -> Looked<Vec<u8>> {
        match self.read.iter().find(|(p, _)| p == path) {
            Some((_, b)) => Looked::Found(b.clone()),
            None => Looked::Absent,
        }
    }
}

fn bundle() -> Disk {
    let same = |p: &str| (p.to_string(), Looked::Found(p.to_string()));
    Disk {
        resolves: vec![
            same("/b/machine"),
            same("/b/filament"),
            same("/b/machine/Test Machine 0.4 nozzle.json"),
            (
                "/b/filament/escape.json".to_string(),
                Looked::Found("/outside/secret.json".to_string()),
            ),
            (
                "/b/machine/loop_a.json".to_string(),
                Looked::Failed("too many links".to_string()),
            ),
        ],
        read: vec![(
            "/b/machine/Test Machine 0.4 nozzle.json".to_string(),
            b"{\"printable_area\":[]}".to_vec(),
        )],
    }
}

#[test]
fn fs_profile_fetch_reads_a_profile_and_refuses_traversal() {
    let fetch = FsProfileFetch::new("/b");
    let mut tap = ProfileTap::new(bundle());
    let m = fetch
        .fetch(&mut tap, ProfileKind::Machine, "Test Machine 0.4 nozzle")
        .unwrap()
        .unwrap();
    assert!(m.starts_with(b"{"));
    assert!(fetch
        .fetch(&mut tap, ProfileKind::Process, "no such profile")
        .unwrap()
        .is_none());
    let err = fetch
        .fetch(&mut tap, ProfileKind::Filament, "../../../../etc/passwd")
        .unwrap_err();
    assert!(err.contains("unsafe profile name"), "{err}");
}

#[test]
fn a_symlink_out_of_the_bundle_is_refused_even_though_its_name_is_safe() {
    let mut tap = ProfileTap::new(bundle());
    let err = FsProfileFetch::new("/b")
        .fetch(&mut tap, ProfileKind::Filament, "escape")
        .unwrap_err();
    assert!(err.contains("outside the profiles directory"), "{err}");
}

#[test]
fn an_unreadable_profile_is_an_error_not_a_quiet_absence() {
    let mut tap = ProfileTap::new(bundle());
    let f = FsProfileFetch::new("/b");
    assert!(f
        .fetch(&mut tap, ProfileKind::Machine, "dangling")
        .unwrap()
        .is_none());
    let err = f
        .fetch(&mut tap, ProfileKind::Machine, "loop_a")
        .unwrap_err();
    assert!(err.contains("resolving"), "{err}");
    assert_eq!(
        profile_of("/p", Looked::Found(b"[1]".to_vec())).unwrap_err(),
        "/p is not a JSON object"
    );
    assert!(profile_of("/p", Looked::Found(b"{".to_vec()))
        .unwrap_err()
        .starts_with("parsing /p: "));
    assert_eq!(
        profile_of("/p", Looked::Failed("denied".to_string())).unwrap_err(),
        "reading /p: denied"
    );
}

// ── Running it ──

struct Machinery {
    bed: Option<Bed>,
    polls: Vec<Result<Option<Exit>, String>>,
    overdue_after: usize,
    asked: usize,
    log: String,
    there: bool,
    spawn: Option<SpawnError>,
    did: Vec<String>,
}

fn machinery(polls: Vec<Result<Option<Exit>, String>>) -> Machinery {
    Machinery {
        bed: bed("256", "250.5"),
        polls,
        overdue_after: 100,
        asked: 0,
        log: String::new(),
        there: true,
        spawn: None,
        did: Vec::new(),
    }
}

impl RunPort for Machinery {
    fn overrides(&mut self, p: &SliceParams) -> Result<Choice, String> {
        Ok(Choice {
            process: format!("{}mm Fine {}", p.layer_mm, p.preset_suffix),
            changes: vec![("curr_bed_type".to_string(), p.bed_type.clone())],
        })
    }
    fn flatten(
        &mut self,
        root: &str,
        kind: ProfileKind,
        name: &str,
        changes: &Vec<(String, String)>,
    ) -> Result<(), String> {
        self.did.push(format!("flatten {root} {} {name} {}", kind.subdir(), changes.len()));
        Ok(())
    }
    fn bed(&mut self) -> Option<Bed> {
        self.bed.clone()
    }
    fn write_profile(&mut self, _kind: ProfileKind, path: &str) -> Result<(), String> {
        self.did.push(format!("write {path}"));
        Ok(())
    }
    fn open_log(&mut self, path: &str) -> Result<(), String> {
        self.did.push(format!("log to {path}"));
        Ok(())
    }
    fn spawn(&mut self, l: &Launch) -> Result<(), SpawnError> {
        self.did.push(format!(
            "spawn {} {} on {} into {} as {}",
            l.bin, l.xvfb, l.input, l.out_dir, l.out_name
        ));
        match self.spawn.take() {
            Some(e) => Err(e),
            None => Ok(()),
        }
    }
    fn poll(&mut self) -> Result<Option<Exit>, String> {
        if self.polls.is_empty() {
            Ok(None)
        } else {
            self.polls.remove(0)
        }
    }
    fn overdue(&mut self) -> bool {
        self.asked += 1;
        self.asked > self.overdue_after
    }
    fn pause(&mut self) {}
    fn kill(&mut self) {
        self.did.push("kill".to_string());
    }
    fn log_text(&mut self, path: &str) -> String {
        assert_eq!(path, "/work/slicer.log");
        self.log.clone()
    }
    fn produced(&mut self, path: &str) -> bool {
        self.did.push(format!("look for {path}"));
        self.there
    }
}

fn slicer(timeout_ms: u64) -> LiveSlicer {
    LiveSlicer {
        bin: "/bin/slicer".to_string(),
        profiles: "/b".to_string(),
        kind: "slicer".to_string(),
        env: vec![],
        xvfb: false,
        timeout_ms,
    }
}

fn done(code: i32) -> Result<Option<Exit>, String> {
    Ok(Some(Exit {
        success: code == 0,
        code: Some(code),
    }))
}

#[test]
fn a_slicer_is_run_from_its_profiles_to_its_output() {
    let mut tap = RunTap::new(machinery(vec![Ok(None), Ok(None), done(0)]));
    assert_eq!(
        slicer(60_000).slice(&mut tap, &params()).unwrap().path,
        "/work/cube.gcode.3mf"
    );
    assert_eq!(
        tap.into_port().did,
        vec![
            "flatten /b machine Bambu Lab A1 mini 0.4 nozzle 0",
            "flatten /b process 0.12mm Fine @BBL A1M 1",
            "flatten /b filament Bambu PLA Basic @BBL A1M 0",
            "write /work/machine.json",
            "write /work/process.json",
            "write /work/filament.json",
            "log to /work/slicer.log",
            "spawn /bin/slicer false on /tmp/bambu-model-1.stl into /work as cube.gcode.3mf",
            "look for /work/cube.gcode.3mf",
        ]
    );
}

#[test]
fn a_slicer_that_fails_says_what_it_logged() {
    let mut m = machinery(vec![done(6)]);
    m.log = "  Unknown file format.\n".to_string();
    let mut tap = RunTap::new(m);
    assert_eq!(
        slicer(60_000).slice(&mut tap, &params()).unwrap_err(),
        "slicer exited 6 — Unknown file format."
    );
    let mut m = machinery(vec![done(0)]);
    m.there = false;
    assert_eq!(
        slicer(60_000)
            .slice(&mut RunTap::new(m), &params())
            .unwrap_err(),
        "the slicer exited 0 but produced no cube.gcode.3mf — the slicer logged nothing"
    );
    let m = machinery(vec![Ok(Some(Exit {
        success: false,
        code: None,
    }))]);
    assert!(slicer(1)
        .slice(&mut RunTap::new(m), &params())
        .unwrap_err()
        .starts_with("slicer exited on a signal"));
    let mut m = machinery(vec![]);
    m.bed = None;
    assert!(slicer(1)
        .slice(&mut RunTap::new(m), &params())
        .unwrap_err()
        .contains("printable_area"));
    let mut m = machinery(vec![]);
    m.spawn = Some(SpawnError {
        program: "xvfb-run".to_string(),
        why: None,
    });
    assert_eq!(
        slicer(1).slice(&mut RunTap::new(m), &params()).unwrap_err(),
        "xvfb-run not found — is the slicer still installed?"
    );
    let m = machinery(vec![Err("lost".to_string())]);
    assert_eq!(
        slicer(1).slice(&mut RunTap::new(m), &params()).unwrap_err(),
        "waiting for the slicer: lost"
    );
    assert_eq!(log_tail(&"x".repeat(2000)).len(), 1500);
}

#[test]
fn a_wedged_slicer_is_killed_at_the_timeout_and_leaves_no_zombie() {
    let mut m = machinery(vec![]);
    m.overdue_after = 2;
    let mut tap = RunTap::new(m);
    let err = slicer(300).slice(&mut tap, &params()).unwrap_err();
    assert!(err.contains("timed out after"), "{err}");
    assert_eq!(tap.into_port().did.last().unwrap(), "kill");
    // The clock alone decides, however often it is asked.
    let mut tap = RunTap::new(machinery(vec![]));
    assert!(slicer(3000)
        .slice(&mut tap, &params())
        .unwrap_err()
        .starts_with("slicer timed out after 3s"));
    assert_eq!(tap.into_port().asked, 101);
}

/// A slicer whose output is whatever the test says, and a check of what extrudes
/// beside a bed.
struct Bench {
    made: Result<SliceOutput, String>,
    bytes: Vec<u8>,
    held_to: Vec<(String, Option<Bed>)>,
}

impl ProofPort for &mut Bench {
    fn slice(&mut self, p: &SliceParams) -> Result<SliceOutput, String> {
        assert_eq!(p.layer_mm, "0.12");
        self.made.clone()
    }
    fn read(&mut self, path: &str) -> Result<Vec<u8>, String> {
        assert_eq!(path, "/work/cube.gcode.3mf");
        Ok(self.bytes.clone())
    }
    fn plate_gcode(&mut self, bytes: &Vec<u8>) -> Result<Option<String>, String> {
        Ok(extract_gcode(bytes, 1)?.map(|b| String::from_utf8(b).unwrap()))
    }
    fn verify(
        &mut self,
        gcode: &str,
        layer_mm: &str,
        bed: &Option<Bed>,
    ) -> Result<SliceMeta, String> {
        self.held_to.push((layer_mm.to_string(), bed.clone()));
        let bounds = bed.as_ref().map(|b| {
            (b.x_mm.parse::<f64>().unwrap(), b.y_mm.parse::<f64>().unwrap())
        });
        for line in gcode.lines() {
            let at = |axis: char| {
                line.split(' ')
                    .find_map(|w| w.strip_prefix(axis))
                    .and_then(|n| n.parse::<f64>().ok())
            };
            if let (Some((x, y)), Some(_)) = (bounds, at('E')) {
                if at('X').is_some_and(|v| v > x) || at('Y').is_some_and(|v| v > y) {
                    return Err(format!("off the bed: {line}"));
                }
            }
        }
        let number = |head: &str| {
            gcode
                .lines()
                .find_map(|l| l.strip_prefix(head))
                .and_then(|n| n.parse().ok())
        };
        Ok(SliceMeta {
            layers: number("; total layer number: "),
            bed_temp_c: number("M190 S"),
        })
    }
}

fn bed(x: &str, y: &str) -> Option<Bed> {
    Some(Bed {
        x_mm: x.to_string(),
        y_mm: y.to_string(),
    })
}

/// A file with this entry alone.
fn archive(name: &str, text: &str) -> Vec<u8> {
    let mut w = zip::ZipWriter::new(std::io::Cursor::new(Vec::new()));
    w.start_file(name, zip::write::SimpleFileOptions::default()).unwrap();
    std::io::Write::write_all(&mut w, text.as_bytes()).unwrap();
    w.finish().unwrap().into_inner()
}

fn bench(bytes: Vec<u8>, bed: Option<Bed>) -> Bench {
    Bench {
        made: Ok(SliceOutput {
            path: "/work/cube.gcode.3mf".to_string(),
            bed,
        }),
        bytes,
        held_to: vec![],
    }
}

fn proved(bench: &mut Bench) -> Result<(SliceMeta, u64), String> {
    match run_and_verify(&mut ProofTap::new(bench), &params()) {
        SliceEnd::Verified(m, size) => Ok((m, size)),
        SliceEnd::Refused(e) => Err(e),
        other => panic!("{other:?}"),
    }
}

#[test]
fn a_slicer_that_fakes_a_good_slice_is_caught_by_verification() {
    let generic = || {
        archive(
            "Metadata/plate_1.gcode",
            "; layer_height = 0.12\nG1 X10.1 Y200.0 E15 ;Draw the first line\n; CHANGE_LAYER\n",
        )
    };
    let mut small = bench(generic(), bed("180", "180"));
    let err = proved(&mut small).unwrap_err();
    assert!(err.contains("verification failed"), "{err}");
    assert!(err.contains("Draw the first line"), "{err}");
    assert_eq!(small.held_to, vec![("0.12".to_string(), bed("180", "180"))]);
    let mut mgr = SliceManager::new();
    mgr.start(&params()).unwrap();
    mgr.finish(SliceEnd::Refused(err));
    let s = mgr.status();
    assert_eq!(s.state.as_str(), "failed");
    assert!(s.error.as_deref().unwrap().contains("Draw the first line"));
    assert!(mgr.result().is_none(), "a failed job has no result to print");
    // The same file is fine for a bed that it fits on.
    let mut large = bench(generic(), bed("256", "256"));
    assert_eq!(proved(&mut large).unwrap().1, large.bytes.len() as u64);
    assert_eq!(large.held_to[0].1, bed("256", "256"));
}

#[test]
fn a_fake_slice_runs_verifies_and_exposes_its_result() {
    let mut mgr = SliceManager::new();
    assert_eq!(mgr.status().state.as_str(), "idle");
    assert!(mgr.result().is_none());
    mgr.start(&params()).unwrap();
    let mut b = bench(FakeSlicer.slice(&params(), "abc").unwrap(), None);
    b.made = Ok(FakeSlicer.output(&params()));
    mgr.finish(run_and_verify(&mut ProofTap::new(&mut b), &params()));
    let s = mgr.status();
    assert_eq!(s.state.as_str(), "done", "{:?}", s.error);
    assert_eq!(s.layers, Some(42));
    assert_eq!(s.bed_temp_c, Some(65));
    assert!(s.size_bytes.unwrap() > 0);
    let done = mgr.result().unwrap();
    assert_eq!(done.status.state.as_str(), "done");
    assert_eq!(done.path, FakeSlicer.output(&params()).path);
    assert!(extract_gcode(&b.bytes, 1).unwrap().is_some());
}

#[test]
fn a_slice_is_held_to_the_bed_it_was_made_for() {
    let mut tap = RunTap::new(machinery(vec![done(0)]));
    let made = slicer(60_000).slice(&mut tap, &params()).unwrap();
    assert_eq!(made.bed, bed("256", "250.5"));
    let mut b = bench(FakeSlicer.slice(&params(), "abc").unwrap(), None);
    b.made = Ok(made);
    assert!(proved(&mut b).is_ok());
    assert_eq!(b.held_to, vec![("0.12".to_string(), bed("256", "250.5"))]);
    // The canned slice wipes beside its bed, and primes on it.
    let canned = FakeSlicer.output(&params());
    assert_eq!(canned.path, "/work/cube.gcode.3mf");
    assert_eq!(canned.bed, bed("180", "180"));
    b.made = Ok(canned);
    assert!(proved(&mut b).is_ok());
    assert_eq!(b.held_to[1].1, bed("180", "180"));
    b.made = Err("no slicer".to_string());
    assert_eq!(proved(&mut b).unwrap_err(), "no slicer");
    let mut unsliced = bench(archive("3D/model.xml", "<model/>"), bed("180", "180"));
    assert!(proved(&mut unsliced).unwrap_err().contains("it was not sliced"));
    assert!(unsliced.held_to.is_empty());
}

#[test]
fn the_canned_slice_can_be_read_back() {
    let gcode = FakeSlicer.gcode(&params());
    assert!(gcode.contains("; layer_height = 0.12\n"));
    let bytes = FakeSlicer.slice(&params(), "abc").unwrap();
    assert_eq!(
        extract_gcode(&bytes, 1).unwrap().unwrap(),
        gcode.as_bytes().to_vec()
    );
    let mut archive = zip::ZipArchive::new(std::io::Cursor::new(bytes)).unwrap();
    let mut plate = String::new();
    std::io::Read::read_to_string(
        &mut archive.by_name("Metadata/plate_1.json").unwrap(),
        &mut plate,
    )
    .unwrap();
    assert_eq!(
        plate,
        "{\"bed_type\":\"Textured PEI Plate\",\"filament_colors\":[\"#00AE42\"],\"filament_ids\":[0]}"
    );
    let mut odd = params();
    odd.bed_type = "a \"plate\"".to_string();
    assert!(FakeSlicer.slice(&odd, "abc").is_ok());
    assert_eq!(FakeSlicer.info().unwrap().kind, "fake");
}

#[test]
fn a_profile_has_to_be_an_object() {
    let bytes = || b"{}".to_vec();
    assert_eq!(judge_profile("/p.json", bytes(), Ok(true)), Ok(Some(bytes())));
    assert_eq!(
        judge_profile("/p.json", bytes(), Ok(false)),
        Err("/p.json is not a JSON object".to_string())
    );
    assert_eq!(
        judge_profile("/p.json", bytes(), Err("odd".to_string())),
        Err("parsing /p.json: odd".to_string())
    );
}

// ── Slicing, one promise at a time ──

#[test]
fn slice_availability_is_advertised_with_the_machine_it_would_slice_for() {
    let info = slice_info(&a1_mini(), FakeSlicer.info(), SliceManager::new().status());
    assert!(info.available);
    assert_eq!(info.slicer.unwrap().kind, "fake");
    assert_eq!(info.machine.as_deref(), Some("Bambu Lab A1 mini"));
    assert_eq!(info.job.state.as_str(), "idle");
    assert_eq!(info.reason, None);
}

#[test]
fn with_no_slicer_installed_the_api_says_so_instead_of_failing() {
    let none = || NoSlicer("no slicer found: install X".to_string()).info();
    let info = slice_info(&a1_mini(), none(), SliceManager::new().status());
    assert!(!info.available);
    assert_eq!(info.reason.as_deref(), Some("no slicer found: install X"));
    let mut d = desk();
    d.info = Some("no slicer found: install X".to_string());
    let (status, error, _) = refused(d, &a1_mini(), &query());
    assert_eq!((status, error.as_str()), (503, "no slicer found: install X"));
}

#[test]
fn a_model_with_no_verified_profile_mapping_is_not_sliced_for() {
    let p1s = SliceTarget {
        model: Some("p1s".to_string()),
        machine_base: None,
    };
    let info = slice_info(&p1s, FakeSlicer.info(), SliceManager::new().status());
    assert!(!info.available);
    assert!(info.reason.unwrap().contains("p1s"));
    assert_eq!(info.machine, None);
    assert_eq!(refused(desk(), &p1s, &query()).0, 503);
}

#[test]
fn slice_refuses_to_guess_the_things_only_the_user_knows() {
    let without: [(fn(&mut SliceQuery), &str); 4] = [
        (|q| q.layer = None, "layer"),
        (|q| q.filament = None, "filament"),
        (|q| q.bed_type = None, "bed_type"),
        (|q| q.nozzle = None, "nozzle"),
    ];
    for (take, want) in without {
        let mut q = query();
        take(&mut q);
        let (status, error, _) = refused(desk(), &a1_mini(), &q);
        assert_eq!(status, 400);
        assert!(error.contains(want), "expected {want:?} in {error:?}");
    }
}

#[test]
fn an_authored_project_3mf_is_refused_rather_than_re_arranged() {
    let mut q = query();
    q.name = Some("part.3mf".to_string());
    let mut d = desk();
    d.authored = Ok(true);
    let (status, error, _) = refused(d, &a1_mini(), &q);
    assert_eq!(status, 400);
    assert!(error.contains("project"), "{error}");
    // Bare geometry is fine.
    let r = slice_start(&mut SliceTap::new(desk()), &a1_mini(), &q);
    assert!(matches!(r, SliceAnswer::Accepted));
}

/// A desk whose claim is that of a real slot.
struct Claiming<'a>(&'a mut SliceManager, Option<SliceSlot>, Desk);

impl SlicePort for Claiming<'_> {
    fn is_safe_profile_name(&mut self, name: &str) -> bool {
        self.2.is_safe_profile_name(name)
    }
    fn info(&mut self) -> Result<SlicerInfo, String> {
        self.2.info()
    }
    fn reported_nozzle(&mut self) -> Option<String> {
        self.2.reported_nozzle()
    }
    fn machine_profile(&mut self, nozzle: &str) -> String {
        self.2.machine_profile(nozzle)
    }
    fn process_suffix(&mut self, nozzle: &str) -> Result<String, String> {
        self.2.process_suffix(nozzle)
    }
    fn layer_fits_nozzle(&mut self, layer: &str, nozzle: &str) -> Result<(), String> {
        self.2.layer_fits_nozzle(layer, nozzle)
    }
    fn reserve(&mut self) -> bool {
        self.1 = self.0.reserve();
        self.1.is_some()
    }
    fn release(&mut self) {
        self.0.release(self.1.take().unwrap());
    }
    fn commit(&mut self) {
        self.0.commit(self.1.take().unwrap());
    }
    fn stage(&mut self, suffix: &str) -> Result<(String, u64), Reply> {
        self.2.stage(suffix)
    }
    fn is_authored_project(&mut self, path: &str) -> Result<bool, String> {
        self.2.is_authored_project(path)
    }
    fn make_workdir(&mut self) -> Result<String, String> {
        self.2.make_workdir()
    }
    fn output_name(&mut self, name: &str) -> String {
        self.2.output_name(name)
    }
    fn start(&mut self, p: SliceParams) -> Result<(), String> {
        self.0.start(&p).map(|_| ())
    }
}

fn post(mgr: &mut SliceManager, q: &SliceQuery) -> u16 {
    match slice_start(&mut SliceTap::new(Claiming(mgr, None, desk())), &a1_mini(), q) {
        SliceAnswer::Accepted => 202,
        SliceAnswer::Refused(r) => r.status,
    }
}

#[test]
fn the_slot_is_claimed_before_the_upload_not_after_it() {
    let mut mgr = SliceManager::new();
    let held = mgr.reserve().expect("the slot starts free");
    assert_eq!(mgr.status().state.as_str(), "running");
    assert_eq!(post(&mut mgr, &query()), 409);
    mgr.release(held);
    assert_eq!(mgr.status().state.as_str(), "idle");
    assert_eq!(post(&mut mgr, &query()), 202);
}

#[test]
fn a_rejected_upload_does_not_wedge_the_slot() {
    let mut mgr = SliceManager::new();
    let mut q = query();
    q.name = Some("notes.txt".to_string());
    assert_eq!(post(&mut mgr, &q), 400);
    assert_eq!(post(&mut mgr, &query()), 202);
}

#[test]
fn a_second_slice_while_one_runs_is_refused() {
    let mut mgr = SliceManager::new();
    assert_eq!(post(&mut mgr, &query()), 202);
    assert_eq!(post(&mut mgr, &query()), 409);
}

#[test]
fn a_nozzle_without_verified_profiles_is_refused_rather_than_sliced_at_0_4() {
    for n in ["0.2", "0.6", "0.8"] {
        let mut q = query();
        q.nozzle = Some(n.to_string());
        let mut d = desk();
        d.suffix = Err(format!("no verified slicing profiles for a {n} nozzle"));
        let (status, error, _) = refused(d, &a1_mini(), &q);
        assert_eq!(status, 400);
        assert!(error.contains("no verified slicing profiles"), "{error}");
        assert!(error.contains(n), "names the nozzle: {error}");
    }
}

#[test]
fn a_format_the_slicer_cannot_read_is_refused_up_front() {
    for bad in ["part.step", "part.stp"] {
        let mut q = query();
        q.name = Some(bad.to_string());
        let (status, error, _) = refused(desk(), &a1_mini(), &q);
        assert_eq!(status, 400);
        assert!(error.contains("STEP is not supported"), "{error}");
    }
}

#[test]
fn the_staged_model_keeps_the_extension_the_slicer_dispatches_on() {
    for (name, want) in [
        ("cube.STL", "stage .stl"),
        ("cube.obj", "stage .obj"),
        ("part.v2.amf", "stage .amf"),
        ("part.3mf", "stage .3mf"),
    ] {
        let mut q = query();
        q.name = Some(name.to_string());
        let mut tap = SliceTap::new(desk());
        assert!(matches!(
            slice_start(&mut tap, &a1_mini(), &q),
            SliceAnswer::Accepted
        ));
        assert!(tap.into_port().did.contains(&want.to_string()), "{name}");
    }
}

#[test]
fn a_slicer_that_is_asked_for_by_another_spelling_keeps_its_profiles() {
    let h = Host {
        orca: Some("/usr/bin/orca-slicer".to_string()),
        xvfb: false,
        executables: vec![
            "/usr/bin/orca-slicer".to_string(),
            "/usr//bin/./orca-slicer".to_string(),
            "/usr/bin/other".to_string(),
        ],
        directories: ["", "/machine", "/process", "/filament"]
            .iter()
            .map(|d| format!("/opt/orca-slicer/resources/profiles/BBL{d}"))
            .collect(),
    };
    let find = |bin: &str| LiveSlicer::discover(&h, Some(bin.to_string()), None, 1000);
    let s = find("/usr//bin/./orca-slicer").unwrap();
    assert_eq!(s.profiles, "/opt/orca-slicer/resources/profiles/BBL");
    assert!(find("/usr/bin/other").is_err());
}
