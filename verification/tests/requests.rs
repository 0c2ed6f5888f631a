use bambu_serve::auth::{constant_time_eq, printer_routes, require_password, Method};
use bambu_serve::camera::{
    cameras_config_set, cameras_list, external_index, is_http_url, resolve_grab, shown_tuning,
    CameraInput, ExternalCamera, Grab, Tuning,
};
use bambu_serve::control::{
    verified_result, ControlAction, Controller, Dispatch, FakeController,
};
use bambu_serve::files::{
    file_gcode, file_inspect, file_mesh, file_raw, viewable, Cache, FileEntry, InspectRequest,
    LiveFiles, RAW_MAX,
};
use bambu_serve::hook::{
    parse, run_hook, HookError, HookPort, HookTap, PrePrint, SequenceRun, Settle, Step,
};
use bambu_serve::job::{
    job_start, Plan, StartAnswer, StartBody, StartPort, StartTap,
};
use bambu_serve::machine::{
    ams, ams_change, calibrate, extrude, gcode, home, light, move_axis, reboot, speed, steppers,
    temp, temp_check_line, AmsChange, AmsChangeAnswer, GcodeVerdict,
};
use bambu_serve::number::{decimal, padded_decimal, parse_up_to, signed_decimal};
use bambu_serve::paths::{
    is_safe_remote_path, is_safe_upload_dir, remote_in, run_out_dir, sanitize_hint,
};
use bambu_serve::reply::{
    verify_response, Answer, CommandOutcome, ControlError, Machine, Reply, Task,
};
use bambu_serve::slice::{slice_print, SlicePrintBody};
use bambu_serve::slice_slot::{SliceEnd, SliceManager, SliceMeta, SliceParams};
use bambu_serve::start::{PlateInspection, StartRequest};
use bambu_serve::upload::{
    job_upload_start, stream_body_to, upload_file, BodyEvent, BodyStep, UploadStartQuery,
    MAX_UPLOAD_BYTES,
};

// ── The password ──

#[test]
fn control_asks_for_the_password_where_there_is_one() {
    let pw = Some("hunter2".to_string());
    assert!(require_password(&None, &None).is_none());
    assert_eq!(require_password(&pw, &None).unwrap().status, 401);
    let with = |h: &str| require_password(&pw, &Some(h.to_string()));
    assert!(with("Bearer hunter2").is_none());
    assert!(with("bearer  hunter2 ").is_none());
    assert!(with("Bearer hunter3").is_some());
    assert!(with("Basic hunter2").is_some());
    assert!(with("hunter2").is_some());
    assert!(constant_time_eq(b"abc", b"abc"));
    assert!(!constant_time_eq(b"abc", b"abd"));
    assert!(!constant_time_eq(b"abc", b"ab"));
}

#[test]
fn every_write_and_two_reads_are_behind_the_password() {
    let routes = printer_routes();
    assert!(routes.iter().all(|r| r.method != Method::Post || r.gated));
    let reads: Vec<&str> = routes
        .iter()
        .filter(|r| r.method == Method::Get && r.gated)
        .map(|r| r.path)
        .collect();
    assert_eq!(reads, vec!["/camera/config", "/slice/result"]);
}

// ── The machine ──

fn idle() -> Machine {
    Machine {
        gcode_state: Some("IDLE".to_string()),
        hook_running: false,
    }
}

fn busy() -> Machine {
    Machine {
        gcode_state: Some("RUNNING".to_string()),
        hook_running: false,
    }
}

fn hooked() -> Machine {
    Machine {
        gcode_state: Some("IDLE".to_string()),
        hook_running: true,
    }
}

fn status<T>(r: Result<T, Reply>) -> u16 {
    match r {
        Ok(_) => 200,
        Err(r) => r.status,
    }
}

#[test]
fn nothing_moves_while_the_machine_is_busy_or_prepares() {
    let jog = |m: &Machine| move_axis("x", "10".to_string(), 3000, GcodeVerdict::Allow, m);
    assert_eq!(status(jog(&idle())), 200);
    assert_eq!(status(jog(&busy())), 409);
    assert_eq!(status(jog(&hooked())), 409);
    assert_eq!(status(home("all", &busy())), 409);
    assert_eq!(status(extrude("5".to_string(), 300, GcodeVerdict::Allow, &busy())), 409);
    assert_eq!(status(calibrate(true, false, false, true, &busy())), 409);
    assert_eq!(status(steppers(true, &hooked())), 409);
    assert_eq!(status(reboot(true, &hooked())), 200);
    // Validation comes first.
    assert_eq!(
        move_axis("w", "10".to_string(), 3000, GcodeVerdict::Allow, &busy())
            .unwrap_err()
            .status,
        400
    );
}

#[test]
fn heat_needs_confirmation_and_cooling_does_not() {
    let set = |c: u32, confirm: bool, force: bool, v: GcodeVerdict| {
        status(temp("nozzle", c, confirm, force, v))
    };
    assert_eq!(set(200, false, false, GcodeVerdict::Allow), 428);
    assert_eq!(set(200, true, false, GcodeVerdict::Allow), 200);
    assert_eq!(set(0, false, false, GcodeVerdict::Allow), 200);
    let hot = || GcodeVerdict::Block("too hot".to_string());
    assert_eq!(set(400, true, false, hot()), 400);
    assert_eq!(set(400, true, true, hot()), 200);
    assert_eq!(temp_check_line("bed", 60).as_deref(), Some("M140 S60"));
    assert_eq!(temp_check_line("oven", 60), None);
    assert_eq!(status(gcode("  ".to_string(), true, false, GcodeVerdict::Allow, &idle())), 400);
    assert_eq!(status(gcode("G28".to_string(), false, false, GcodeVerdict::Allow, &idle())), 428);
    assert_eq!(status(light("chamber", true)), 200);
    assert_eq!(status(light("sun", true)), 400);
    assert_eq!(status(speed("warp")), 400);
    assert_eq!(status(ams("pause", false, &idle())), 428);
    assert_eq!(status(ams("resume", false, &busy())), 200);
    assert_eq!(status(ams("reset", true, &busy())), 409);
    assert_eq!(status(ams("spin", true, &idle())), 400);
}

#[test]
fn a_filament_change_stays_within_the_nozzle() {
    let change = |target: u32, tar_temp: i64, dry_run: bool| AmsChange {
        target,
        tar_temp,
        curr_temp: None,
        confirm: true,
        dry_run,
    };
    assert!(matches!(
        ams_change(&change(1, 220, true), 300, &busy()),
        AmsChangeAnswer::Plan {
            target: 1,
            curr_temp: 220,
            tar_temp: 220
        }
    ));
    assert!(matches!(
        ams_change(&change(1, 220, false), 300, &idle()),
        AmsChangeAnswer::Run(_)
    ));
    match ams_change(&change(9, 220, true), 300, &idle()) {
        AmsChangeAnswer::Refused(r) => assert!(r.error.starts_with("target 9 invalid")),
        other => panic!("{other:?}"),
    }
    match ams_change(&change(1, 301, true), 300, &idle()) {
        AmsChangeAnswer::Refused(r) => {
            assert_eq!(r.error, "tar_temp 301°C is out of range (0..=300)")
        }
        other => panic!("{other:?}"),
    }
}

#[test]
fn what_a_command_came_to_is_told() {
    assert!(matches!(
        verify_response(Task::Done(Ok(CommandOutcome::Verified))),
        Answer::Outcome { .. }
    ));
    let gone: Task<Result<CommandOutcome, ControlError>> =
        Task::Done(Err(ControlError::Transport("off".to_string())));
    assert!(matches!(verify_response(gone), Answer::Refused(r) if r.status == 502));
    assert!(matches!(
        verify_response(Task::Lost),
        Answer::Refused(r) if r.status == 500
    ));
    assert!(matches!(
        ControlAction::Gcode("G28".to_string()).dispatch(),
        Dispatch::Verify(_)
    ));
    assert!(verified_result(Err("x".to_string())).is_err());
    let c = FakeController::verified();
    assert!(matches!(
        c.execute(ControlAction::Pause),
        Ok(CommandOutcome::Verified)
    ));
    assert!(FakeController::failing().execute(ControlAction::Pause).is_err());
}

#[test]
fn a_sequence_succeeds_only_when_it_settled() {
    let steps = parse("G28 ; home\n; only a comment\nM104 S200\n");
    assert_eq!(steps.len(), 2);
    assert_eq!((steps[1].line_no, steps[1].gcode.as_str()), (3, "M104 S200"));
    let ok = || vec![CommandOutcome::Verified, CommandOutcome::Verified];
    let run = |outcomes: Vec<CommandOutcome>, settled: Option<Settle>| {
        let mut tap = HookTap::new(Machinery {
            text: Ok("G28 ; home\n; only a comment\nM104 S200\n".to_string()),
            refused: vec![],
            run: Some(Ok(SequenceRun { outcomes, settled })),
            sent: vec![],
        });
        let spec = PrePrint {
            name: "swap".to_string(),
            path: "/etc/swap.gcode".to_string(),
            settle_ms: 90_000,
        };
        let r = run_hook(&mut tap, &spec);
        (r, tap.into_port().sent)
    };
    let (r, sent) = run(ok(), Some(Settle::Settled));
    assert!(r.is_ok());
    assert_eq!(sent, vec!["G28", "M104 S200", "90000"]);
    let err = run(ok(), None).0.unwrap_err();
    assert!(matches!(&err, HookError::Printer(m) if m.ends_with("was not waited for")));
    let err = run(ok(), Some(Settle::NotSettled(None))).0.unwrap_err();
    assert!(matches!(&err, HookError::Printer(m) if m.ends_with("ran, but it did not finish")));
    let stopped = vec![
        CommandOutcome::Verified,
        CommandOutcome::Rejected {
            reason: "hot".to_string(),
        },
    ];
    let err = run(stopped, Some(Settle::Settled)).0.unwrap_err();
    assert_eq!(
        err.message(),
        "pre-print sequence \"swap\" stopped at step 2 of 2, line 3: the printer refused it (hot)"
    );
    let mut more = ok();
    more.push(CommandOutcome::Verified);
    assert!(run(more, Some(Settle::Settled)).0.is_ok());
    let mut more = ok();
    more.push(CommandOutcome::Rejected {
        reason: "late".to_string(),
    });
    let err = run(more, Some(Settle::Settled)).0.unwrap_err();
    assert!(matches!(&err, HookError::Printer(m) if m
        == "pre-print sequence \"swap\" stopped at an answer after the last step: the printer refused it (late)"));
}

#[test]
fn a_name_is_quoted_as_it_is_unless_it_needs_an_escape() {
    let told = |name: &str| {
        let mut tap = HookTap::new(Machinery {
            text: Ok("G28\n".to_string()),
            refused: vec![],
            run: Some(Ok(SequenceRun {
                outcomes: vec![CommandOutcome::Verified],
                settled: None,
            })),
            sent: vec![],
        });
        let spec = PrePrint {
            name: name.to_string(),
            path: "/etc/swap.gcode".to_string(),
            settle_ms: 1,
        };
        run_hook(&mut tap, &spec).unwrap_err().message()
    };
    let plain: String = (' '..='~').filter(|c| *c != '"' && *c != '\\').collect();
    assert_eq!(
        told(&plain),
        format!("pre-print sequence \"{plain}\" was not waited for")
    );
    assert_eq!(
        told("a\"b\\c\nd"),
        "pre-print sequence \"a\\\"b\\\\c\\nd\" was not waited for"
    );
}

/// A machine that a sequence is run on.
struct Machinery {
    text: Result<String, String>,
    refused: Vec<&'static str>,
    run: Option<Result<SequenceRun, String>>,
    sent: Vec<String>,
}

impl HookPort for Machinery {
    fn read(&mut self, path: &str) -> Result<String, String> {
        assert_eq!(path, "/etc/swap.gcode");
        self.text.clone()
    }
    fn check(&mut self, gcode: &str) -> Option<String> {
        self.refused
            .contains(&gcode)
            .then_some("too hot".to_string())
    }
    fn send_sequence(
        &mut self,
        lines: &Vec<String>,
        settle_ms: u64,
    ) -> Result<SequenceRun, String> {
        self.sent.extend(lines.iter().cloned());
        self.sent.push(settle_ms.to_string());
        self.run.take().unwrap()
    }
    fn step_context(&mut self, i: usize, total: usize, step: &Step) -> String {
        format!("step {} of {total}, line {}", i + 1, step.line_no)
    }
}

#[test]
fn nothing_is_sent_of_a_sequence_that_is_not_fit() {
    let spec = PrePrint {
        name: "swap".to_string(),
        path: "/etc/swap.gcode".to_string(),
        settle_ms: 90_000,
    };
    let machine = |text: Result<&str, &str>, refused: Vec<&'static str>| Machinery {
        text: text.map(str::to_string).map_err(str::to_string),
        refused,
        run: Some(Err("unreachable".to_string())),
        sent: vec![],
    };
    let mut tap = HookTap::new(machine(Err("gone"), vec![]));
    assert!(matches!(
        run_hook(&mut tap, &spec),
        Err(HookError::Config(m)) if m == "reading /etc/swap.gcode: gone"
    ));
    let mut tap = HookTap::new(machine(Ok("M104 S400\nG28\n"), vec!["M104 S400"]));
    assert!(matches!(
        run_hook(&mut tap, &spec),
        Err(HookError::Config(m))
            if m == "/etc/swap.gcode contains unsafe G-code: line 1: M104 S400 (too hot)"
    ));
    assert!(spec.vet_now(&mut tap).is_err());
    assert!(tap.into_port().sent.is_empty());
    let mut tap = HookTap::new(machine(Ok("G28\n"), vec![]));
    assert!(spec.vet_now(&mut tap).is_ok());
    assert!(matches!(
        run_hook(&mut tap, &spec),
        Err(HookError::Transport(m)) if m == "unreachable"
    ));
}

// ── Starting a print ──

struct Desk {
    free: bool,
    state: &'static str,
    hook: Option<String>,
    hook_fails: Option<HookError>,
    plate_filaments: Vec<u32>,
    uninspectable: bool,
    map_verdict: Option<&'static str>,
    listed: Vec<&'static str>,
    upload_ok: bool,
    did: Vec<String>,
}

fn desk() -> Desk {
    Desk {
        free: true,
        state: "IDLE",
        hook: None,
        hook_fails: None,
        plate_filaments: vec![0],
        uninspectable: false,
        map_verdict: None,
        listed: vec![],
        upload_ok: true,
        did: vec![],
    }
}

fn plate() -> PlateInspection {
    PlateInspection {
        plate: 1,
        gcode_md5: "d41d".to_string(),
        bed_type: None,
        filament_colors: vec![],
        filament_ids: vec![0],
        has_timelapse_blocks: true,
    }
}

impl StartPort for Desk {
    fn inspect(&mut self, _f: &str, _p: u32) -> Result<Result<PlateInspection, String>, String> {
        if self.uninspectable {
            return Ok(Err("not a zip".to_string()));
        }
        let mut found = plate();
        found.filament_ids = self.plate_filaments.clone();
        Ok(Ok(found))
    }
    fn inspect_staged(
        &mut self,
        local: &str,
        _plate: u32,
    ) -> Task<Result<PlateInspection, String>> {
        self.did.push(format!("inspect {local}"));
        Task::Done(Ok(plate()))
    }
    fn ams_map_fits(&mut self, map: &Vec<i32>, filament_ids: &Vec<u32>) -> Result<(), String> {
        match self.map_verdict.take() {
            Some(why) => Err(format!("{why} ({} for {})", map.len(), filament_ids.len())),
            None => Ok(()),
        }
    }
    fn try_lock(&mut self) -> bool {
        self.did.push("lock".to_string());
        self.free
    }
    fn gcode_state(&mut self) -> Option<String> {
        Some(self.state.to_string())
    }
    fn hook_name(&mut self) -> Option<String> {
        self.hook.clone()
    }
    fn set_hook_running(&mut self, running: bool) {
        self.did.push(format!("hook running {running}"));
    }
    fn run_hook(&mut self) -> Task<Result<(), HookError>> {
        self.did.push("hook".to_string());
        match self.hook_fails.take() {
            None => Task::Done(Ok(())),
            Some(e) => Task::Done(Err(e)),
        }
    }
    fn list(&mut self, _dir: &str) -> Option<Vec<FileEntry>> {
        Some(
            self.listed
                .iter()
                .map(|n| FileEntry {
                    name: n.to_string(),
                    is_dir: false,
                    size: 1,
                })
                .collect(),
        )
    }
    fn stage(&mut self, limited: bool) -> Result<String, Reply> {
        self.did.push(if limited { "stage up to the limit" } else { "stage" }.to_string());
        Ok("/tmp/staged".to_string())
    }
    fn upload(&mut self, local: &str, remote: &str) -> Task<Result<(), String>> {
        self.did.push(format!("upload {local} to {remote}"));
        if self.upload_ok {
            Task::Done(Ok(()))
        } else {
            Task::Done(Err("ftp down".to_string()))
        }
    }
    fn start(&mut self, req: &StartRequest) -> Task<Result<CommandOutcome, ControlError>> {
        self.did.push(format!("start {}", req.file));
        Task::Done(Ok(CommandOutcome::Verified))
    }
}

fn start_body(confirm: bool, dry_run: bool) -> StartBody {
    StartBody {
        file: "/cache/x.gcode.3mf".to_string(),
        plate: 1,
        confirm,
        use_ams: false,
        ams_map: vec![],
        bed_type: None,
        timelapse: false,
        dry_run,
    }
}

fn answer(r: StartAnswer) -> u16 {
    match r {
        StartAnswer::Plan(_) => 1,
        StartAnswer::Answer(Answer::Outcome { .. }) => 200,
        StartAnswer::Answer(Answer::Refused(r)) => r.status,
    }
}

#[test]
fn a_print_starts_behind_its_guards() {
    let mut d = desk();
    d.hook = Some("swap".to_string());
    let mut tap = StartTap::new(d);
    assert_eq!(answer(job_start(&mut tap, &start_body(true, false))), 200);
    assert_eq!(
        tap.into_port().did,
        vec![
            "lock",
            "hook running true",
            "hook",
            "hook running false",
            "start /cache/x.gcode.3mf"
        ]
    );
    let mut d = desk();
    d.hook = Some("swap".to_string());
    d.hook_fails = Some(HookError::Printer("stuck".to_string()));
    let mut tap = StartTap::new(d);
    assert_eq!(answer(job_start(&mut tap, &start_body(true, false))), 409);
    assert!(!tap.into_port().did.iter().any(|s| s.starts_with("start")));
    let mut d = desk();
    d.state = "RUNNING";
    assert_eq!(answer(job_start(&mut StartTap::new(d), &start_body(true, false))), 409);
    let mut d = desk();
    d.free = false;
    assert_eq!(answer(job_start(&mut StartTap::new(d), &start_body(true, false))), 409);
    let mut tap = StartTap::new(desk());
    assert_eq!(answer(job_start(&mut tap, &start_body(false, false))), 428);
    assert_eq!(answer(job_start(&mut tap, &start_body(true, true))), 1);
    assert!(tap.into_port().did.is_empty());
    let mut b = start_body(true, false);
    b.file = "/cache/../x.3mf".to_string();
    assert_eq!(answer(job_start(&mut StartTap::new(desk()), &b)), 400);
    let mut b = start_body(true, false);
    b.use_ams = true;
    b.ams_map = vec![9];
    assert_eq!(answer(job_start(&mut StartTap::new(desk()), &b)), 400);
    b.ams_map = vec![1, 2];
    match job_start(&mut StartTap::new(desk()), &b) {
        StartAnswer::Answer(Answer::Refused(r)) => assert_eq!(
            (r.status, r.error.as_str()),
            (
                400,
                "ams_map needs one tray for each of the 1 filaments (/cache/x.gcode.3mf plate 1)"
            )
        ),
        other => panic!("{other:?}"),
    }
    b.ams_map = vec![1];
    assert_eq!(answer(job_start(&mut StartTap::new(desk()), &b)), 200);
}

fn upload_query(confirm: bool, overwrite: bool) -> UploadStartQuery {
    UploadStartQuery {
        name: "cube.gcode.3mf".to_string(),
        dir: None,
        plate: 1,
        timelapse: false,
        bed_type: None,
        confirm,
        dry_run: false,
        overwrite,
    }
}

#[test]
fn an_upload_is_printed_once_and_replaces_nothing_unasked() {
    let mut tap = StartTap::new(desk());
    assert_eq!(answer(job_upload_start(&mut tap, &upload_query(true, false))), 200);
    assert_eq!(
        tap.into_port().did,
        vec![
            "stage up to the limit",
            "inspect /tmp/staged",
            "lock",
            "upload /tmp/staged to /cube.gcode.3mf",
            "start /cube.gcode.3mf"
        ]
    );
    let mut d = desk();
    d.listed = vec!["cube.gcode.3mf"];
    let mut tap = StartTap::new(d);
    assert_eq!(answer(job_upload_start(&mut tap, &upload_query(true, false))), 409);
    assert!(!tap.into_port().did.iter().any(|s| s.starts_with("upload")));
    let mut d = desk();
    d.listed = vec!["cube.gcode.3mf"];
    assert_eq!(
        answer(job_upload_start(&mut StartTap::new(d), &upload_query(true, true))),
        200
    );
    let mut tap = StartTap::new(desk());
    assert_eq!(answer(job_upload_start(&mut tap, &upload_query(false, false))), 428);
    assert!(tap.into_port().did.is_empty(), "the body was not read");
    let mut d = desk();
    d.upload_ok = false;
    assert_eq!(
        answer(job_upload_start(&mut StartTap::new(d), &upload_query(true, false))),
        502
    );
    let mut tap = StartTap::new(desk());
    assert_eq!(upload_file(&mut tap, "a.3mf", &None).unwrap(), "a.3mf");
    assert!(upload_file(&mut tap, "../a", &None).is_err());
    assert!(upload_file(&mut tap, "a", &Some("/..".to_string())).is_err());
    assert_eq!(
        tap.into_port().did,
        vec!["stage", "upload /tmp/staged to /a.3mf"],
        "a plain upload is held to no limit"
    );
}

#[test]
fn a_body_is_taken_in_up_to_its_limit() {
    assert!(matches!(stream_body_to(true, 0, &BodyEvent::Chunk(10)), BodyStep::Write(10)));
    assert!(matches!(
        stream_body_to(true, MAX_UPLOAD_BYTES, &BodyEvent::Chunk(1)),
        BodyStep::Refuse(r) if r.status == 413
    ));
    assert!(matches!(
        stream_body_to(false, MAX_UPLOAD_BYTES, &BodyEvent::Chunk(1)),
        BodyStep::Write(n) if n == MAX_UPLOAD_BYTES + 1
    ));
    assert!(matches!(
        stream_body_to(false, u64::MAX, &BodyEvent::Chunk(1)),
        BodyStep::Write(u64::MAX)
    ));
    assert!(matches!(
        stream_body_to(true, 5, &BodyEvent::Ended { flushed: true }),
        BodyStep::Complete(5)
    ));
    assert!(matches!(
        stream_body_to(true, 5, &BodyEvent::Broken),
        BodyStep::Refuse(r) if r.status == 400
    ));
}

fn finished() -> SliceManager {
    let mut mgr = SliceManager::new();
    slice_once(&mut mgr);
    mgr
}

fn slice_once(mgr: &mut SliceManager) {
    let p = SliceParams {
        input: "/tmp/model.stl".to_string(),
        input_name: "cube.stl".to_string(),
        out_dir: "/work".to_string(),
        out_name: "cube.gcode.3mf".to_string(),
        machine_profile: "m".to_string(),
        preset_suffix: "s".to_string(),
        layer_mm: "0.2".to_string(),
        filament: "f".to_string(),
        bed_type: "b".to_string(),
        brim_mm: None,
    };
    mgr.start(&p).unwrap();
    mgr.finish(SliceEnd::Verified(
        SliceMeta {
            layers: None,
            bed_temp_c: None,
        },
        1,
    ));
}

#[test]
fn a_slice_is_printed_only_as_it_was_planned() {
    let mgr = finished();
    let id = mgr.status().id;
    let print = |b: SlicePrintBody| {
        let mut tap = StartTap::new(desk());
        let r = slice_print(&mut tap, &mgr.status(), mgr.result(), b);
        (r, tap.into_port().did)
    };
    let mut b = SlicePrintBody::default();
    b.dry_run = true;
    match print(b).0 {
        StartAnswer::Plan(p) => {
            assert_eq!(p.file, "/cube.gcode.3mf");
            assert_eq!(p.expect, id);
            assert_eq!(p.md5.as_deref(), Some("d41d"));
            assert_eq!(p.bed_type, "auto");
        }
        other => panic!("{other:?}"),
    }
    let mut b = SlicePrintBody::default();
    b.confirm = true;
    let (r, did) = print(b);
    assert_eq!(answer(r), 400);
    assert_eq!(did, vec!["inspect /work/cube.gcode.3mf"]);
    let mut b = SlicePrintBody::default();
    b.confirm = true;
    b.expect = id.map(|v| v + 1);
    assert_eq!(answer(print(b).0), 409);
    let mut b = SlicePrintBody::default();
    b.confirm = true;
    b.expect = id;
    let (r, did) = print(b);
    assert_eq!(answer(r), 200);
    assert_eq!(
        did,
        vec![
            "inspect /work/cube.gcode.3mf",
            "lock",
            "upload /work/cube.gcode.3mf to /cube.gcode.3mf",
            "start /cube.gcode.3mf"
        ]
    );
    let mut b = SlicePrintBody::default();
    b.use_ams = true;
    b.ams_map = vec![0, 1];
    assert_eq!(answer(print(b).0), 400);
    let empty = SliceManager::new();
    let r = slice_print(
        &mut StartTap::new(desk()),
        &empty.status(),
        empty.result(),
        SlicePrintBody::default(),
    );
    assert_eq!(answer(r), 404);
}

// ── Files and cameras ──

#[test]
fn files_are_read_at_safe_paths_alone() {
    assert_eq!(file_gcode("cache/x.gcode.3mf", 1).unwrap(), "/cache/x.gcode.3mf");
    assert_eq!(file_gcode("cache/x.gcode.3mf", 65).unwrap_err().status, 400);
    assert!(file_mesh("../x.3mf").is_err());
    assert!(file_raw("../x.png").is_err());
    assert!(matches!(
        file_inspect("x.gcode", 1),
        InspectRequest::NotInspected(_)
    ));
    assert!(matches!(file_inspect("x.3mf", 0), InspectRequest::Refused(_)));
    assert!(viewable(RAW_MAX).is_ok());
    assert!(viewable(RAW_MAX + 1).is_err());
    assert!(is_safe_remote_path("/cache/x") && !is_safe_remote_path("/a/../b"));
    assert!(is_safe_upload_dir("/") && !is_safe_upload_dir("cache"));
    assert_eq!(remote_in("/cache/", "x"), "/cache/x");
    assert_eq!(sanitize_hint("My print!"), "My_print");
    assert_eq!(
        run_out_dir("a1", 17, &Some("cube.3mf".to_string()), "park"),
        "captures/a1/17_cube_3mf_park"
    );
}

#[test]
fn what_was_found_is_kept_within_bounds() {
    let mut c: Cache<u8> = Cache::new(2);
    c.insert("a".to_string(), 1);
    c.insert("b".to_string(), 2);
    assert_eq!(c.get("a"), Some(&1));
    c.insert("c".to_string(), 3);
    assert_eq!(c.get("c"), Some(&3));
    assert_eq!(c.get("a"), None, "a full store starts over");
    let mut f = LiveFiles::new();
    assert!(f.gcode("/x", 1).is_none());
    f.keep_gcode("/x", 1, &Some(vec![1]));
    assert_eq!(f.gcode("/x", 1), Some(Some(vec![1])));
    assert!(f.gcode("/x", 11).is_none());
    f.keep_thumbnail("/x", 1, Some(vec![2]));
    f.keep_thumbnail("/x", 2, None);
    assert_eq!(f.thumbnail("/x", 1), Some(Some(vec![2])), "one more forgets none");
    assert_eq!(f.thumbnail("/x", 2), Some(None));
    f.keep_list("/", 100, vec![]);
    assert!(f.list("/", 100).is_some());
    f.uploaded();
    assert!(f.list("/", 100).is_none(), "an upload makes a listing stale");
}

#[test]
fn a_tuning_is_shown_as_it_was_given() {
    let knobs = |all: &[(&str, u8)]| {
        Some(all.iter().map(|(k, v)| (k.to_string(), *v)).collect::<Vec<_>>())
    };
    let park = || knobs(&[("fps", 1), ("left_frac", 2)]);
    let select = || knobs(&[("left_frac", 7), ("window", 8)]);
    assert_eq!(
        shown_tuning(park(), select()),
        knobs(&[("fps", 1), ("left_frac", 2), ("window", 8)])
    );
    assert_eq!(shown_tuning(park(), None), park());
    assert_eq!(shown_tuning(None, select()), None);
    assert_eq!(shown_tuning::<u8>(None, None), None);
}

#[test]
fn cameras_are_configured_whole_or_not_at_all() {
    let input = |url: &str, tuning: Tuning<u8, u8>| CameraInput {
        label: None,
        url: url.to_string(),
        stream_url: None,
        tuning,
    };
    let cams = cameras_config_set(vec![
        input(" http://a ", Tuning::Absent),
        input("http://b", Tuning::Read { park: 1, select: None }),
    ])
    .unwrap();
    assert_eq!(cams[0].url, "http://a");
    assert_eq!(cams[1].label, "external 2");
    assert_eq!(cams[1].park_tuning, Some(1));
    assert!(cameras_config_set(vec![input("ftp://a", Tuning::Absent)]).is_err());
    let why = Tuning::Invalid("missing fps".to_string());
    let err = cameras_config_set(vec![input("http://a", why)]).unwrap_err();
    assert_eq!(err.error, "invalid park_tuning: missing fps");
    assert!(is_http_url("http://x") && !is_http_url("https://x"));
    let list = cameras_list(true, &cams);
    assert_eq!(list.len(), 3);
    assert_eq!(list[2].id, "ext-1");
    assert!(matches!(resolve_grab("ext-0", false, &cams), Some(Grab::Url(u)) if u == "http://a"));
    assert!(resolve_grab("internal", false, &cams).is_none());
    assert_eq!(external_index("ext-12"), Some(12));
    assert_eq!(external_index("ext-x"), None);
    let named: ExternalCamera<u8, u8> = ExternalCamera::parse("bed=http://x/s?a=b", 0).unwrap();
    assert_eq!((named.label.as_str(), named.url.as_str()), ("bed", "http://x/s?a=b"));
    let bare: ExternalCamera<u8, u8> = ExternalCamera::parse("http://x/s?a=b", 4).unwrap();
    assert_eq!(bare.label, "external 5");
}

#[test]
fn numbers_are_written_and_read_back() {
    for n in [0u64, 7, 10, 99, 12345, u64::MAX] {
        assert_eq!(decimal(n), n.to_string());
        assert_eq!(parse_up_to(&decimal(n), u64::MAX), Some(n));
    }
    assert_eq!(signed_decimal(-42), "-42");
    assert_eq!(signed_decimal(i64::MIN), i64::MIN.to_string());
    assert_eq!(padded_decimal(7, 6), "000007");
    assert_eq!(parse_up_to("256", 255), None);
    assert_eq!(parse_up_to("", 255), None);
    assert_eq!(parse_up_to("+5", 255), Some(5));
}

// ── Starts, one promise at a time ──

fn with_hook(fails: Option<HookError>) -> StartTap<Desk> {
    let mut d = desk();
    d.hook = Some("swap".to_string());
    d.hook_fails = fails;
    StartTap::new(d)
}

fn hooks_run(tap: StartTap<Desk>) -> usize {
    tap.into_port().did.iter().filter(|s| *s == "hook").count()
}

fn raw_upload(confirm: bool, dry_run: bool) -> UploadStartQuery {
    UploadStartQuery {
        name: "x.gcode".to_string(),
        dir: None,
        plate: 1,
        timelapse: false,
        bed_type: None,
        confirm,
        dry_run,
        overwrite: false,
    }
}

/// The status and the error of a refusal.
fn refusal(r: StartAnswer) -> (u16, String) {
    match r {
        StartAnswer::Answer(Answer::Refused(r)) => (r.status, r.error),
        other => panic!("{other:?}"),
    }
}

fn planned(r: StartAnswer) -> Plan {
    match r {
        StartAnswer::Plan(p) => p,
        other => panic!("{other:?}"),
    }
}

fn start_of(file: &str, confirm: bool, dry_run: bool) -> StartBody {
    let mut b = start_body(confirm, dry_run);
    b.file = file.to_string();
    b
}

#[test]
fn a_confirmed_start_runs_the_hook_first() {
    let mut tap = with_hook(None);
    assert_eq!(answer(job_start(&mut tap, &start_body(true, false))), 200);
    assert_eq!(hooks_run(tap), 1);
}

#[test]
fn a_hook_that_fails_stops_the_print() {
    let mut tap = with_hook(Some(HookError::Printer("the motion never finished".to_string())));
    let (status, error) = refusal(job_start(&mut tap, &start_body(true, false)));
    assert_eq!(status, 409);
    assert!(error.contains("print not started"), "{error}");
    assert_eq!(hooks_run(tap), 1);
}

#[test]
fn a_dry_run_discloses_the_hook_and_runs_nothing() {
    let mut tap = with_hook(None);
    let p = planned(job_start(&mut tap, &start_body(false, true)));
    assert_eq!(p.pre_print.as_deref(), Some("swap"));
    assert_eq!(hooks_run(tap), 0);
}

#[test]
fn a_printer_without_a_hook_starts_exactly_as_before() {
    let mut tap = StartTap::new(desk());
    let p = planned(job_start(&mut tap, &start_body(false, true)));
    assert_eq!(p.pre_print, None);
    assert_eq!(answer(job_start(&mut tap, &start_body(true, false))), 200);
    assert_eq!(hooks_run(tap), 0);
}

#[test]
fn the_upload_path_runs_the_hook_too() {
    let mut tap = with_hook(None);
    assert_eq!(answer(job_upload_start(&mut tap, &raw_upload(true, false))), 200);
    assert_eq!(hooks_run(tap), 1);
}

#[test]
fn a_failed_hook_stops_the_upload_path_after_the_upload() {
    let mut tap = with_hook(Some(HookError::Printer("the motion never finished".to_string())));
    let (status, error) = refusal(job_upload_start(&mut tap, &raw_upload(true, false)));
    assert_eq!(status, 409);
    assert!(error.contains("print not started"), "{error}");
    let did = tap.into_port().did;
    assert!(did.contains(&"upload /tmp/staged to /x.gcode".to_string()));
    assert!(!did.iter().any(|s| s.starts_with("start")));
}

#[test]
fn the_upload_paths_dry_run_discloses_the_hook_and_runs_nothing() {
    let mut tap = with_hook(None);
    let p = planned(job_upload_start(&mut tap, &raw_upload(false, true)));
    assert_eq!(p.pre_print.as_deref(), Some("swap"));
    assert_eq!(hooks_run(tap), 0);
}

#[test]
fn a_hooks_own_failures_are_classified_for_the_operator() {
    for (err, want) in [
        (HookError::Config("swap.gcode has no G-code".to_string()), 500),
        (HookError::Printer("the motion never finished".to_string()), 409),
        (HookError::Transport("connection refused".to_string()), 502),
    ] {
        let (status, error) = refusal(job_start(&mut with_hook(Some(err)), &start_body(true, false)));
        assert_eq!(status, want);
        assert!(error.contains("print not started"), "{error}");
    }
}

#[test]
fn upload_start_needs_confirmation() {
    let mut tap = StartTap::new(desk());
    assert_eq!(answer(job_upload_start(&mut tap, &raw_upload(false, false))), 428);
}

#[test]
fn upload_start_confirmed_uploads_then_starts() {
    let mut tap = StartTap::new(desk());
    assert_eq!(answer(job_upload_start(&mut tap, &raw_upload(true, false))), 200);
    assert_eq!(
        tap.into_port().did,
        vec![
            "stage up to the limit",
            "lock",
            "upload /tmp/staged to /x.gcode",
            "start /x.gcode"
        ]
    );
}

#[test]
fn upload_start_dry_run_plans_without_starting() {
    let mut tap = StartTap::new(desk());
    let p = planned(job_upload_start(&mut tap, &raw_upload(false, true)));
    assert_eq!(p.file, "/x.gcode");
    assert_eq!(tap.into_port().did, vec!["stage up to the limit"]);
}

#[test]
fn upload_start_rejects_a_traversal_name() {
    let mut q = raw_upload(true, false);
    q.name = "../evil.gcode".to_string();
    assert_eq!(answer(job_upload_start(&mut StartTap::new(desk()), &q)), 400);
}

#[test]
fn upload_rejects_traversal_dir() {
    let dir = Some("../etc".to_string());
    let r = upload_file(&mut StartTap::new(desk()), "a.3mf", &dir);
    assert_eq!(r.unwrap_err().status, 400);
}

#[test]
fn upload_open_when_no_password() {
    let r = upload_file(&mut StartTap::new(desk()), "part.gcode.3mf", &None);
    assert_eq!(r.unwrap(), "part.gcode.3mf");
}

#[test]
fn upload_rejects_path_traversal() {
    let r = upload_file(&mut StartTap::new(desk()), "../etc/passwd", &None);
    assert_eq!(r.unwrap_err().status, 400);
}

#[test]
fn start_rejects_relative_path() {
    let b = start_of("host/evil.3mf", true, false);
    assert_eq!(answer(job_start(&mut StartTap::new(desk()), &b)), 400);
}

#[test]
fn start_dry_run_returns_plan_without_confirm() {
    let mut b = start_of("/coin.gcode.3mf", false, true);
    b.plate = 2;
    let p = planned(job_start(&mut StartTap::new(desk()), &b));
    assert_eq!(p.plate, 2);
    assert_eq!(p.bed_type, "auto");
}

#[test]
fn start_needs_confirmation() {
    let b = start_of("/coin.gcode.3mf", false, false);
    assert_eq!(answer(job_start(&mut StartTap::new(desk()), &b)), 428);
}

#[test]
fn start_confirmed_on_idle_printer_verifies() {
    let b = start_of("/coin.gcode.3mf", true, false);
    assert_eq!(answer(job_start(&mut StartTap::new(desk()), &b)), 200);
}

#[test]
fn start_rejects_bad_filetype_and_traversal() {
    for file in ["/notes.txt", "../secret.3mf"] {
        let b = start_of(file, true, false);
        assert_eq!(answer(job_start(&mut StartTap::new(desk()), &b)), 400);
    }
}

#[test]
fn start_rejects_out_of_range_ams_map() {
    let mut b = start_of("/c.3mf", true, false);
    b.use_ams = true;
    b.ams_map = vec![0, 9];
    assert_eq!(answer(job_start(&mut StartTap::new(desk()), &b)), 400);
}

#[test]
fn start_on_busy_printer_is_409() {
    let mut d = desk();
    d.state = "RUNNING";
    let b = start_of("/c.3mf", true, false);
    assert_eq!(answer(job_start(&mut StartTap::new(d), &b)), 409);
}

#[test]
fn an_ams_map_must_have_one_entry_per_filament_the_plate_uses() {
    let start = |map: Vec<i32>| {
        let mut d = desk();
        d.plate_filaments = vec![0, 1];
        let mut b = start_of("/two.3mf", true, false);
        b.use_ams = true;
        b.ams_map = map;
        job_start(&mut StartTap::new(d), &b)
    };
    for bad in [vec![0], vec![0, 1, 2]] {
        let (status, t) = refusal(start(bad));
        assert_eq!(status, 400);
        assert!(t.contains("ams_map"), "{t}");
        assert!(t.contains('2'), "names how many the plate uses: {t}");
    }
    assert_eq!(answer(start(vec![0, 1])), 200);
    let mut d = desk();
    d.map_verdict = Some("cannot be spread");
    let mut b = start_of("/one.3mf", true, false);
    b.use_ams = true;
    b.ams_map = vec![0];
    assert_eq!(
        refusal(job_start(&mut StartTap::new(d), &b)),
        (400, "ams_map cannot be spread (1 for 1) (/one.3mf plate 1)".to_string())
    );
}

#[test]
fn job_start_dry_run_reports_timelapse_block_capability() {
    let mut b = start_of("/cube.gcode.3mf", false, true);
    b.timelapse = true;
    let p = planned(job_start(&mut StartTap::new(desk()), &b));
    assert_eq!(p.has_timelapse_blocks, Some(true));
}

#[test]
fn job_start_dry_run_timelapse_blocks_null_when_uninspectable() {
    let mut d = desk();
    d.uninspectable = true;
    let b = start_of("/x.gcode.3mf", false, true);
    let p = planned(job_start(&mut StartTap::new(d), &b));
    assert_eq!(p.has_timelapse_blocks, None);
}

// ── Printing a slice ──

fn print(mgr: &SliceManager, d: Desk, b: SlicePrintBody) -> StartAnswer {
    slice_print(&mut StartTap::new(d), &mgr.status(), mgr.result(), b)
}

fn confirmed(expect: Option<u64>) -> SlicePrintBody {
    SlicePrintBody {
        confirm: true,
        expect,
        ..SlicePrintBody::default()
    }
}

fn dry() -> SlicePrintBody {
    SlicePrintBody {
        dry_run: true,
        ..SlicePrintBody::default()
    }
}

#[test]
fn printing_a_slice_needs_exactly_one_tray() {
    let mgr = finished();
    let with = |map: Vec<i32>| SlicePrintBody {
        use_ams: true,
        ams_map: map,
        ..dry()
    };
    for map in [vec![], vec![0, 3]] {
        let (status, error) = refusal(print(&mgr, desk(), with(map)));
        assert_eq!(status, 400);
        assert!(error.contains("exactly one tray"), "{error}");
    }
    planned(print(&mgr, desk(), with(vec![0])));
}

#[test]
fn slice_print_validates_the_ams_map_like_every_other_start() {
    let b = SlicePrintBody {
        use_ams: true,
        ams_map: vec![9],
        ..confirmed(None)
    };
    assert_eq!(refusal(print(&finished(), desk(), b)).0, 400);
}

#[test]
fn confirming_a_print_must_name_the_slice_the_plan_described() {
    let mut mgr = finished();
    let first = planned(print(&mgr, desk(), dry())).expect.unwrap();
    // Someone else slices.
    slice_once(&mut mgr);
    let (status, error) = refusal(print(&mgr, desk(), confirmed(Some(first))));
    assert_eq!(status, 409);
    assert!(error.contains("no longer the one loaded"), "{error}");
    assert_eq!(refusal(print(&mgr, desk(), confirmed(None))).0, 400);
    let second = planned(print(&mgr, desk(), dry())).expect.unwrap();
    assert_ne!(first, second, "a new slice gets a new id");
    assert_eq!(answer(print(&mgr, desk(), confirmed(Some(second)))), 200);
    // And a third bears neither name.
    slice_once(&mut mgr);
    let third = planned(print(&mgr, desk(), dry())).expect.unwrap();
    assert!(third != first && third != second);
}

#[test]
fn slice_print_refuses_while_the_printer_is_busy() {
    let mgr = finished();
    let mut d = desk();
    d.state = "RUNNING";
    let id = mgr.status().id;
    assert_eq!(refusal(print(&mgr, d, confirmed(id))).0, 409);
}
