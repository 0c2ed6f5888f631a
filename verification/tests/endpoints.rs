use bambu_serve::auth::{printer_routes, require_password, Method};
use bambu_serve::camera::{cameras_config_set, cameras_list, CameraInput, ExternalCamera, Tuning};
use bambu_serve::control::{
    execute, Command, CommandPort, CommandTap, ControlAction, Controller, FakeController,
};
use bambu_serve::files::{
    file_gcode, file_inspect, file_mesh, file_raw, file_thumbnail, InspectRequest,
};
use bambu_serve::machine::{
    ams, ams_change, calibrate, default_axes, default_extrude_feedrate, default_move_feedrate,
    extrude, gcode, home, light, move_axis, reboot, run_confirmed, speed, steppers, temp,
    temp_check_line, AmsChange, AmsChangeAnswer, GcodeVerdict,
};
use bambu_serve::reply::{
    verify_response, Answer, CommandOutcome, Machine, Reply, Task, VerifyStage,
};
use bambu_serve::timelapse::{
    default_every, timelapse_start, timelapse_stop, Mode, TimelapseRun, TimelapseStartBody,
};

// ── What a request is answered ──

fn idle() -> Machine {
    Machine {
        gcode_state: Some("IDLE".to_string()),
        hook_running: false,
    }
}

fn busy() -> Machine {
    Machine {
        gcode_state: Some("RUNNING".to_string()),
        hook_running: false,
    }
}

/// The status that an action is answered with by this controller.
fn by(c: FakeController, action: Result<ControlAction, Reply>) -> u16 {
    match action {
        Err(r) => r.status,
        Ok(a) => match verify_response(Task::Done(c.execute(a))) {
            Answer::Outcome { status, .. } => status,
            Answer::Refused(r) => r.status,
        },
    }
}

fn run(action: Result<ControlAction, Reply>) -> u16 {
    by(FakeController::verified(), action)
}

/// What the rules say of a G-code line that heats.
fn checked(line: &str) -> GcodeVerdict {
    let degrees = line.split_once('S').and_then(|(_, n)| n.parse::<u32>().ok());
    match degrees {
        Some(n) if n > 300 => GcodeVerdict::Block(format!("{n} is over the limit")),
        _ => GcodeVerdict::Allow,
    }
}

/// What the rules say of a distance.
fn within(delta: f64, most: f64) -> GcodeVerdict {
    if delta == 0.0 || delta.abs() > most {
        GcodeVerdict::Block("delta out of range".to_string())
    } else {
        GcodeVerdict::Allow
    }
}

fn jog(axis: &str, delta: f64, feedrate: u32, m: &Machine) -> u16 {
    run(move_axis(axis, delta.to_string(), feedrate, within(delta, 100.0), m))
}

fn push(delta: f64, hot: bool) -> u16 {
    let verdict = if hot {
        within(delta, 50.0)
    } else {
        GcodeVerdict::Block("the nozzle is cold".to_string())
    };
    run(extrude(
        delta.to_string(),
        default_extrude_feedrate(),
        verdict,
        &idle(),
    ))
}

fn set_temp(part: &str, celsius: u32, confirm: bool, force: bool) -> u16 {
    let line = temp_check_line(part, celsius).unwrap_or_default();
    run(temp(part, celsius, confirm, force, checked(&line)))
}

fn change(
    target: u32,
    tar_temp: i64,
    curr_temp: Option<i64>,
    confirm: bool,
    m: &Machine,
) -> u16 {
    let b = AmsChange {
        target,
        tar_temp,
        curr_temp,
        confirm,
        dry_run: false,
    };
    match ams_change(&b, 300, m) {
        AmsChangeAnswer::Plan { .. } => panic!("a plan"),
        AmsChangeAnswer::Run(a) => run(Ok(a)),
        AmsChangeAnswer::Refused(r) => r.status,
    }
}

#[test]
fn job_stop_needs_confirmation() {
    assert_eq!(run(run_confirmed(ControlAction::Stop, false)), 428);
}

#[test]
fn job_pause_confirmed_returns_verified() {
    assert_eq!(run(run_confirmed(ControlAction::Pause, true)), 200);
}

#[test]
fn job_clear_error_needs_confirmation() {
    assert_eq!(run(run_confirmed(ControlAction::ClearError, false)), 428);
}

#[test]
fn job_clear_error_confirmed_returns_verified() {
    assert_eq!(run(run_confirmed(ControlAction::ClearError, true)), 200);
}

#[test]
fn rejected_outcome_maps_to_409() {
    let c = FakeController::returning(CommandOutcome::Rejected {
        reason: "busy".to_string(),
    });
    assert_eq!(by(c, run_confirmed(ControlAction::Stop, true)), 409);
}

#[test]
fn unverified_outcome_maps_to_202() {
    let c = FakeController::returning(CommandOutcome::Unverified {
        stage: VerifyStage::Effect,
    });
    assert_eq!(by(c, light("chamber", true)), 202);
}

#[test]
fn transport_failure_maps_to_502() {
    assert_eq!(by(FakeController::failing(), light("chamber", false)), 502);
}

#[test]
fn unknown_light_node_is_400() {
    assert_eq!(run(light("kitchen", true)), 400);
}

#[test]
fn speed_level_sets_ok() {
    assert_eq!(run(speed("standard")), 200);
}

// ── G-code ──

#[test]
fn gcode_needs_confirmation() {
    let line = "G28".to_string();
    assert_eq!(run(gcode(line, false, false, checked("G28"), &idle())), 428);
}

#[test]
fn gcode_safe_line_runs() {
    let line = "G28".to_string();
    assert_eq!(run(gcode(line, true, false, checked("G28"), &idle())), 200);
}

#[test]
fn gcode_unsafe_line_is_blocked_unless_forced() {
    let send = |force: bool| {
        let line = "M104 S999".to_string();
        run(gcode(line, true, force, checked("M104 S999"), &idle()))
    };
    assert_eq!(send(false), 400);
    assert_eq!(send(true), 200);
}

// ── Motion ──

#[test]
fn home_all_on_idle_runs() {
    assert_eq!(run(home(&default_axes(), &idle())), 200);
}

#[test]
fn home_does_not_require_confirm() {
    assert_eq!(run(home("z", &idle())), 200);
}

#[test]
fn home_on_busy_printer_is_409() {
    assert_eq!(run(home("all", &busy())), 409);
}

#[test]
fn home_unknown_axes_is_400() {
    assert_eq!(run(home("w", &idle())), 400);
}

#[test]
fn move_in_range_on_idle_runs_without_confirm() {
    assert_eq!(jog("x", 10.0, default_move_feedrate(), &idle()), 200);
}

#[test]
fn move_over_bound_is_400() {
    assert_eq!(jog("x", 999.0, default_move_feedrate(), &idle()), 400);
}

#[test]
fn move_zero_delta_is_400() {
    assert_eq!(jog("y", 0.0, default_move_feedrate(), &idle()), 400);
}

#[test]
fn move_out_of_range_feedrate_is_400() {
    assert_eq!(jog("x", 5.0, 1, &idle()), 400);
}

#[test]
fn move_on_busy_printer_is_409() {
    assert_eq!(jog("x", 5.0, default_move_feedrate(), &busy()), 409);
}

#[test]
fn move_unknown_axis_is_400() {
    assert_eq!(jog("w", 5.0, default_move_feedrate(), &idle()), 400);
}

#[test]
fn extrude_on_cold_nozzle_is_400() {
    assert_eq!(push(5.0, false), 400);
}

#[test]
fn extrude_on_hot_idle_nozzle_runs() {
    assert_eq!(push(5.0, true), 200);
}

#[test]
fn extrude_over_bound_is_400() {
    assert_eq!(push(999.0, true), 400);
}

#[test]
fn extrude_zero_delta_is_400() {
    assert_eq!(push(0.0, true), 400);
}

// ── Heat ──

#[test]
fn temp_setpoint_needs_confirm() {
    assert_eq!(set_temp("nozzle", 210, false, false), 428);
}

#[test]
fn temp_setpoint_confirmed_runs() {
    assert_eq!(set_temp("nozzle", 210, true, false), 200);
}

#[test]
fn temp_cooldown_is_allowed_without_confirm() {
    assert_eq!(set_temp("nozzle", 0, false, false), 200);
}

#[test]
fn temp_over_limit_is_400_unless_forced() {
    assert_eq!(set_temp("nozzle", 999, true, false), 400);
    assert_eq!(set_temp("nozzle", 999, true, true), 200);
}

#[test]
fn temp_unknown_part_is_400() {
    assert_eq!(set_temp("chamber", 50, false, false), 400);
}

#[test]
fn temp_is_not_idle_gated_for_a_setpoint() {
    // What the printer is doing is not even asked.
    assert_eq!(set_temp("bed", 60, true, false), 200);
}

// ── Calibration, trays, reboot, steppers ──

#[test]
fn calibrate_needs_confirm() {
    assert_eq!(run(calibrate(true, false, false, false, &idle())), 428);
}

#[test]
fn calibrate_with_no_flags_is_400() {
    assert_eq!(run(calibrate(false, false, false, true, &idle())), 400);
}

#[test]
fn calibrate_confirmed_on_idle_runs() {
    assert_eq!(run(calibrate(true, false, false, true, &idle())), 200);
}

#[test]
fn calibrate_on_busy_printer_is_409() {
    assert_eq!(run(calibrate(false, true, false, true, &busy())), 409);
}

#[test]
fn ams_reset_needs_confirm() {
    assert_eq!(run(ams("reset", false, &idle())), 428);
}

#[test]
fn ams_reset_confirmed_on_idle_runs() {
    assert_eq!(run(ams("reset", true, &idle())), 200);
}

#[test]
fn ams_reset_on_busy_printer_is_409() {
    assert_eq!(run(ams("reset", true, &busy())), 409);
}

#[test]
fn ams_resume_is_allowed_without_confirm_even_when_busy() {
    assert_eq!(run(ams("resume", false, &busy())), 200);
}

#[test]
fn ams_unknown_action_is_400() {
    assert_eq!(run(ams("eject", false, &idle())), 400);
}

#[test]
fn ams_change_needs_confirm() {
    assert_eq!(change(255, 220, None, false, &idle()), 428);
}

#[test]
fn ams_change_confirmed_on_idle_runs() {
    assert_eq!(change(1, 220, None, true, &idle()), 200);
}

#[test]
fn ams_unload_target_255_confirmed_runs() {
    assert_eq!(change(255, 250, None, true, &idle()), 200);
}

#[test]
fn ams_change_on_busy_printer_is_409() {
    assert_eq!(change(0, 220, None, true, &busy()), 409);
}

#[test]
fn ams_change_over_limit_temp_is_400() {
    assert_eq!(change(1, 999, None, true, &idle()), 400);
}

#[test]
fn ams_change_curr_temp_is_also_clamped() {
    assert_eq!(change(1, 220, Some(999), true, &idle()), 400);
}

#[test]
fn ams_change_unknown_target_is_400() {
    assert_eq!(change(7, 220, None, true, &idle()), 400);
}

#[test]
fn ams_change_dry_run_previews_without_confirm_or_idle() {
    let b = AmsChange {
        target: 255,
        tar_temp: 250,
        curr_temp: None,
        confirm: false,
        dry_run: true,
    };
    match ams_change(&b, 300, &busy()) {
        AmsChangeAnswer::Plan {
            target,
            curr_temp,
            tar_temp,
        } => assert_eq!((target, tar_temp, curr_temp), (255, 250, 250)),
        other => panic!("{other:?}"),
    }
}

#[test]
fn reboot_needs_confirm() {
    assert_eq!(run(reboot(false, &idle())), 428);
}

/// A printer at the end of a wire.
struct Wire(Vec<String>);

impl CommandPort for Wire {
    fn send_and_verify(&mut self, c: Command) -> Result<CommandOutcome, String> {
        self.0.push(format!("verify {c:?}"));
        Ok(CommandOutcome::Verified)
    }
    fn send_fire(&mut self, c: Command) -> Result<(), String> {
        self.0.push(format!("fire {c:?}"));
        Ok(())
    }
}

#[test]
fn reboot_confirmed_on_idle_is_202() {
    // It answers nothing: a success is never a verified one.
    let mut tap = CommandTap::new(Wire(vec![]));
    let r = execute(&mut tap, reboot(true, &idle()).unwrap());
    match verify_response(Task::Done(r)) {
        Answer::Outcome { status, .. } => assert_eq!(status, 202),
        other => panic!("{other:?}"),
    }
    let r = execute(&mut tap, ControlAction::Pause);
    assert!(matches!(r, Ok(CommandOutcome::Verified)));
    assert_eq!(tap.into_port().0, vec!["fire Reboot", "verify Pause"]);
}

#[test]
fn reboot_on_busy_printer_is_409() {
    assert_eq!(run(reboot(true, &busy())), 409);
}

#[test]
fn steppers_needs_confirm() {
    assert_eq!(run(steppers(false, &idle())), 428);
}

#[test]
fn steppers_confirmed_on_idle_runs() {
    assert_eq!(run(steppers(true, &idle())), 200);
}

#[test]
fn steppers_on_busy_printer_is_409() {
    assert_eq!(run(steppers(true, &busy())), 409);
}

#[test]
fn a_running_hook_refuses_a_jog_but_never_a_stop() {
    let hooked = Machine {
        gcode_state: Some("IDLE".to_string()),
        hook_running: true,
    };
    let refusals = [
        home("all", &hooked),
        move_axis("z", "1".to_string(), 3000, GcodeVerdict::Allow, &hooked),
        gcode("G28".to_string(), true, false, GcodeVerdict::Allow, &hooked),
        calibrate(true, false, false, true, &hooked),
        steppers(true, &hooked),
    ];
    for r in refusals {
        let r = r.unwrap_err();
        assert_eq!(r.status, 409);
        assert!(r.error.contains("pre-print sequence is running"), "{}", r.error);
    }
    for a in [
        ControlAction::Pause,
        ControlAction::Stop,
        ControlAction::ClearError,
    ] {
        assert_eq!(run(run_confirmed(a, true)), 200);
    }
    assert_eq!(run(home("all", &idle())), 200);
}

// ── The password ──

/// Whether a path asks for the password.
fn gated(method: Method, path: &str) -> bool {
    printer_routes()
        .iter()
        .find(|r| r.method == method && r.path == path)
        .unwrap()
        .gated
}

#[test]
fn status_is_open_even_when_a_password_is_set() {
    assert!(!gated(Method::Get, "/status"));
}

#[test]
fn write_without_password_is_401_when_one_is_set() {
    assert!(gated(Method::Post, "/light"));
    let refused = require_password(&Some("secret".to_string()), &None).unwrap();
    assert_eq!(refused.status, 401);
}

#[test]
fn write_with_correct_password_is_allowed() {
    let pw = Some("secret".to_string());
    assert!(require_password(&pw, &Some("Bearer secret".to_string())).is_none());
}

#[test]
fn upload_start_is_gated_by_password() {
    assert!(gated(Method::Post, "/job/upload-start"));
}

#[test]
fn upload_needs_password_when_set() {
    assert!(gated(Method::Post, "/file/upload"));
}

#[test]
fn timelapse_start_stop_are_gated_by_password() {
    assert!(gated(Method::Post, "/timelapse/start"));
    assert!(gated(Method::Post, "/timelapse/stop"));
    assert!(!gated(Method::Get, "/timelapse"));
}

#[test]
fn camera_config_is_gated_by_password() {
    assert!(gated(Method::Post, "/camera/config"));
}

#[test]
fn the_finished_slice_is_password_gated_while_its_status_stays_open() {
    assert!(!gated(Method::Get, "/slice"));
    assert!(gated(Method::Get, "/slice/result"));
}

// ── Files ──

#[test]
fn thumbnail_returns_png() {
    assert_eq!(file_thumbnail("coin2c.gcode.3mf", 1).unwrap(), "/coin2c.gcode.3mf");
}

#[test]
fn thumbnail_rejects_non_3mf() {
    assert_eq!(file_thumbnail("/timelapse/video.mp4", 1).unwrap_err().status, 400);
}

#[test]
fn raw_serves_3mf_bytes() {
    let (path, kind) = file_raw("/cache/coin.gcode.3mf").unwrap();
    assert_eq!(path, "/cache/coin.gcode.3mf");
    assert_eq!(kind, "application/octet-stream");
}

#[test]
fn raw_rejects_other_extensions() {
    assert_eq!(file_raw("/secret.txt").unwrap_err().status, 400);
}

#[test]
fn gcode_file_rejects_non_3mf() {
    assert_eq!(file_gcode("/raw.gcode", 1).unwrap_err().status, 400);
}

#[test]
fn mesh_file_rejects_non_3mf() {
    assert_eq!(file_mesh("/raw.gcode").unwrap_err().status, 400);
}

#[test]
fn file_inspect_degrades_to_not_inspected() {
    assert!(matches!(file_inspect("/x.gcode.3mf", 1), InspectRequest::Read(_)));
    assert!(matches!(
        file_inspect("/notes.txt", 1),
        InspectRequest::NotInspected(_)
    ));
}

// ── Cameras ──

fn camera(
    label: Option<&str>,
    url: &str,
    stream: Option<&str>,
    tuning: Tuning<u8, u8>,
) -> CameraInput<u8, u8> {
    CameraInput {
        label: label.map(str::to_string),
        url: url.to_string(),
        stream_url: stream.map(str::to_string),
        tuning,
    }
}

#[test]
fn cameras_list_is_empty_without_built_in_or_external() {
    let none: Vec<ExternalCamera<u8, u8>> = vec![];
    assert!(cameras_list(false, &none).is_empty());
}

#[test]
fn external_cameras_can_be_set_then_listed_and_cleared() {
    let set = cameras_config_set(vec![
        camera(Some("front"), "http://cam.local/a.jpg", None, Tuning::Absent),
        camera(None, "http://cam.local/b.jpg", None, Tuning::Absent),
    ])
    .unwrap();
    let list = cameras_list(false, &set);
    assert_eq!(list.len(), 2);
    assert_eq!(list[0].id, "ext-0");
    assert_eq!(list[0].label, "front");
    assert!(list[0].external);
    assert_eq!(list[1].label, "external 2");
    assert_eq!(set[0].url, "http://cam.local/a.jpg");
    let cleared = cameras_config_set::<u8, u8>(vec![]).unwrap();
    assert!(cameras_list(false, &cleared).is_empty());
}

#[test]
fn camera_config_rejects_non_http_url() {
    for url in ["file:///etc/passwd", "https://cam.local/a.jpg"] {
        let r = cameras_config_set(vec![camera(None, url, None, Tuning::Absent)]);
        assert_eq!(r.unwrap_err().status, 400);
    }
}

#[test]
fn camera_config_rejects_non_http_stream_url() {
    let r = cameras_config_set(vec![camera(
        None,
        "http://cam.local/a.jpg",
        Some("file:///etc/passwd"),
        Tuning::Absent,
    )]);
    assert_eq!(r.unwrap_err().status, 400);
}

#[test]
fn external_camera_stream_url_round_trips_and_flags_the_list() {
    let set = cameras_config_set(vec![
        camera(
            Some("front"),
            "http://cam.local/snapshot",
            Some("http://cam.local/stream"),
            Tuning::Absent,
        ),
        camera(None, "http://cam.local/b.jpg", None, Tuning::Absent),
    ])
    .unwrap();
    let list = cameras_list(false, &set);
    assert!(list[0].stream);
    assert!(!list[1].stream);
    assert_eq!(set[0].stream_url.as_deref(), Some("http://cam.local/stream"));
    assert_eq!(set[1].stream_url, None);
}

#[test]
fn park_tuning_round_trips_and_flags_capability() {
    let set = cameras_config_set(vec![
        camera(
            Some("front"),
            "http://cam.local/snap",
            Some("http://cam.local/stream"),
            Tuning::Read {
                park: 4,
                select: None,
            },
        ),
        camera(
            None,
            "http://cam.local/b.jpg",
            Some("http://cam.local/bstream"),
            Tuning::Absent,
        ),
    ])
    .unwrap();
    let list = cameras_list(false, &set);
    assert!(list[0].park);
    assert!(!list[1].park, "a stream but no tuning");
    assert_eq!(set[0].park_tuning, Some(4));
    assert_eq!(set[1].park_tuning, None);
}

#[test]
fn select_tuning_round_trips_and_flags_segment_capability() {
    let tuned = |url: &str, select: Option<u8>| {
        camera(
            None,
            url,
            Some("http://cam.local/stream"),
            Tuning::Read { park: 15, select },
        )
    };
    let set = cameras_config_set(vec![
        tuned("http://cam.local/s", Some(2)),
        tuned("http://cam.local/b", None),
    ])
    .unwrap();
    let list = cameras_list(false, &set);
    assert!(list[0].segment && list[0].park);
    assert!(!list[1].segment && list[1].park);
}

#[test]
fn camera_config_rejects_a_partial_park_tuning() {
    let r = cameras_config_set(vec![camera(
        None,
        "http://cam.local/a.jpg",
        Some("http://cam.local/s"),
        Tuning::Invalid("missing field `abs_floor`".to_string()),
    )]);
    let r: Reply = r.unwrap_err();
    assert_eq!(r.status, 400);
    assert_eq!(r.error, "invalid park_tuning: missing field `abs_floor`");
}

// ── Timelapses ──

fn wanted(camera: &str, mode: Option<&str>) -> TimelapseStartBody {
    TimelapseStartBody {
        camera: Some(camera.to_string()),
        cameras: vec![],
        mode: mode.map(str::to_string),
        every: default_every(),
        interval_ms: None,
        burst_offsets_ms: None,
        window_ms: None,
    }
}

fn asked(b: &TimelapseStartBody, cams: Vec<ExternalCamera<u8, u8>>) -> u16 {
    match timelapse_start(b, false, &cams, &vec![400, 1200]) {
        Ok(_) => 200,
        Err(r) => r.status,
    }
}

fn plain_camera(stream: Option<&str>) -> Vec<ExternalCamera<u8, u8>> {
    vec![ExternalCamera::new(
        None,
        "http://cam.local/a.jpg".to_string(),
        stream.map(str::to_string),
        0,
    )]
}

#[test]
fn timelapse_start_park_rejects_without_a_capable_camera() {
    assert_eq!(asked(&wanted("ext-0", Some("park")), plain_camera(None)), 400);
}

#[test]
fn timelapse_start_segment_rejects_without_a_capable_camera() {
    let cams = plain_camera(Some("http://cam.local/s"));
    assert_eq!(asked(&wanted("ext-0", Some("segment")), cams), 400);
}

#[test]
fn timelapse_start_segment_rejects_a_bad_window() {
    let mut b = wanted("ext-0", Some("segment"));
    b.window_ms = Some(50);
    assert_eq!(asked(&b, vec![]), 400);
}

#[test]
fn timelapse_start_rejects_unknown_camera() {
    assert_eq!(asked(&wanted("ext-9", None), vec![]), 404);
}

#[test]
fn timelapse_start_rejects_every_zero() {
    let mut b = wanted("ext-0", None);
    b.every = 0;
    assert_eq!(asked(&b, vec![]), 400);
}

#[test]
fn timelapse_start_rejects_unknown_mode() {
    assert_eq!(asked(&wanted("ext-0", Some("fancy")), vec![]), 400);
}

#[test]
fn timelapse_plain_rejects_too_fast_interval() {
    let mut b = wanted("ext-0", Some("plain"));
    b.interval_ms = Some(10);
    assert_eq!(asked(&b, vec![]), 400);
}

#[test]
fn timelapse_smooth_rejects_an_out_of_range_burst_offset() {
    let mut b = wanted("ext-0", None);
    b.burst_offsets_ms = Some(vec![800, 99999]);
    assert_eq!(asked(&b, vec![]), 400);
}

#[test]
fn timelapse_smooth_rejects_an_empty_burst() {
    let mut b = wanted("ext-0", None);
    b.burst_offsets_ms = Some(vec![]);
    assert_eq!(asked(&b, vec![]), 400);
}

#[test]
fn timelapse_stop_rejects_unknown_mode() {
    assert_eq!(timelapse_stop(&Some("plian".to_string())).unwrap_err().status, 400);
}

#[test]
fn timelapse_stop_without_a_mode_is_ok() {
    assert_eq!(
        timelapse_stop(&None).unwrap(),
        vec![Mode::Smooth, Mode::Plain, Mode::Park, Mode::Segment]
    );
}

#[test]
fn a_camera_that_is_named_twice_is_captured_once() {
    let cams: Vec<ExternalCamera<u8, u8>> = (0..2)
        .map(|i| ExternalCamera::new(None, format!("http://cam.local/{i}.jpg"), None, i))
        .collect();
    let mut b = wanted("ext-0", None);
    b.cameras = vec!["ext-0".to_string(), "ext-1".to_string(), "ext-0".to_string()];
    match timelapse_start(&b, false, &cams, &vec![400]).unwrap() {
        TimelapseRun::Smooth { cameras, .. } => {
            let ids: Vec<&str> = cameras.iter().map(|c| c.id.as_str()).collect();
            assert_eq!(ids, vec!["ext-0", "ext-1"]);
        }
        other => panic!("{other:?}"),
    }
}
