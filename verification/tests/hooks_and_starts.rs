use bambu_serve::control::Command;
use bambu_serve::hook::{
    hook_reply, vet_text, HookError, HookPort, HookTap, NoHook, PrePrintHook, SequenceRun, Step,
};
use bambu_serve::reply::Task;
use bambu_serve::start::StartRequest;

#[test]
fn a_printer_without_a_hook_discloses_nothing_and_does_nothing() {
    assert_eq!(NoHook.describe(), None);
    assert!(NoHook.run().is_ok());
}

/// Refuses to heat to 300 degrees and more.
struct Limits;

impl HookPort for Limits {
    fn read(&mut self, _path: &str) -> Result<String, String> {
        Err("nothing is read".to_string())
    }
    fn check(&mut self, gcode: &str) -> Option<String> {
        let degrees: u32 = gcode.split_once(" S")?.1.parse().ok()?;
        (gcode.starts_with("M10") && degrees >= 300).then_some("too hot".to_string())
    }
    fn send_sequence(&mut self, _lines: &Vec<String>, _s: u64) -> Result<SequenceRun, String> {
        Err("nothing is sent".to_string())
    }
    fn step_context(&mut self, _i: usize, _total: usize, _step: &Step) -> String {
        String::new()
    }
}

#[test]
fn a_sequence_of_only_comments_is_a_configuration_error() {
    // Silently doing nothing would be worse than refusing.
    let mut tap = HookTap::new(Limits);
    let err = vet_text(&mut tap, "; just a comment\n\n", "swap.gcode").unwrap_err();
    assert!(err.contains("no G-code"), "{err}");
}

#[test]
fn unsafe_lines_are_all_reported_before_anything_is_sent() {
    let mut tap = HookTap::new(Limits);
    let err = vet_text(&mut tap, "M104 S400\nG28\nM109 S500\n", "swap.gcode").unwrap_err();
    assert!(err.contains("line 1"), "{err}");
    assert!(err.contains("line 3"), "{err}");
}

#[test]
fn an_accessory_sequence_that_parks_off_the_bed_is_accepted() {
    let mut tap = HookTap::new(Limits);
    let steps = vet_text(
        &mut tap,
        "G90\nG28\nG0 Z30 F5000\nG0 X-10\nG0 Y-6 F2000\nG4 S3\n",
        "swap.gcode",
    )
    .unwrap();
    assert_eq!(steps.len(), 6);
}

#[test]
fn each_class_of_hook_error_has_its_own_reply() {
    let ok = hook_reply(&Task::Done(Ok(())));
    assert!(ok.is_none());
    let mut statuses = Vec::new();
    for e in [
        HookError::Config("c".to_string()),
        HookError::Printer("p".to_string()),
        HookError::Transport("t".to_string()),
    ] {
        assert!(!e.message().is_empty());
        statuses.push(hook_reply(&Task::Done(Err(e))).unwrap().status);
    }
    statuses.dedup();
    assert!(statuses.len() > 1, "{statuses:?}");
    assert_eq!(hook_reply(&Task::Lost).unwrap().status, 500);
}

#[test]
fn three_mf_builds_a_project_file_with_ftp_url_and_ams() {
    let req = StartRequest {
        file: "/cache/coin.gcode.3mf".to_string(),
        plate: 2,
        use_ams: true,
        ams_map: vec![0, 3],
        bed_type: "auto".to_string(),
        timelapse: false,
        inspection: None,
    };
    match req.to_command() {
        Command::ProjectFile(pf) => {
            assert_eq!(pf.url, "ftp:///cache/coin.gcode.3mf");
            assert_eq!(pf.plate, 2);
            assert_eq!(pf.subtask_name, "coin.gcode.3mf");
            assert!(pf.use_ams);
            assert_eq!(pf.ams_mapping, vec![0, 3]);
            assert!(!pf.timelapse, "timelapse off unless requested");
        }
        other => panic!("expected ProjectFile, got {other:?}"),
    }
}

#[test]
fn timelapse_flag_flows_into_the_project_file() {
    let req = StartRequest {
        file: "/cube.gcode.3mf".to_string(),
        plate: 1,
        use_ams: false,
        ams_map: vec![],
        bed_type: "auto".to_string(),
        timelapse: true,
        inspection: None,
    };
    match req.to_command() {
        Command::ProjectFile(pf) => assert!(pf.timelapse, "arms the sliced timelapse gcode"),
        other => panic!("expected ProjectFile, got {other:?}"),
    }
}

#[test]
fn raw_gcode_builds_a_gcode_file() {
    let req = StartRequest {
        file: "/test.gcode".to_string(),
        plate: 1,
        use_ams: false,
        ams_map: vec![],
        bed_type: "auto".to_string(),
        timelapse: false,
        inspection: None,
    };
    assert!(matches!(req.to_command(), Command::GcodeFile(f) if f == "/test.gcode"));
}
