use bambu_serve::fake::{approach, fake_ams, FakeSource};
use bambu_serve::printer_files::{LivePrinterFiles, Probe, SyntheticFiles};
use bambu_serve::synthetic::SyntheticPrinter;

#[test]
fn a_made_up_print_heats_up_finishes_and_starts_again() {
    let mut s = FakeSource::ramping();
    assert_eq!(s.current().print.as_ref().unwrap().nozzle_temper, 25);
    s.tick();
    let p = s.current().print.as_ref().unwrap();
    assert_eq!((p.nozzle_temper, p.bed_temper), (33, 29));
    assert_eq!((p.mc_percent, p.layer_num, p.remaining_time_min), (1, 1, 71));
    for _ in 1..100 {
        s.tick();
    }
    let p = s.current().print.as_ref().unwrap();
    assert_eq!(s.current().gcode_state, "RUNNING");
    assert_eq!((p.nozzle_temper, p.mc_percent, p.cooling_fan_speed), (220, 100, 100));
    s.tick();
    assert_eq!(s.current().gcode_state, "FINISH");
    assert_eq!(s.current().print.as_ref().unwrap().nozzle_temper, 208);
    for _ in 0..15 {
        s.tick();
    }
    let p = s.current().print.as_ref().unwrap();
    assert_eq!(s.current().gcode_state, "RUNNING");
    assert_eq!((p.nozzle_temper, p.mc_percent), (33, 1));
    let idle = FakeSource::idle();
    assert_eq!(idle.current().gcode_state, "IDLE");
    assert!(idle.current().print.is_none());
    assert_eq!(approach(10, 5, 3), 7);
    assert_eq!(approach(10, 9, 3), 9);
}

#[test]
fn the_made_up_spools_are_tagged() {
    let ams = fake_ams();
    assert_eq!(ams.trays.len(), 4);
    assert!(ams.trays[0].is_active);
    assert_eq!(ams.trays[2].nozzle_temp_min, 230);
    assert_eq!(ams.trays[3].uuid, "FACADE00000000000000000000000003");
}

#[test]
fn a_synthetic_printer_moves_on_and_reports_what_changed() {
    let mut p = SyntheticPrinter::start();
    let whole: serde_json::Value = serde_json::from_str(&p.snapshot()).unwrap();
    assert_eq!(whole["print"]["msg"], 0, "the seed is a whole snapshot");
    assert_eq!(whole["print"]["gcode_state"], "RUNNING");
    assert_eq!(whole["print"]["mc_remaining_time"], 100);
    assert_eq!(whole["print"]["ipcam"]["mode_bits"], 3);
    let delta: serde_json::Value = serde_json::from_str(&p.advance()).unwrap();
    assert_eq!(delta["print"]["msg"], 1);
    assert_eq!(delta["print"]["layer_num"], 1);
    assert_eq!(delta["print"]["nozzle_temper"], 33.0);
    assert_eq!(delta["print"]["bed_temper"], 28.0);
    for _ in 0..100 {
        p.advance();
    }
    assert_eq!(p.layer, 0, "after the last layer comes the first");
    assert_eq!((p.nozzle, p.bed), (220, 60));
}

#[test]
fn a_command_is_acknowledged_under_its_own_number() {
    let p = SyntheticPrinter::start();
    let ack = p
        .send("{\"print\":{\"sequence_id\":\"42\",\"command\":\"pause\"}}")
        .unwrap();
    assert_eq!(
        ack,
        "{\"print\":{\"reason\":\"success\",\"result\":\"success\",\"sequence_id\":\"42\"}}"
    );
    let whole = p
        .send("{\"pushing\":{\"sequence_id\":\"0\",\"command\":\"pushall\"}}")
        .unwrap();
    assert_eq!(whole, p.snapshot());
    assert_eq!(p.send("{}"), None);
    assert_eq!(p.send("not json"), None);
    assert_eq!(p.send("{\"print\":{\"command\":\"pause\"}}"), None);
    let odd = p
        .send("{\"a\\\"b\":{\"sequence_id\":\"1\\n2\"}}")
        .unwrap();
    let v: serde_json::Value = serde_json::from_str(&odd).unwrap();
    assert_eq!(v["a\"b"]["sequence_id"], "1\n2");
}

#[test]
fn synthetic_files_are_kept_by_path_and_listed_in_order() {
    let mut f = SyntheticFiles::new();
    assert_eq!(f.upload("/b.3mf", vec![1, 2, 3]), 3);
    f.upload("/a.3mf", vec![0; 10]);
    f.upload("/cache/c.3mf", vec![9]);
    f.upload("/a.3mf", vec![7]);
    assert_eq!(f.list_names("/"), vec!["a.3mf", "b.3mf"]);
    assert_eq!(f.list_names("/cache"), vec!["c.3mf"]);
    assert_eq!(
        f.list_raw("/"),
        vec![
            "-rw-rw-rw-   1 root  root         1 Jan  1 00:00 a.3mf",
            "-rw-rw-rw-   1 root  root         3 Jan  1 00:00 b.3mf",
        ]
    );
    assert_eq!(f.entries("/")[1].size, 3);
    assert_eq!(f.download("/a.3mf").unwrap(), &vec![7]);
    f.rename("/a.3mf", "/z.3mf").unwrap();
    assert_eq!(f.list_names("/"), vec!["b.3mf", "z.3mf"]);
    assert_eq!(f.rename("/a.3mf", "/q").unwrap_err(), "no such file: /a.3mf");
    f.delete("/b.3mf");
    assert_eq!(f.download("/b.3mf").unwrap_err(), "no such file: /b.3mf");
}

#[test]
fn a_printer_that_does_not_answer_is_told_at_once() {
    let f = LivePrinterFiles::new("10.0.0.1");
    assert_eq!(f.addr(), "10.0.0.1:990");
    assert!(f.reachable(Probe::Answers).is_ok());
    assert_eq!(
        f.reachable(Probe::Silent("refused".to_string())).unwrap_err(),
        "the printer is not answering on 10.0.0.1:990: refused"
    );
    assert_eq!(
        f.reachable(Probe::Nowhere).unwrap_err(),
        "10.0.0.1:990 resolved to nothing"
    );
    assert_eq!(
        f.reachable(Probe::Unresolved("dns".to_string())).unwrap_err(),
        "cannot resolve 10.0.0.1:990: dns"
    );
}
