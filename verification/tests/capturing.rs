use bambu_serve::camera::{ExternalCamera, Grab};
use bambu_serve::captures::{
    camera_answer, capture_thumb, capture_video, default_fps, park_frame_path, park_source,
    CaptureKind, CaptureOwner, CapturePort, CaptureTap,
};
use bambu_serve::park::{
    detect_stream, Park, ParkPort, ParkRunStats, ParkTap, ParkWriter, DECODE_H, DECODE_W,
};
use bambu_serve::reply::Task;
use bambu_serve::timelapse::{
    any_running, default_every, live_park_source, run_refusal, timelapse_start, timelapse_stop,
    Mode, PlainCapture, RunStatus, TimelapseRun, TimelapseStartBody,
};
use std::collections::BTreeMap;

// ── Starting and stopping ──

fn body() -> TimelapseStartBody {
    TimelapseStartBody {
        camera: Some("ext-0".to_string()),
        cameras: vec![],
        mode: None,
        every: default_every(),
        interval_ms: None,
        burst_offsets_ms: None,
        window_ms: None,
    }
}

fn cams() -> Vec<ExternalCamera<u8, u8>> {
    vec![
        ExternalCamera::new(
            None,
            "http://a/snap".to_string(),
            Some("http://a/stream".to_string()),
            0,
        )
        .with_park_tuning(Some(1))
        .with_select_tuning(Some(2)),
        ExternalCamera::new(None, "http://b/snap".to_string(), None, 1),
        ExternalCamera::new(
            None,
            "http://c/snap".to_string(),
            Some("http://c/stream".to_string()),
            2,
        )
        .with_park_tuning(Some(3)),
    ]
}

const BURST: [u64; 2] = [400, 1200];

fn start(b: &TimelapseStartBody) -> Result<TimelapseRun, (u16, String)> {
    timelapse_start(b, false, &cams(), &BURST.to_vec()).map_err(|r| (r.status, r.error))
}

#[test]
fn a_smooth_run_is_the_default() {
    match start(&body()).unwrap() {
        TimelapseRun::Smooth {
            cameras,
            every,
            burst_offsets_ms,
        } => {
            assert_eq!(every, 1);
            assert_eq!(burst_offsets_ms, BURST.to_vec());
            assert_eq!(cameras.len(), 1);
            assert_eq!(cameras[0].id, "ext-0");
            assert_eq!(cameras[0].select, Some(0));
            assert!(matches!(&cameras[0].grab, Grab::Url(u) if u == "http://a/snap"));
        }
        other => panic!("{other:?}"),
    }
}

#[test]
fn a_plain_run_records_streams_and_samples_the_rest() {
    let mut b = body();
    b.mode = Some("plain".to_string());
    b.cameras = vec![
        "ext-0".to_string(),
        "ext-0".to_string(),
        "ext-1".to_string(),
    ];
    match start(&b).unwrap() {
        TimelapseRun::Plain {
            cameras,
            interval_ms,
        } => {
            assert_eq!(interval_ms, 3000);
            assert_eq!(cameras.len(), 2, "a repeated camera counts once");
            assert!(
                matches!(&cameras[0], PlainCapture::Stream { url, .. } if url == "http://a/stream")
            );
            assert!(matches!(&cameras[1], PlainCapture::Sample { id, .. } if id == "ext-1"));
        }
        other => panic!("{other:?}"),
    }
}

#[test]
fn a_park_run_skips_what_it_cannot_use() {
    let mut b = body();
    b.mode = Some("park".to_string());
    b.cameras = vec![
        "ext-0".to_string(),
        "ext-1".to_string(),
        "ext-2".to_string(),
        "internal".to_string(),
    ];
    match start(&b).unwrap() {
        TimelapseRun::Park { cameras, skipped } => {
            assert_eq!(cameras.len(), 2);
            assert_eq!(cameras[1].camera, 2);
            assert_eq!(skipped, vec!["ext-1", "internal"]);
        }
        other => panic!("{other:?}"),
    }
    b.mode = Some("segment".to_string());
    match start(&b).unwrap() {
        TimelapseRun::Segment {
            cameras,
            skipped,
            window_ms,
        } => {
            assert_eq!(window_ms, 120_000);
            assert_eq!(cameras.len(), 1);
            assert_eq!(skipped.len(), 3);
        }
        other => panic!("{other:?}"),
    }
    b.cameras = vec!["ext-1".to_string(), "ext-9".to_string()];
    assert_eq!(
        start(&b).unwrap_err(),
        (
            400,
            "no segment-capable cameras among [\"ext-1\", \"ext-9\"] — each needs a stream_url, a \
             park_tuning, and a select_tuning"
                .to_string()
        )
    );
}

#[test]
fn a_bad_cadence_is_refused_before_the_cameras_are_looked_at() {
    let mut b = body();
    b.camera = Some("bogus".to_string());
    b.every = 0;
    assert_eq!(start(&b).unwrap_err().1, "every must be >= 1");
    b.every = 1;
    b.burst_offsets_ms = Some(vec![]);
    assert!(start(&b).unwrap_err().1.contains("at least one offset"));
    b.burst_offsets_ms = Some(vec![0; 17]);
    assert!(start(&b).unwrap_err().1.contains("at most 16"));
    b.burst_offsets_ms = Some(vec![1, 20_000, 30_000]);
    assert_eq!(
        start(&b).unwrap_err().1,
        "burst_offsets_ms: 20000 ms exceeds the 10000 ms cap"
    );
    b.mode = Some("plain".to_string());
    b.interval_ms = Some(99);
    assert_eq!(start(&b).unwrap_err().1, "interval_ms must be >= 100");
    b.mode = Some("segment".to_string());
    b.window_ms = Some(50);
    assert_eq!(
        start(&b).unwrap_err().1,
        "window_ms must be between 5000 and 600000"
    );
    b.mode = Some("nope".to_string());
    assert_eq!(
        start(&b).unwrap_err().1,
        "unknown mode \"nope\" (use smooth, plain, park, or segment)"
    );
    let mut b = body();
    b.camera = Some("bogus".to_string());
    assert_eq!(
        start(&b).unwrap_err(),
        (404, "unknown or unconfigured camera: bogus".to_string())
    );
    b.camera = None;
    assert_eq!(
        start(&b).unwrap_err().1,
        "specify a camera or cameras to capture"
    );
    assert_eq!(
        run_refusal(Err("already running".to_string())).unwrap().status,
        409
    );
    assert!(run_refusal(Ok(())).is_none());
}

#[test]
fn a_slip_does_not_stop_every_run() {
    assert_eq!(timelapse_stop(&None).unwrap().len(), 4);
    assert_eq!(
        timelapse_stop(&Some("park".to_string())).unwrap(),
        vec![Mode::Park]
    );
    assert_eq!(
        timelapse_stop(&Some("pakr".to_string())).unwrap_err().error,
        "unknown mode \"pakr\" (use smooth, plain, park, segment, or all)"
    );
}

fn run(running: bool, dir: Option<&str>) -> RunStatus {
    RunStatus {
        running,
        out_dir: dir.map(|d| d.to_string()),
        cameras: vec!["ext-0".to_string()],
    }
}

#[test]
fn the_preview_follows_the_active_run_or_the_most_recent() {
    assert_eq!(live_park_source(&vec![run(false, None), run(true, None)]), None);
    let runs = vec![
        run(false, Some("captures/900_x_segment")),
        run(true, Some("captures/100_x_park")),
        run(true, Some("captures/200_x_smooth")),
    ];
    assert_eq!(live_park_source(&runs), Some(1));
    let runs = vec![
        run(false, Some("captures/100_x_segment")),
        run(false, Some("captures/300_x_park")),
        run(false, Some("captures/300_x_smooth")),
    ];
    assert_eq!(live_park_source(&runs), Some(1), "the first of those alike");
    assert_eq!(
        park_source(&runs, "ext-0"),
        Some(("captures/300_x_park/ext-0".to_string(), false))
    );
    assert_eq!(park_source(&runs, "../secret"), None);
    assert_eq!(park_frame_path("d", 7), "d/park_000007.jpg");
    assert!(any_running(&runs[0], &run(true, None), &runs[1], &runs[2]));
}

// ── What was captured ──

struct Shelf {
    dirs: Vec<String>,
    files: Vec<String>,
    kind: Option<CaptureKind>,
    selected: bool,
    did: Vec<String>,
}

impl CapturePort for Shelf {
    fn is_dir(&mut self, path: &str) -> bool {
        self.dirs.iter().any(|d| d == path)
    }
    fn is_file(&mut self, path: &str) -> bool {
        self.files.iter().any(|d| d == path)
    }
    fn files(&mut self, dir: &str) -> Result<Vec<String>, String> {
        if self.is_dir(dir) {
            Ok(vec!["f".to_string()])
        } else {
            Err("gone".to_string())
        }
    }
    fn classify(&mut self, _files: &Vec<String>) -> Option<CaptureKind> {
        self.kind
    }
    fn transcode(&mut self, from: &str, to: &str) -> Result<(), String> {
        self.did.push(format!("transcode {from} {to}"));
        Ok(())
    }
    fn assemble(&mut self, dir: &str, _: CaptureKind, to: &str, fps: u32) -> Result<(), String> {
        self.did.push(format!("assemble {dir} {to} {fps}"));
        Ok(())
    }
    fn assemble_selected(
        &mut self,
        _dir: &str,
        camera: usize,
        _to: &str,
        fps: u32,
    ) -> Result<(), String> {
        self.did.push(format!("select {camera} {fps}"));
        if self.selected {
            Ok(())
        } else {
            Err("no frames".to_string())
        }
    }
    fn extract_thumb(&mut self, from: &str, to: &str) -> Result<(), String> {
        self.did.push(format!("thumb {from} {to}"));
        Ok(())
    }
    fn thumb_frame(&mut self, _files: &Vec<String>, _kind: CaptureKind) -> Option<String> {
        Some("park_000003.jpg".to_string())
    }
}

fn shelf(kind: Option<CaptureKind>, dirs: &[&str], files: &[&str]) -> CaptureTap<Shelf> {
    CaptureTap::new(Shelf {
        dirs: dirs.iter().map(|d| d.to_string()).collect(),
        files: files.iter().map(|d| d.to_string()).collect(),
        kind,
        selected: true,
        did: Vec::new(),
    })
}

fn owner() -> CaptureOwner {
    CaptureOwner {
        id: "a1".to_string(),
        legacy_captures: true,
    }
}

#[test]
fn the_video_of_a_run_is_found_or_made() {
    let dir = "captures/a1/9_x_plain/ext-0";
    let all = ["captures/a1/9_x_plain", dir];
    let found = |tap: &mut CaptureTap<Shelf>, fps: u32| {
        capture_video(tap, &owner(), "9_x_plain", "ext-0", fps, &cams()).unwrap()
    };
    let mut tap = shelf(
        Some(CaptureKind::Video),
        &all,
        &["captures/a1/9_x_plain/ext-0/plain.mp4"],
    );
    assert_eq!(found(&mut tap, 10), Some(format!("{dir}/plain.mp4")));
    let mut tap = shelf(
        Some(CaptureKind::Video),
        &all,
        &["captures/a1/9_x_plain/ext-0/plain.mjpeg"],
    );
    assert_eq!(found(&mut tap, 10), Some(format!("{dir}/plain.mp4")));
    assert_eq!(found(&mut shelf(Some(CaptureKind::Video), &all, &[]), 10), None);
    assert_eq!(
        found(&mut shelf(Some(CaptureKind::Smooth), &all, &[]), 500),
        Some(format!("{dir}/timelapse.mp4"))
    );
    assert_eq!(
        found(&mut shelf(Some(CaptureKind::Park), &all, &[]), 0),
        Some(format!("{dir}/timelapse.mp4"))
    );
    assert_eq!(found(&mut shelf(None, &all, &[]), 10), None);
    // The older layout, all in one directory.
    let mut tap = shelf(Some(CaptureKind::Park), &["captures/9_x_plain"], &[]);
    assert_eq!(
        found(&mut tap, 10),
        Some("captures/9_x_plain/timelapse.mp4".to_string())
    );
    assert_eq!(default_fps(), 10);
    let bad = capture_video(&mut shelf(None, &[], &[]), &owner(), ".evil", "cam", 1, &cams());
    assert_eq!(bad.unwrap_err().error, "invalid capture path");
}

#[test]
fn the_still_of_a_run_is_found_or_taken() {
    let all = ["captures/a1/9_x_plain", "captures/a1/9_x_plain/ext-0"];
    let mut tap = shelf(
        Some(CaptureKind::Video),
        &all,
        &["captures/a1/9_x_plain/ext-0/plain.mjpeg"],
    );
    assert_eq!(
        capture_thumb(&mut tap, &owner(), "9_x_plain", "ext-0").unwrap(),
        Some("captures/a1/9_x_plain/ext-0/thumb.jpg".to_string())
    );
    let mut tap = shelf(Some(CaptureKind::Video), &all, &[]);
    assert_eq!(
        capture_thumb(&mut tap, &owner(), "9_x_plain", "ext-0").unwrap(),
        None
    );
    let mut tap = shelf(Some(CaptureKind::Park), &all, &[]);
    assert_eq!(
        capture_thumb(&mut tap, &owner(), "9_x_plain", "ext-0").unwrap(),
        Some("captures/a1/9_x_plain/ext-0/park_000003.jpg".to_string())
    );
    assert!(capture_thumb(&mut tap, &owner(), "a/b", "ext-0").is_err());
    let gone: Task<Result<u8, String>> = Task::Done(Err("no picture".to_string()));
    assert_eq!(camera_answer(gone, "lost").unwrap_err().status, 502);
    let lost: Task<Result<u8, String>> = Task::Lost;
    assert_eq!(camera_answer(lost, "camera task failed").unwrap_err().status, 500);
}

// ── Parks ──

#[derive(Default)]
struct Camera {
    frames: Vec<u8>,
    chunk: usize,
    finds: Vec<u64>,
    last: Option<u64>,
    replace: bool,
    ready: bool,
    cancel: bool,
    broken: bool,
    disk: BTreeMap<String, String>,
    lines: Vec<String>,
}

fn park(idx: u64, replace: bool) -> Park {
    Park {
        idx,
        t: "2.5".to_string(),
        left_mass: "9000.0".to_string(),
        sharpness: "500.0".to_string(),
        confidence: "0.9".to_string(),
        replace,
    }
}

impl ParkPort for Camera {
    fn cancelled(&mut self) -> bool {
        self.cancel
    }
    fn read(&mut self, want: usize) -> Result<Vec<u8>, String> {
        let n = want.min(self.chunk).min(self.frames.len());
        Ok(self.frames.drain(..n).collect())
    }
    fn detect(&mut self, _frame: &Vec<u8>, idx: u64) -> Option<Park> {
        if self.finds.contains(&idx) {
            Some(park(idx, self.replace))
        } else {
            None
        }
    }
    fn flush(&mut self) -> Option<Park> {
        self.last.take().map(|idx| park(idx, false))
    }
    fn await_ring(&mut self, _path: &str) -> bool {
        self.ready
    }
    fn copy(&mut self, from: &str, to: &str) -> Result<(), String> {
        if self.broken {
            return Err("disk full".to_string());
        }
        self.disk.insert(to.to_string(), from.to_string());
        Ok(())
    }
    fn rename(&mut self, from: &str, to: &str) -> Result<(), String> {
        let v = self.disk.remove(from).ok_or("gone")?;
        self.disk.insert(to.to_string(), v);
        Ok(())
    }
    fn append(&mut self, _path: &str, line: &str) -> Result<(), String> {
        self.lines.push(line.to_string());
        Ok(())
    }
}

#[test]
fn writer_writes_latest_and_indexed_and_jsonl() {
    let mut tap = ParkTap::new(Camera::default());
    let mut w = ParkWriter::new("out");
    assert_eq!(w.write(&mut tap, &park(3, false), "ring/a.jpg").unwrap(), 0);
    assert_eq!(w.emitted(), 1);
    let c = tap.into_port();
    assert_eq!(c.disk["out/latest_park.jpg"], "ring/a.jpg");
    assert_eq!(c.disk["out/park_000000.jpg"], "ring/a.jpg");
    assert_eq!(c.disk.len(), 2, "the copy beside it was moved");
    assert_eq!(
        c.lines,
        vec![
            "{\"confidence\":0.9,\"idx\":3,\"left_mass\":9000.0,\"n\":0,\"replace\":false,\"sharpness\":500.0,\"t\":2.5}"
        ]
    );
}

#[test]
fn a_replace_park_overwrites_the_previous_index() {
    let mut tap = ParkTap::new(Camera::default());
    let mut w = ParkWriter::new("out");
    // The first of a run replaces nothing, whatever it says.
    assert_eq!(w.write(&mut tap, &park(3, true), "weak").unwrap(), 0);
    let n = w.write(&mut tap, &park(5, true), "strong").unwrap();
    assert_eq!(n, 0, "replace reuses the previous index");
    assert_eq!(w.emitted(), 1, "replace does not add a frame");
    let c = tap.into_port();
    assert_eq!(c.disk["out/park_000000.jpg"], "strong", "overwritten");
    assert_eq!(c.disk["out/latest_park.jpg"], "strong");
    assert_eq!(c.lines.len(), 2);
}

#[test]
fn detect_stream_writes_one_park_and_maps_the_ring_index() {
    let mut c = Camera {
        chunk: 7,
        finds: vec![9],
        ready: true,
        ..Camera::default()
    };
    c.frames = vec![0; 21 * DECODE_W * DECODE_H];
    let mut tap = ParkTap::new(c);
    let mut writer = ParkWriter::new("out");
    let stats = detect_stream(&mut tap, DECODE_W * DECODE_H, "ring", &mut writer);
    assert_eq!(stats.parks, 1, "{stats:?}");
    assert_eq!(stats.dropped, 0);
    assert_eq!(stats.frames, 21, "all frames read");
    assert_eq!(writer.emitted(), 1);
    assert_eq!(
        tap.into_port().disk["out/park_000000.jpg"],
        "ring/full_000000009.jpg"
    );
}

#[test]
fn detect_stream_stops_promptly_on_cancel() {
    let c = Camera {
        chunk: 100,
        frames: vec![0; 50],
        cancel: true,
        ..Camera::default()
    };
    let mut writer = ParkWriter::new("out");
    let stats = detect_stream(&mut ParkTap::new(c), 10, "ring", &mut writer);
    assert_eq!(stats, ParkRunStats::default(), "cancel before reading any frame");
}

#[test]
fn a_park_that_cannot_be_written_is_counted() {
    let c = Camera {
        chunk: 100,
        frames: vec![0; 45],
        finds: vec![1],
        last: Some(3),
        ..Camera::default()
    };
    let mut writer = ParkWriter::new("out");
    let stats = detect_stream(&mut ParkTap::new(c), 10, "ring", &mut writer);
    assert_eq!((stats.frames, stats.parks, stats.dropped), (4, 0, 2));
    let c = Camera {
        chunk: 100,
        frames: vec![0; 20],
        finds: vec![0],
        ready: true,
        broken: true,
        ..Camera::default()
    };
    let stats = detect_stream(&mut ParkTap::new(c), 10, "ring", &mut writer);
    assert_eq!((stats.parks, stats.dropped), (0, 1));
}

#[test]
fn a_frame_that_replaces_another_is_no_further_park() {
    let c = Camera {
        chunk: 100,
        frames: vec![0; 40],
        finds: vec![1, 2],
        replace: true,
        ready: true,
        ..Camera::default()
    };
    let mut tap = ParkTap::new(c);
    let mut writer = ParkWriter::new("out");
    let stats = detect_stream(&mut tap, 10, "ring", &mut writer);
    assert_eq!((stats.frames, stats.parks, stats.dropped), (4, 1, 0));
    assert_eq!(writer.emitted(), 1);
    let c = tap.into_port();
    assert_eq!(c.lines.len(), 2, "both writes are in the index");
    assert_eq!(c.disk["out/park_000000.jpg"], "ring/full_000000002.jpg");
}
