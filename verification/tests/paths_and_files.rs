use bambu_serve::camera::{resolve_stream_url, ExternalCamera};
use bambu_serve::captures::{index_of, parse_parks_index, ParkEntry};
use bambu_serve::files::{
    extract_gcode, extract_thumbnail, fake_gcode, filled, preview_of, tiny_png,
};
use bambu_serve::park::{live_park_args, ring_jpeg_path};
use bambu_serve::paths::{capture_run_dir, captures_root, is_safe_segment, run_dir_epoch};
use std::io::Write;

#[test]
fn run_dir_epoch_orders_runs_by_recency() {
    assert_eq!(run_dir_epoch("captures/1718900000_benchy_segment"), 1718900000);
    assert!(
        run_dir_epoch("captures/1718900500_x_park") > run_dir_epoch("captures/1718900000_x_segment"),
        "a later epoch is more recent regardless of slot"
    );
    assert_eq!(run_dir_epoch("captures/not-a-run"), 0, "unparseable sorts oldest");
}

#[test]
fn is_safe_segment_blocks_traversal() {
    assert!(is_safe_segment("1781634785_cube_smooth"));
    assert!(is_safe_segment("ext-0"));
    assert!(is_safe_segment("default"));
    assert!(!is_safe_segment(""));
    assert!(!is_safe_segment(".."));
    assert!(!is_safe_segment(".hidden"));
    assert!(!is_safe_segment("a/b"));
    assert!(!is_safe_segment("a\\b"));
}

#[test]
fn only_the_default_printer_inherits_the_pre_namespacing_captures() {
    assert_eq!(captures_root("a1mini"), "captures/a1mini");
    assert_eq!(captures_root("x1c"), "captures/x1c");
    assert_eq!(
        capture_run_dir("a1mini", true, "no-such-run", false),
        "captures/no-such-run",
        "the default printer can still play a run recorded before the split"
    );
    assert_eq!(
        capture_run_dir("x1c", false, "no-such-run", false),
        "captures/x1c/no-such-run",
        "another printer must never resolve into the legacy root"
    );
}

#[test]
fn resolve_stream_url_only_for_ext_with_a_stream() {
    let cams: Vec<ExternalCamera<u8, u8>> = vec![
        ExternalCamera::new(
            Some("a".to_string()),
            "http://x/snap".to_string(),
            Some("http://x/stream".to_string()),
            0,
        ),
        ExternalCamera::new(None, "http://y/snap".to_string(), None, 1),
    ];
    assert_eq!(
        resolve_stream_url("ext-0", &cams).as_deref(),
        Some("http://x/stream")
    );
    assert_eq!(resolve_stream_url("ext-1", &cams), None); // snapshot-only
    assert_eq!(resolve_stream_url("ext-9", &cams), None); // out of range
    assert_eq!(resolve_stream_url("internal", &cams), None);
    assert_eq!(resolve_stream_url("bogus", &cams), None);
}

#[test]
fn parse_parks_index_dedupes_by_n_keeps_the_replace_and_sorts() {
    let jsonl = "{\"n\":1,\"idx\":20,\"t\":5.0,\"confidence\":0.70,\"replace\":false}\n\
         {\"n\":0,\"idx\":10,\"t\":2.5,\"confidence\":0.80,\"replace\":false}\n\
         {\"n\":1,\"idx\":22,\"t\":5.6,\"confidence\":0.95,\"replace\":true}\n\
         not json\n\
         \n";
    let idx = parse_parks_index(jsonl);
    assert_eq!(idx.len(), 2, "two distinct frames: {idx:?}");
    assert_eq!(idx[0].n, 0, "sorted by n");
    assert_eq!(idx[1].n, 1);
    assert_eq!(
        idx[1].confidence.as_deref(),
        Some("0.95"),
        "the replace's stronger metadata wins"
    );
    assert_eq!(idx[1].t.as_deref(), Some("5.6"));
}

#[test]
fn extracts_plate_thumbnail_from_a_3mf_zip() {
    let png = tiny_png();
    let mut buf = Vec::new();
    {
        let mut zw = zip::ZipWriter::new(std::io::Cursor::new(&mut buf));
        zw.start_file::<_, ()>("Metadata/plate_1.png", zip::write::FileOptions::default())
            .unwrap();
        zw.write_all(&png).unwrap();
        zw.finish().unwrap();
    }
    assert_eq!(extract_thumbnail(&buf, 1).unwrap(), Some(png));
    assert_eq!(extract_thumbnail(&buf, 2).unwrap(), None); // no plate 2
}

#[test]
fn extracts_plate_gcode_from_a_3mf_zip() {
    let mut buf = Vec::new();
    {
        let mut zw = zip::ZipWriter::new(std::io::Cursor::new(&mut buf));
        zw.start_file::<_, ()>("Metadata/plate_1.gcode", zip::write::FileOptions::default())
            .unwrap();
        zw.write_all(b"G1 X0 Y0\nG1 X10 Y10 E1\n").unwrap();
        zw.finish().unwrap();
    }
    assert!(extract_gcode(&buf, 1)
        .unwrap()
        .unwrap()
        .starts_with(b"G1 X0 Y0"));
    assert_eq!(extract_gcode(&buf, 2).unwrap(), None); // no plate 2
    assert!(extract_gcode(b"no archive", 1).is_err());
}

#[test]
fn fake_gcode_is_parseable_extruding_toolpath() {
    let g = String::from_utf8(fake_gcode().into_bytes()).unwrap();
    assert!(g.contains("G1 X30.0 Y10.0 E"));
}

#[test]
fn live_park_args_tees_synced_gray_and_full_outputs() {
    let args = live_park_args("http://cam/stream", "/ring", "4", 64, 36);
    let joined = args.join(" ");
    assert!(joined.contains("-f mpjpeg -i http://cam/stream"), "{joined}");
    assert!(joined.contains("split=2[full][det]"), "one input, two outputs: {joined}");
    assert!(joined.contains("scale=64:36,format=gray"), "detection stream: {joined}");
    assert!(joined.contains("rawvideo pipe:1"), "{joined}");
    assert!(
        joined.trim_end().ends_with("/ring/full_%09d.jpg"),
        "full-res ring: {joined}"
    );
    assert!(joined.contains("fps=4,"), "{joined}");
    assert_eq!(ring_jpeg_path("/ring", 12), "/ring/full_000000012.jpg");
}

#[test]
fn the_last_line_on_a_frame_counts() {
    let frame = |n: u64, t: &str| {
        Some(ParkEntry {
            n,
            t: Some(t.to_string()),
            confidence: None,
        })
    };
    let index = index_of(&vec![frame(3, "9.0"), None, frame(1, "1.0"), frame(3, "9.5")]);
    let told: Vec<(u64, &str)> = index.iter().map(|e| (e.n, e.t.as_deref().unwrap())).collect();
    assert_eq!(told, vec![(1, "1.0"), (3, "9.5")]);
    assert!(index_of(&vec![None]).is_empty());
}

#[test]
fn the_small_preview_stands_in_for_an_absent_one() {
    let full = || Ok(Some(vec![1u8]));
    let small = || Ok(Some(vec![2u8]));
    assert_eq!(preview_of(full(), small()), full());
    assert_eq!(preview_of(Ok(None), small()), small());
    assert_eq!(preview_of(Ok(Some(vec![])), small()), small());
    assert_eq!(preview_of(Ok(None), Ok(Some(vec![]))), Ok(None));
    assert_eq!(preview_of(Err("broken".to_string()), small()), Err("broken".to_string()));
    assert_eq!(filled(Ok(Some(vec![]))), Ok(None));
}
