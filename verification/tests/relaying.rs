use bambu_serve::camerad::{
    pump_mjpeg, snapshot_step, AuthInput, CameraRelay, FrameAt, MjpegPort, MjpegTap, SnapshotStep,
    ViewerPort, ViewerTap,
};
use bambu_serve::detect::{
    answer_one, ProbeInput, ProbePort, ProbeTap, ProxyDetect, SyntheticDetect,
};
use bambu_serve::doom::{
    describe, describe_parts, keyboard, press_line, pump_engine, EnginePort, EngineTap, Exactly,
    Hold, KeyInput, KeyPort, KeyTap, Record, Vitals,
};
use bambu_serve::emulate::{
    pump_one, serve_client, ClientInput, ClientPort, ClientTap, Fanout, PumpPort, PumpTap, Response,
    Upstream, MAX_PACKET,
};
use bambu_serve::files::FileEntry;
use bambu_serve::ftp_control::{SessionPort, SessionTap};
use bambu_serve::ftp_lines::{read_limit, ControlLines, MAX_LINE};
use bambu_serve::ftpd::{
    Arrival, Bound, FtpAction, FtpPort, FtpRelay, FtpReply, FtpTap, PassiveKind, Work,
};
use bambu_serve::live::{follow_one, Feed, FeedPort, FeedTap};

// ── One client ──

struct Line {
    inputs: Vec<ClientInput>,
    limits: Vec<Option<u64>>,
    keep_alive: u16,
    wants: bool,
    response: Option<Response>,
    wrote: Vec<Vec<u8>>,
    forwarded: Vec<String>,
    flushes: usize,
}

fn line(inputs: Vec<ClientInput>) -> Line {
    Line {
        inputs,
        limits: vec![],
        keep_alive: 0,
        wants: true,
        response: None,
        wrote: vec![],
        forwarded: vec![],
        flushes: 0,
    }
}

impl ClientPort for Line {
    fn keep_alive(&mut self) -> u16 {
        self.keep_alive
    }
    fn next(&mut self, limit_ms: Option<u64>) -> ClientInput {
        self.limits.push(limit_ms);
        if self.inputs.is_empty() {
            ClientInput::Closed
        } else {
            self.inputs.remove(0)
        }
    }
    /// A packet is three bytes long.
    fn decode(&mut self, buf: &Vec<u8>) -> Result<Option<usize>, String> {
        if buf.first() == Some(&0xff) {
            return Err("malformed".to_string());
        }
        Ok(if buf.len() >= 3 { Some(3) } else { None })
    }
    fn handle(&mut self) -> Response {
        self.response.take().unwrap_or(Response {
            send: vec![vec![1]],
            upstream: vec!["req".to_string()],
            close: false,
        })
    }
    fn rewrite(&mut self, payload: &str) -> String {
        format!("{payload}#7")
    }
    fn forward(&mut self, payload: &str) {
        self.forwarded.push(payload.to_string());
    }
    fn write(&mut self, bytes: &Vec<u8>) -> Result<(), String> {
        self.wrote.push(bytes.clone());
        Ok(())
    }
    fn flush(&mut self) -> Result<(), String> {
        self.flushes += 1;
        Ok(())
    }
    fn wants_reports(&mut self) -> bool {
        self.wants
    }
    fn snapshot(&mut self) -> Option<Vec<u8>> {
        Some(vec![9, 9])
    }
}

#[test]
fn packets_are_taken_out_whole_and_requests_are_renumbered() {
    let mut tap = ClientTap::new(line(vec![
        ClientInput::Bytes(vec![0, 0]),
        ClientInput::Bytes(vec![0, 0, 0, 0, 5]),
        ClientInput::Bytes(vec![]),
    ]));
    assert_eq!(serve_client(&mut tap, 1), Ok(()));
    let l = tap.into_port();
    assert_eq!(l.wrote, vec![vec![1], vec![1]]);
    assert_eq!(l.forwarded, vec!["req#7", "req#7"]);
    assert_eq!(l.flushes, 2);
}

#[test]
fn a_client_that_misbehaves_is_dropped() {
    let mut l = line(vec![ClientInput::Silent]);
    l.keep_alive = 30;
    let mut tap = ClientTap::new(l);
    assert_eq!(
        serve_client(&mut tap, 1),
        Err("silent for more than 1.5× the 30s keep-alive".to_string())
    );
    assert_eq!(tap.into_port().limits, vec![Some(45_000)]);
    let huge = line(vec![ClientInput::Bytes(vec![0; MAX_PACKET + 1])]);
    assert_eq!(
        serve_client(&mut ClientTap::new(huge), 1),
        Err("client sent more than 4194304 bytes without a complete packet".to_string())
    );
    let bad = line(vec![ClientInput::Bytes(vec![0xff])]);
    assert_eq!(
        serve_client(&mut ClientTap::new(bad), 1),
        Err("malformed".to_string())
    );
    let gone = line(vec![ClientInput::ReadFailed("reset".to_string())]);
    assert_eq!(
        serve_client(&mut ClientTap::new(gone), 1),
        Err("reset".to_string())
    );
}

#[test]
fn a_report_reaches_only_the_client_it_is_for() {
    let reports = || {
        vec![
            ClientInput::Report(Fanout::All(vec![1])),
            ClientInput::Report(Fanout::One(7, vec![2])),
            ClientInput::Report(Fanout::One(8, vec![3])),
            ClientInput::Lagged(5),
        ]
    };
    let mut tap = ClientTap::new(line(reports()));
    serve_client(&mut tap, 7).unwrap();
    assert_eq!(tap.into_port().wrote, vec![vec![1], vec![2], vec![9, 9]]);
    let mut quiet = line(reports());
    quiet.wants = false;
    let mut tap = ClientTap::new(quiet);
    serve_client(&mut tap, 7).unwrap();
    assert!(tap.into_port().wrote.is_empty(), "it asked for no reports");
}

#[test]
fn a_closing_packet_ends_the_connection() {
    let mut l = line(vec![
        ClientInput::Bytes(vec![0, 0, 0, 0, 0, 0]),
        ClientInput::Bytes(vec![0, 0, 0]),
    ]);
    l.response = Some(Response {
        send: vec![vec![4]],
        upstream: vec![],
        close: true,
    });
    let mut tap = ClientTap::new(l);
    serve_client(&mut tap, 1).unwrap();
    assert_eq!(tap.into_port().wrote, vec![vec![4]]);
}

struct Pump {
    inputs: Vec<Upstream>,
    did: Vec<String>,
}

impl PumpPort for Pump {
    fn recv(&mut self) -> Upstream {
        self.inputs.remove(0)
    }
    fn apply(&mut self) {
        self.did.push("apply".to_string());
    }
    fn route(&mut self) -> Option<u64> {
        self.did.push("route".to_string());
        Some(3)
    }
    fn send(&mut self, to: Option<u64>) {
        self.did.push(format!("send {to:?}"));
    }
}

#[test]
fn a_report_is_kept_before_it_is_routed() {
    let mut tap = PumpTap::new(Pump {
        inputs: vec![Upstream::Lagged, Upstream::Report, Upstream::Closed],
        did: vec![],
    });
    assert!(pump_one(&mut tap));
    assert!(pump_one(&mut tap));
    assert!(!pump_one(&mut tap));
}

struct Reports {
    inputs: Vec<(Feed, bool)>,
    report: bool,
    applied: usize,
}

impl FeedPort for Reports {
    fn recv(&mut self) -> Feed {
        let (f, r) = self.inputs.remove(0);
        self.report = r;
        f
    }
    fn is_status_report(&mut self) -> bool {
        self.report
    }
    fn apply(&mut self) {
        self.applied += 1;
    }
    fn publish(&mut self) -> bool {
        self.applied < 2
    }
}

#[test]
fn answers_to_commands_do_not_reach_the_state() {
    let mut tap = FeedTap::new(Reports {
        inputs: vec![
            (Feed::Message, false),
            (Feed::Message, true),
            (Feed::Lagged, false),
            (Feed::Message, true),
        ],
        report: false,
        applied: 0,
    });
    assert!(follow_one(&mut tap));
    assert!(follow_one(&mut tap));
    assert!(follow_one(&mut tap));
    assert!(!follow_one(&mut tap), "no one is left to see it");
}

// ── The camera port ──

struct Stream {
    boundary: bool,
    chunks: Vec<Vec<u8>>,
    shown: Vec<Vec<u8>>,
}

impl MjpegPort for Stream {
    fn has_boundary(&mut self, _content_type: &str) -> bool {
        self.boundary
    }
    fn closed(&mut self) -> bool {
        false
    }
    /// A frame ends with a zero.
    fn next_frame(&mut self, buf: &Vec<u8>) -> Result<Option<FrameAt>, String> {
        Ok(buf.iter().position(|b| *b == 0).map(|i| FrameAt {
            start: 0,
            end: i,
            used: i + 1,
        }))
    }
    fn is_jpeg(&mut self, frame: &Vec<u8>) -> bool {
        frame.first() == Some(&0xff)
    }
    fn publish(&mut self, frame: &Vec<u8>) {
        self.shown.push(frame.clone());
    }
    fn read(&mut self) -> Result<Vec<u8>, String> {
        if self.chunks.is_empty() {
            Ok(vec![])
        } else {
            Ok(self.chunks.remove(0))
        }
    }
}

#[test]
fn a_stream_becomes_whole_frames() {
    let mut tap = MjpegTap::new(Stream {
        boundary: true,
        chunks: vec![vec![0xff, 1], vec![2, 0, 7, 7, 0, 0xff], vec![3, 0]],
        shown: vec![],
    });
    assert_eq!(pump_mjpeg(&mut tap, "multipart/x; boundary=f", 100), Ok(()));
    assert_eq!(tap.into_port().shown, vec![vec![0xff, 1, 2], vec![0xff, 3]]);
    let mut tap = MjpegTap::new(Stream {
        boundary: false,
        chunks: vec![],
        shown: vec![],
    });
    assert_eq!(
        pump_mjpeg(&mut tap, "text/html", 100),
        Err(
            "content-type \"text/html\" names no multipart boundary; is this a stream URL?"
                .to_string()
        )
    );
    let mut tap = MjpegTap::new(Stream {
        boundary: true,
        chunks: vec![vec![1; 90], vec![1; 90]],
        shown: vec![],
    });
    assert_eq!(
        pump_mjpeg(&mut tap, "multipart/x", 100),
        Err("no frame boundary in 180 bytes; the source is not the stream it claimed".to_string())
    );
}

#[test]
fn only_a_picture_is_shown() {
    assert!(matches!(
        snapshot_step(Ok(vec![1]), true),
        SnapshotStep::Publish(f) if f == vec![1]
    ));
    assert!(matches!(
        snapshot_step(Ok(vec![1, 2]), false),
        SnapshotStep::Say(t) if t.contains("source returned 2 bytes that are not a JPEG")
    ));
    assert!(matches!(
        snapshot_step(Err("x".to_string()), true),
        SnapshotStep::Say(t) if t == "emulate-camera: snapshot failed: x"
    ));
}

struct Viewer {
    bytes: Vec<Vec<u8>>,
    late: bool,
    frames: Vec<Option<Vec<u8>>>,
    wrote: Vec<Vec<u8>>,
    gone_after: usize,
}

impl ViewerPort for Viewer {
    fn parse_auth(&mut self, buf: &Vec<u8>) -> Result<Option<String>, String> {
        Ok(if buf.len() < 4 {
            None
        } else {
            Some(String::from_utf8(buf.clone()).unwrap())
        })
    }
    fn receive(&mut self) -> AuthInput {
        if self.late {
            return AuthInput::Late;
        }
        if self.bytes.is_empty() {
            AuthInput::Bytes(vec![])
        } else {
            AuthInput::Bytes(self.bytes.remove(0))
        }
    }
    fn latest(&mut self) -> Option<Vec<u8>> {
        self.frames.remove(0)
    }
    fn write_frame(&mut self, frame: &Vec<u8>) -> Result<(), String> {
        if self.wrote.len() >= self.gone_after {
            return Err("broken pipe".to_string());
        }
        self.wrote.push(frame.clone());
        Ok(())
    }
    fn changed(&mut self) -> bool {
        !self.frames.is_empty()
    }
}

fn viewer(bytes: Vec<Vec<u8>>) -> Viewer {
    Viewer {
        bytes,
        late: false,
        frames: vec![None, Some(vec![1]), Some(vec![2, 2])],
        wrote: vec![],
        gone_after: 100,
    }
}

#[test]
fn a_viewer_is_let_in_by_the_access_code_alone() {
    let relay = CameraRelay::new("1357");
    let mut tap = ViewerTap::new(viewer(vec![b"1".to_vec(), b"3".to_vec(), b"57".to_vec()]));
    assert_eq!(relay.serve_one(&mut tap), Ok(2));
    assert_eq!(tap.into_port().wrote, vec![vec![1], vec![2, 2]]);
    let mut tap = ViewerTap::new(viewer(vec![b"0000".to_vec()]));
    assert_eq!(relay.serve_one(&mut tap), Err("wrong access code".to_string()));
    assert!(tap.into_port().wrote.is_empty());
    let mut tap = ViewerTap::new(viewer(vec![vec![0; 81]]));
    assert_eq!(
        relay.serve_one(&mut tap),
        Err("authentication packet is longer than 80 bytes".to_string())
    );
    assert_eq!(relay.serve_one(&mut ViewerTap::new(viewer(vec![]))), Ok(0));
    let mut v = viewer(vec![]);
    v.late = true;
    assert_eq!(
        relay.serve_one(&mut ViewerTap::new(v)),
        Err("no authentication within 10s".to_string())
    );
    let mut v = viewer(vec![b"1357".to_vec()]);
    v.gone_after = 1;
    assert_eq!(
        relay.serve_one(&mut ViewerTap::new(v)),
        Err("after 1 frame(s), 2 bytes".to_string())
    );
}

// ── The port that is knocked on first ──

struct Knock {
    chunks: Vec<Vec<u8>>,
    connects: Result<(), String>,
    known: bool,
    wrote: Vec<Vec<u8>>,
}

impl ProbePort for Knock {
    fn connect(&mut self, _addr: &str) -> Result<(), String> {
        self.connects.clone()
    }
    fn decode(&mut self, buf: &Vec<u8>) -> Result<bool, String> {
        Ok(buf.last() == Some(&0xa7))
    }
    fn receive(&mut self) -> ProbeInput {
        if self.chunks.is_empty() {
            ProbeInput::Bytes(vec![])
        } else {
            ProbeInput::Bytes(self.chunks.remove(0))
        }
    }
    fn recognise(&mut self) -> Result<(), String> {
        if self.known {
            Ok(())
        } else {
            Err("{\"login\":{\"command\":\"bind\"}}".to_string())
        }
    }
    fn answer(&mut self) -> Result<Vec<u8>, String> {
        Ok(vec![5])
    }
    fn write(&mut self, bytes: &Vec<u8>) -> Result<(), String> {
        self.wrote.push(bytes.clone());
        Ok(())
    }
    fn flush(&mut self) -> Result<(), String> {
        Ok(())
    }
}

fn knock(chunks: Vec<Vec<u8>>, known: bool) -> Knock {
    Knock {
        chunks,
        connects: Ok(()),
        known,
        wrote: vec![],
    }
}

#[test]
fn only_the_enquiry_is_answered() {
    let mut tap = ProbeTap::new(knock(vec![vec![1], vec![2, 0xa7]], true));
    assert_eq!(answer_one(&mut tap, 100), Ok(()));
    assert_eq!(tap.into_port().wrote, vec![vec![5]]);
    let mut tap = ProbeTap::new(knock(vec![vec![0xa7]], false));
    assert_eq!(
        answer_one(&mut tap, 100),
        Err("not a detect enquiry: {\"login\":{\"command\":\"bind\"}}".to_string())
    );
    assert!(tap.into_port().wrote.is_empty());
    assert_eq!(answer_one(&mut ProbeTap::new(knock(vec![], true)), 100), Ok(()));
    assert_eq!(
        answer_one(&mut ProbeTap::new(knock(vec![vec![0; 11]], true)), 10),
        Err("probe exceeded 10 bytes".to_string())
    );
}

#[test]
fn the_printer_owes_an_answer() {
    let proxy = ProxyDetect::new("10.0.0.1", 3000);
    let mut tap = ProbeTap::new(knock(vec![vec![0xa7]], true));
    assert_eq!(proxy.detect(&mut tap, 100), Ok(()));
    assert_eq!(
        proxy.detect(&mut ProbeTap::new(knock(vec![vec![1]], true)), 100),
        Err("the printer closed the probe without answering".to_string())
    );
    assert_eq!(
        proxy.detect(&mut ProbeTap::new(knock(vec![vec![1; 20]], true)), 10),
        Err("the printer's reply exceeded 10 bytes".to_string())
    );
    let mut k = knock(vec![], true);
    k.connects = Err("refused".to_string());
    assert_eq!(
        proxy.detect(&mut ProbeTap::new(k), 10),
        Err("refused".to_string())
    );
    let s = SyntheticDetect {
        serial: "S".to_string(),
        model: "N1".to_string(),
    };
    let a = s.detect(None);
    assert_eq!((a.sequence_id.as_str(), a.version.as_str()), ("0", "00.00.00.00"));
    assert_eq!(s.detect(Some("20004".to_string())).sequence_id, "20004");
}

// ── The game ──

#[test]
fn a_request_is_described_in_one_line() {
    // A jog's param is three lines of G-code, and a log line that is three lines is
    // three log lines.
    let described = describe(
        "{\"print\":{\"command\":\"gcode_line\",\"param\":\"G91\\nG1 Y10\\nG90\"}}",
    );
    assert!(!described.contains('\n'), "{described}");
    assert!(described.contains("print.gcode_line"), "{described}");
    assert_eq!(
        describe("{\"system\":{\"command\":\"ledctrl\"}}"),
        "system.ledctrl"
    );
    assert_eq!(describe("{}"), "an empty request");
    assert_eq!(
        describe_parts(&Some("print".to_string()), &None, &Some("G28".to_string())),
        "print.? \"G28\""
    );
    assert_eq!(press_line("x", &vec![]), "emulate-doom: x — nothing bound");
    let held = vec![
        Hold {
            key: "fire".to_string(),
            ms: 30,
        },
        Hold {
            key: "back".to_string(),
            ms: 5,
        },
    ];
    assert_eq!(
        press_line("x", &held),
        "emulate-doom: x — fire for 30ms, back for 5ms"
    );
}

struct Engine {
    pipe: Vec<u8>,
    shown: Vec<Vec<u8>>,
    vitals: Option<Vitals>,
    said: Vec<String>,
}

impl EnginePort for Engine {
    fn closed(&mut self) -> bool {
        false
    }
    fn read_exact(&mut self, n: usize) -> Exactly {
        if self.pipe.len() < n {
            Exactly::Ended("unexpected end".to_string())
        } else {
            Exactly::Whole(self.pipe.drain(..n).collect())
        }
    }
    fn classify(&mut self, header: &Vec<u8>) -> Result<Record, String> {
        match header[0] {
            b'F' => Ok(Record::Frame {
                len: header[1] as usize,
            }),
            b'S' => Ok(Record::Status {
                len: header[1] as usize,
            }),
            _ => Err("neither".to_string()),
        }
    }
    fn is_jpeg(&mut self, frame: &Vec<u8>) -> bool {
        frame.first() == Some(&0xff)
    }
    fn publish(&mut self, frame: &Vec<u8>) {
        self.shown.push(frame.clone());
    }
    fn parse_vitals(&mut self, payload: &Vec<u8>) -> Vitals {
        Vitals {
            health: Some(payload[0] as i64),
            armour: None,
        }
    }
    fn keep_vitals(&mut self, v: Vitals) {
        self.vitals = Some(v);
    }
    fn say(&mut self, text: &str) {
        self.said.push(text.to_string());
    }
}

fn record(kind: u8, body: &[u8]) -> Vec<u8> {
    let mut r = vec![0; 16];
    r[0] = kind;
    r[1] = body.len() as u8;
    r.extend_from_slice(body);
    r
}

#[test]
fn pictures_and_the_player_share_one_pipe() {
    let mut pipe = record(b'S', &[100]);
    pipe.extend(record(b'F', &[0xff, 1]));
    pipe.extend(record(b'F', b"not a picture"));
    pipe.extend(record(b'S', &[37]));
    let mut tap = EngineTap::new(Engine {
        pipe,
        shown: vec![],
        vitals: None,
        said: vec![],
    });
    assert_eq!(pump_engine(&mut tap), Ok(()));
    let e = tap.into_port();
    assert_eq!(e.shown, vec![vec![0xff, 1]]);
    assert_eq!(e.vitals.unwrap().health, Some(37), "the newest reading wins");
    assert_eq!(
        e.said,
        vec![
            "emulate-doom: the engine reports the player — health is the nozzle temperature from \
             here on",
            "emulate-doom: first frame from the engine, 2 bytes",
            "emulate-doom: the engine sent 13 bytes that are not a JPEG; skipped",
        ]
    );
    let mut tap = EngineTap::new(Engine {
        pipe: record(b'?', &[0]),
        shown: vec![],
        vitals: None,
        said: vec![],
    });
    assert_eq!(pump_engine(&mut tap), Err("neither".to_string()));
    let mut cut = record(b'F', &[0xff, 1, 2]);
    cut.pop();
    let mut tap = EngineTap::new(Engine {
        pipe: cut,
        shown: vec![],
        vitals: None,
        said: vec![],
    });
    assert_eq!(pump_engine(&mut tap), Err("unexpected end".to_string()));
}

struct Keys {
    inputs: Vec<KeyInput>,
    down_until: Option<u64>,
    clock: u64,
    sent: Vec<u8>,
    waits: Vec<Option<u64>>,
    deaf: bool,
    said: Vec<String>,
}

impl KeyPort for Keys {
    fn next_deadline(&mut self) -> Option<u64> {
        self.down_until
    }
    fn now(&mut self) -> u64 {
        self.clock
    }
    fn receive(&mut self, wait_ms: Option<u64>) -> KeyInput {
        self.waits.push(wait_ms);
        self.clock += wait_ms.unwrap_or(0);
        if self.inputs.is_empty() {
            KeyInput::Gone
        } else {
            self.inputs.remove(0)
        }
    }
    fn press(&mut self, now: u64, hold: &Hold) -> Vec<Vec<u8>> {
        self.down_until = Some(now + hold.ms);
        vec![vec![1, 5]]
    }
    fn expire(&mut self, _now: u64) -> Vec<Vec<u8>> {
        self.down_until = None;
        vec![vec![0, 5]]
    }
    fn release_all(&mut self) -> Vec<Vec<u8>> {
        self.down_until = None;
        vec![vec![0, 5]]
    }
    fn send(&mut self, bytes: &Vec<u8>) -> Result<(), String> {
        if self.deaf {
            return Err("broken pipe".to_string());
        }
        self.sent.extend_from_slice(bytes);
        Ok(())
    }
    fn say(&mut self, text: &str) {
        self.said.push(text.to_string());
    }
}

fn keys(inputs: Vec<KeyInput>) -> Keys {
    Keys {
        inputs,
        down_until: None,
        clock: 100,
        sent: vec![],
        waits: vec![],
        deaf: false,
        said: vec![],
    }
}

#[test]
fn a_press_and_its_release_both_reach_the_engine() {
    let back = Hold {
        key: "back".to_string(),
        ms: 30,
    };
    let mut tap = KeyTap::new(keys(vec![KeyInput::Press(back), KeyInput::Timeout]));
    keyboard(&mut tap);
    let k = tap.into_port();
    assert_eq!(k.sent, vec![1, 5, 0, 5]);
    assert_eq!(k.waits, vec![None, Some(30), None]);
}

#[test]
fn everything_is_released_when_the_relay_goes_away() {
    let fire = Hold {
        key: "fire".to_string(),
        ms: 60_000,
    };
    let mut tap = KeyTap::new(keys(vec![KeyInput::Press(fire)]));
    keyboard(&mut tap);
    assert_eq!(
        tap.into_port().sent,
        vec![1, 5, 0, 5],
        "the press, then the release the shutdown owes it"
    );
}

#[test]
fn an_engine_that_stops_listening_is_told_of() {
    let fire = Hold {
        key: "fire".to_string(),
        ms: 10,
    };
    let mut k = keys(vec![KeyInput::Press(fire)]);
    k.deaf = true;
    let mut tap = KeyTap::new(k);
    keyboard(&mut tap);
    let k = tap.into_port();
    assert!(k.sent.is_empty());
    assert_eq!(
        k.said,
        vec!["emulate-doom: the engine stopped listening; controls are dead"]
    );
}

// ── Files for clients ──

#[test]
fn commands_come_out_whole_however_they_are_cut() {
    let mut l = ControlLines::new();
    assert!(l.feed(b"USER bb").is_empty());
    assert_eq!(l.feed(b"lp\r\nPASS 1\r\n\r\nQU"), vec!["USER bblp", "PASS 1"]);
    assert_eq!(l.feed(b"IT\n"), vec!["QUIT"]);
    assert!(l.overlong().is_none());
    assert_eq!(l.feed(b"caf\xc3\xa9 \xff\n"), vec!["café \u{fffd}"]);
    assert_eq!(l.feed("STOR café \r\n".as_bytes()), vec!["STOR café"]);
    assert_eq!(l.feed(b"a\x01\x7f\n"), vec!["a\u{1}\u{7f}"]);
    l.feed(&vec![b'x'; MAX_LINE + 1]);
    assert_eq!(
        l.overlong().unwrap(),
        "client is holding 8193 bytes with no end of line in them"
    );
    assert_eq!(read_limit(false, 5), Some(5));
    assert_eq!(read_limit(true, 5), None);
}

#[derive(Default)]
struct Ftp {
    replies: Vec<(u16, String)>,
    arrivals: Vec<Arrival>,
    data: Vec<Vec<u8>>,
    staged: Vec<u8>,
    uploads: Vec<(String, Vec<u8>)>,
    refuses: bool,
    texts: Vec<String>,
    deleted: Vec<String>,
}

impl FtpPort for Ftp {
    fn reply(&mut self, code: u16, text: &str) -> Result<(), String> {
        self.replies.push((code, text.to_string()));
        Ok(())
    }
    fn bind(&mut self) -> Bound {
        Bound::Port(50_001)
    }
    fn keep(&mut self) {}
    fn accept(&mut self) -> Arrival {
        if self.arrivals.is_empty() {
            Arrival::TimedOut
        } else {
            self.arrivals.remove(0)
        }
    }
    fn secure(&mut self) -> Result<(), String> {
        Ok(())
    }
    fn stage(&mut self) -> Result<(), String> {
        self.staged.clear();
        Ok(())
    }
    fn read(&mut self) -> Result<Vec<u8>, String> {
        if self.data.is_empty() {
            Ok(vec![])
        } else {
            Ok(self.data.remove(0))
        }
    }
    fn append(&mut self, bytes: &[u8]) -> Result<(), String> {
        self.staged.extend_from_slice(bytes);
        Ok(())
    }
    fn flush(&mut self) -> Result<(), String> {
        Ok(())
    }
    fn shutdown(&mut self) -> Result<(), String> {
        Ok(())
    }
    fn send_staged(&mut self) -> Result<u64, String> {
        Ok(self.staged.len() as u64)
    }
    fn send_text(&mut self, body: &str) -> Result<(), String> {
        self.texts.push(body.to_string());
        Ok(())
    }
    fn upload(&mut self, remote: &str) -> Work<u64> {
        if self.refuses {
            return Ok(Err("disk full".to_string()));
        }
        self.uploads.push((remote.to_string(), self.staged.clone()));
        Ok(Ok(self.staged.len() as u64))
    }
    fn download(&mut self, remote: &str) -> Work<u64> {
        if remote == "/gone" {
            return Ok(Err("no such file".to_string()));
        }
        self.staged = b"plate".to_vec();
        Ok(Ok(5))
    }
    fn list(&mut self, _dir: &str, _names_only: bool) -> Work<Vec<String>> {
        Ok(Ok(vec!["one".to_string(), "two".to_string()]))
    }
    fn entries(&mut self, _dir: &str) -> Work<Vec<FileEntry>> {
        Ok(Ok(vec![FileEntry {
            name: "a.3mf".to_string(),
            is_dir: false,
            size: 77,
        }]))
    }
    fn delete(&mut self, path: &str) -> Work<()> {
        self.deleted.push(path.to_string());
        Ok(Ok(()))
    }
    fn rename(&mut self, _from: &str, _to: &str) -> Work<()> {
        Ok(Ok(()))
    }
    fn make_dir(&mut self, _path: &str) -> Work<()> {
        Ok(Ok(()))
    }
    fn remove_dir(&mut self, _path: &str) -> Work<()> {
        Ok(Ok(()))
    }
}

const LOCAL: Option<(u8, u8, u8, u8)> = Some((10, 0, 0, 9));

/// Run commands in turn; what the port saw.
fn converse(relay: &FtpRelay, port: Ftp, actions: Vec<FtpAction>) -> Ftp {
    let mut tap = FtpTap::new(port);
    let mut listening = false;
    for a in &actions {
        let closes = relay
            .run(&mut tap, a, &mut listening, LOCAL, &Some("10.0.0.5".to_string()))
            .unwrap();
        assert_eq!(closes, matches!(a, FtpAction::Close(_)));
    }
    tap.into_port()
}

fn from(host: &str) -> Arrival {
    Arrival::From(host.to_string())
}

#[test]
fn a_file_that_is_uploaded_lands_on_the_printer() {
    let relay = FtpRelay::new("12345678").with_pasv_ports(Some((50_000, 50_010)));
    assert_eq!(relay.access_code(), "12345678");
    assert_eq!(relay.pasv_ports(), Some((50_000, 50_010)));
    let port = Ftp {
        arrivals: vec![from("6.6.6.6"), from("10.0.0.5")],
        data: vec![b"solid ".to_vec(), b"cube".to_vec()],
        ..Ftp::default()
    };
    let seen = converse(
        &relay,
        port,
        vec![
            FtpAction::Passive(PassiveKind::Extended),
            FtpAction::Store {
                path: "/cube.3mf".to_string(),
            },
            FtpAction::Close(FtpReply {
                code: 221,
                text: "bye".to_string(),
            }),
        ],
    );
    assert_eq!(
        seen.uploads,
        vec![("/cube.3mf".to_string(), b"solid cube".to_vec())]
    );
    let codes: Vec<u16> = seen.replies.iter().map(|r| r.0).collect();
    assert_eq!(codes, vec![229, 150, 226, 221]);
    assert!(seen.replies[0].1.contains("50001"), "{:?}", seen.replies[0]);
}

#[test]
fn a_printer_that_refuses_an_upload_is_reported() {
    let port = Ftp {
        arrivals: vec![from("10.0.0.5")],
        data: vec![b"x".to_vec()],
        refuses: true,
        ..Ftp::default()
    };
    let seen = converse(
        &FtpRelay::new("c"),
        port,
        vec![
            FtpAction::Passive(PassiveKind::Classic),
            FtpAction::Store {
                path: "/x".to_string(),
            },
        ],
    );
    assert_eq!(seen.replies[0].0, 227);
    assert!(seen.replies[0].1.contains("10,0,0,9,195,81"), "{:?}", seen.replies[0]);
    assert!(seen.replies.last().unwrap().0 >= 500);
    assert!(seen.replies.last().unwrap().1.contains("disk full"));
}

#[test]
fn a_read_only_relay_serves_reads_and_refuses_writes() {
    let relay = FtpRelay::read_only("c");
    let port = Ftp {
        arrivals: vec![from("10.0.0.5"), from("10.0.0.5")],
        ..Ftp::default()
    };
    let seen = converse(
        &relay,
        port,
        vec![
            FtpAction::Passive(PassiveKind::Extended),
            FtpAction::List {
                path: "/".to_string(),
                names_only: true,
            },
            FtpAction::Delete {
                path: "/a.3mf".to_string(),
            },
            FtpAction::Size {
                path: "/a.3mf".to_string(),
            },
            FtpAction::Passive(PassiveKind::Extended),
            FtpAction::Store {
                path: "/x".to_string(),
            },
        ],
    );
    assert_eq!(seen.texts, vec!["one\r\ntwo\r\n"]);
    assert!(seen.deleted.is_empty() && seen.uploads.is_empty());
    let codes: Vec<u16> = seen.replies.iter().map(|r| r.0).collect();
    assert_eq!(codes, vec![229, 150, 226, 550, 213, 229, 550]);
    assert_eq!(seen.replies[4].1, "77");
}

#[test]
fn a_refused_transfer_leaves_exactly_one_reply() {
    let seen = converse(
        &FtpRelay::new("c"),
        Ftp::default(),
        vec![
            FtpAction::Retrieve {
                path: "/gone".to_string(),
            },
            FtpAction::Retrieve {
                path: "/plate".to_string(),
            },
            FtpAction::MakeDir {
                path: "/d".to_string(),
            },
            FtpAction::RemoveDir {
                path: "/d".to_string(),
            },
            FtpAction::Rename {
                from: "/a".to_string(),
                to: "/b".to_string(),
            },
            FtpAction::Size {
                path: "/none".to_string(),
            },
            FtpAction::Reply(FtpReply {
                code: 200,
                text: "ok".to_string(),
            }),
        ],
    );
    let codes: Vec<u16> = seen.replies.iter().map(|r| r.0).collect();
    assert_eq!(codes.len(), 7, "{codes:?}");
    assert_eq!(codes[0], 550);
    assert_eq!(codes[1], 425, "no data port was opened");
    assert_eq!(codes[6], 200);
}

struct Session(Vec<String>);

impl SessionPort for Session {
    fn handle(&mut self, line: &str) -> FtpAction {
        self.0.push(line.to_string());
        if line == "QUIT" {
            FtpAction::Close(FtpReply {
                code: 221,
                text: "bye".to_string(),
            })
        } else {
            FtpAction::Reply(FtpReply {
                code: 200,
                text: line.to_string(),
            })
        }
    }
}

#[test]
fn several_commands_in_one_read_are_all_answered() {
    let relay = FtpRelay::new("c");
    let mut tap = FtpTap::new(Ftp::default());
    let mut session = SessionTap::new(Session(vec![]));
    let mut lines = ControlLines::new();
    let mut listening = false;
    let mut hear = |chunk: &[u8]| {
        relay.hear(
            &mut tap,
            &mut session,
            &mut lines,
            chunk,
            &mut listening,
            LOCAL,
            &None,
        )
    };
    assert_eq!(hear(b"NOOP\r\nTYPE I\r\nPA"), Ok(false));
    assert_eq!(hear(b"SV\r\n"), Ok(false));
    assert_eq!(hear(b"QUIT\r\nNOOP\r\n"), Ok(true));
    assert!(hear(&vec![b'x'; MAX_LINE + 1]).is_err());
    assert_eq!(session.port().0, vec!["NOOP", "TYPE I", "PASV", "QUIT"]);
    let replies: Vec<String> = tap.into_port().replies.into_iter().map(|r| r.1).collect();
    assert_eq!(replies, vec!["NOOP", "TYPE I", "PASV", "bye"]);
}
