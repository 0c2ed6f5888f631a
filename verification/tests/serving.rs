use bambu_serve::assets::{asset_name, mime_for, page_for, Page};
use bambu_serve::camera::ExternalCamera;
use bambu_serve::emulator_start::{
    bind_failure, choose_camera, start_emulator, BindError, EmulateCamera, EmulateOpts, FrameSource,
    ListenPort, ListenTap, Listener,
};
use bambu_serve::net::{
    advertised_address, is_loopback, parse_ipv4, parse_pasv_ports, show_addr, show_quad,
};
use bambu_serve::serve::{
    exposure_warning, fake_tick, printers_list, refresh_interval, serve_plan, ServeOpts,
    ServeTarget, SourceKind,
};

fn target(name: &str, serial: &str, ip: &str) -> ServeTarget {
    ServeTarget {
        name: name.to_string(),
        serial: serial.to_string(),
        ip: ip.to_string(),
        model: "a1mini".to_string(),
        hook: None,
    }
}

const LIVE: ServeOpts = ServeOpts {
    fake: false,
    emulate: false,
};

#[test]
fn every_printer_is_served_and_the_first_is_the_default() {
    let plan = serve_plan(
        &vec![target("a1mini", "S1", "10.0.0.1"), target("Shop X", "S2", "10.0.0.2")],
        LIVE,
    )
    .unwrap();
    assert_eq!(plan.default, "a1mini");
    let list = printers_list(&plan);
    assert_eq!(list.len(), 2);
    assert_eq!(list[1].name, "Shop X");
    assert_eq!(list[1].id, "Shop-X");
    assert!(list[0].default && !list[1].default);
    assert!(plan.printers[0].legacy_captures && !plan.printers[1].legacy_captures);
    assert!(plan.printers[0].seeded_cameras && !plan.printers[1].seeded_cameras);
    assert_eq!(plan.printers[1].source, SourceKind::Live);
    assert!(!plan.unasked_fake);
}

#[test]
fn without_a_printer_made_up_data_is_served() {
    let plan = serve_plan(&vec![], LIVE).unwrap();
    assert_eq!(plan.default, "fake");
    assert!(plan.unasked_fake);
    assert_eq!(plan.printers[0].source, SourceKind::Ramping);
    let plan = serve_plan(
        &vec![target("a1mini", "S1", "10.0.0.1")],
        ServeOpts {
            fake: true,
            emulate: true,
        },
    )
    .unwrap();
    assert_eq!(plan.printers[0].source, SourceKind::Synthetic);
    assert_eq!(plan.printers[0].id, "a1mini");
    assert!(!plan.unasked_fake);
}

#[test]
fn printers_that_may_not_be_served_together_are_refused() {
    let emulate = ServeOpts {
        fake: false,
        emulate: true,
    };
    let err = serve_plan(&vec![], emulate).unwrap_err();
    assert!(err.starts_with("--emulate needs a printer"), "{err}");
    let two = vec![target("a", "S1", "1"), target("b", "S2", "2")];
    let err = serve_plan(&two, emulate).unwrap_err();
    assert!(err.starts_with("--emulate serves one printer"), "{err}");
    let err = serve_plan(&vec![target("a", "S1", "1"), target("b", "S1", "2")], LIVE).unwrap_err();
    assert_eq!(
        err,
        "profiles \"a\" and \"b\" are the same printer (same serial S1); serving both would open \
         two connections to it, which on an A1 disconnects them both"
    );
    let err = serve_plan(&vec![target("a", "S1", "1"), target("b", "S2", "1")], LIVE).unwrap_err();
    assert!(err.contains("(same address 1)"), "{err}");
    let err = serve_plan(&vec![target("A1", "S1", "1"), target("a1", "S2", "2")], LIVE).unwrap_err();
    assert!(
        err.contains("are addressed as \"A1\" and \"a1\", which name the same capture directory"),
        "{err}"
    );
}

#[test]
fn a_passive_range_is_read_or_refused() {
    assert_eq!(parse_pasv_ports("50000-50100"), Ok((50000, 50100)));
    assert_eq!(parse_pasv_ports(" 1 - 1 "), Ok((1, 1)));
    assert_eq!(
        parse_pasv_ports("50000"),
        Err("passive port range must look like 50000-50100, got \"50000\"".to_string())
    );
    assert_eq!(
        parse_pasv_ports("x-2"),
        Err("\"x\" is not a port number".to_string())
    );
    assert_eq!(
        parse_pasv_ports("2-65536"),
        Err("\"65536\" is not a port number".to_string())
    );
    assert_eq!(
        parse_pasv_ports("20-10"),
        Err("passive port range 20-10 is empty or starts at zero".to_string())
    );
    assert!(parse_pasv_ports("0-10").is_err());
}

#[test]
fn an_address_is_told_only_where_it_is_one() {
    assert_eq!(parse_ipv4("192.168.1.5"), Some((192, 168, 1, 5)));
    assert_eq!(show_quad((192, 168, 1, 5)), "192.168.1.5");
    for bad in ["192.168.1", "192.168.1.256", "192.168.01.5", "1.2.3.4.5", "", "::1", "a.b.c.d"] {
        assert_eq!(parse_ipv4(bad), None, "{bad}");
    }
    assert_eq!(advertised_address(None, "10.0.0.9"), Ok((10, 0, 0, 9)));
    assert_eq!(
        advertised_address(Some((1, 2, 3, 4)), "0.0.0.0"),
        Ok((1, 2, 3, 4))
    );
    let err = advertised_address(None, "0.0.0.0").unwrap_err();
    assert!(err.starts_with("--emulate-host 0.0.0.0 does not name an address"), "{err}");
    assert_eq!(show_addr("::1", 8883), "[::1]:8883");
    assert_eq!(show_addr("localhost", 80), "localhost:80");
    assert!(is_loopback("127.0.0.1") && is_loopback("::1") && !is_loopback("0.0.0.0"));
}

#[test]
fn serving_beyond_this_machine_is_warned_of() {
    assert_eq!(exposure_warning("localhost", "localhost:80", false), None);
    assert!(exposure_warning("0.0.0.0", "0.0.0.0:80", true)
        .unwrap()
        .contains("control requires the password"));
    assert!(exposure_warning("0.0.0.0", "0.0.0.0:80", false)
        .unwrap()
        .contains("is OPEN"));
    assert_eq!(refresh_interval(None, true), Some(20_000));
    assert_eq!(refresh_interval(None, false), None);
    assert_eq!(refresh_interval(Some(5), true), Some(5));
    assert_eq!(fake_tick(None), 1000);
}

// ── Presenting a printer ──

struct Net {
    taken: Vec<u16>,
    denied: bool,
    did: Vec<String>,
}

impl ListenPort for Net {
    fn identity(&mut self) -> Result<Option<String>, String> {
        Ok(Some("/certs".to_string()))
    }
    fn bind(&mut self, what: Listener, host: &str, port: u16) -> Result<(), BindError> {
        self.did.push(format!("bind {what:?} {host} {port}"));
        if self.taken.contains(&port) {
            return Err(BindError {
                denied: self.denied,
                text: "in use".to_string(),
            });
        }
        Ok(())
    }
    fn serve(&mut self, what: Listener) {
        self.did.push(format!("serve {what:?}"));
    }
    fn say(&mut self, text: &str) {
        self.did.push(format!("say {text}"));
    }
}

fn net(taken: &[u16]) -> ListenTap<Net> {
    ListenTap::new(Net {
        taken: taken.to_vec(),
        denied: false,
        did: Vec::new(),
    })
}

fn opts() -> EmulateOpts {
    EmulateOpts {
        host: "10.0.0.9".to_string(),
        port: 8883,
        ftp_port: Some(990),
        pasv_ports: Some("50000-50010".to_string()),
        detect_port: Some(3000),
        detect_tls_port: Some(3002),
        camera: Some(EmulateCamera {
            label: "bed".to_string(),
            port: 6000,
            poll_ms: None,
        }),
        advertise: None,
        read_only: true,
    }
}

fn cameras() -> Vec<ExternalCamera<u8, u8>> {
    vec![ExternalCamera::new(
        Some("bed".to_string()),
        "http://cam/snap".to_string(),
        Some("http://cam/stream".to_string()),
        0,
    )]
}

#[test]
fn everything_is_bound_before_anything_is_served() {
    let mut tap = net(&[]);
    let s = start_emulator(&mut tap, "SERIAL", "12345678", &opts(), &cameras()).unwrap();
    assert_eq!(s.printer.advertised, (10, 0, 0, 9));
    assert_eq!(s.printer.serial, "SERIAL");
    assert_eq!(s.printer.access_code, "12345678");
    assert!(s.printer.read_only && s.printer.claims_camera);
    let ftp = s.ftp.unwrap();
    assert_eq!(ftp.pasv_ports(), Some((50000, 50010)));
    assert_eq!(ftp.access_code(), "12345678");
    let did = tap.into_port().did;
    let last_bind = did.iter().rposition(|d| d.starts_with("bind")).unwrap();
    let first_serve = did.iter().position(|d| d.starts_with("serve")).unwrap();
    assert!(last_bind < first_serve, "{did:?}");
    assert_eq!(did.iter().filter(|d| d.starts_with("serve")).count(), 5);
    assert!(did.contains(
        &"say emulate: chamber camera on 10.0.0.9:6000, showing bed (http://cam/stream)".to_string()
    ));
    assert!(did
        .iter()
        .any(|d| d.starts_with("say emulate: TLS identity /certs/SERIAL.cert.pem")));
    assert!(did.iter().any(|d| d.starts_with("say emulate: read-only")));
}

#[test]
fn a_port_that_is_taken_stops_the_start() {
    for port in [8883, 990, 3000, 3002, 6000] {
        let mut tap = net(&[port]);
        let err = start_emulator(&mut tap, "S", "c", &opts(), &cameras()).unwrap_err();
        assert!(err.contains(&format!("10.0.0.9:{port}: in use")), "{err}");
        assert!(!tap.into_port().did.iter().any(|d| d.starts_with("serve")));
    }
    let mut o = opts();
    o.host = "0.0.0.0".to_string();
    let mut tap = net(&[]);
    assert!(start_emulator(&mut tap, "S", "c", &o, &cameras()).is_err());
    assert!(!tap.into_port().did.iter().any(|d| d.starts_with("serve")));
    let mut o = opts();
    o.pasv_ports = Some("9".to_string());
    assert!(start_emulator(&mut net(&[]), "S", "c", &o, &cameras()).is_err());
}

#[test]
fn a_privileged_port_comes_with_how_to_get_it() {
    let denied = BindError {
        denied: true,
        text: "permission denied".to_string(),
    };
    let text = bind_failure(Listener::Ftp, "h", 990, &denied);
    assert!(text.contains("Port 990 is privileged"), "{text}");
    let text = bind_failure(Listener::Detect, "h", 300, &denied);
    assert!(text.contains("port 300 is privileged"), "{text}");
    assert_eq!(
        bind_failure(Listener::Ftp, "h", 2121, &denied),
        "binding the FTP relay on h:2121: permission denied"
    );
    assert_eq!(
        bind_failure(Listener::Camera, "h", 6000, &denied),
        "binding the camera relay on h:6000: permission denied"
    );
}

#[test]
fn the_camera_that_stands_in_is_named_or_refused() {
    let want = |label: &str, poll_ms: Option<u64>| EmulateCamera {
        label: label.to_string(),
        port: 6000,
        poll_ms,
    };
    let none: Vec<ExternalCamera<u8, u8>> = vec![];
    let err = choose_camera(&want("bed", None), &none).unwrap_err();
    assert!(err.starts_with("--emulate-camera \"bed\" needs a camera to show"), "{err}");
    let err = choose_camera(&want("side", None), &cameras()).unwrap_err();
    assert_eq!(
        err,
        "--emulate-camera \"side\" names no configured camera; there is bed"
    );
    let stills: Vec<ExternalCamera<u8, u8>> = vec![ExternalCamera::new(
        Some("bed".to_string()),
        "http://cam/snap".to_string(),
        None,
        0,
    )];
    assert!(choose_camera(&want("bed", None), &stills)
        .unwrap_err()
        .contains("--emulate-camera-interval"));
    let c = choose_camera(&want("bed", Some(500)), &stills).unwrap();
    assert!(matches!(c.frames, FrameSource::Snapshots { every_ms: 500, .. }));
    assert_eq!(c.from, "bed (http://cam/snap, polled)");
}

#[test]
fn pages_are_found_and_named() {
    assert_eq!(asset_name("/"), "index.html");
    assert_eq!(asset_name("//assets/app.js"), "assets/app.js");
    assert_eq!(mime_for("assets/app.mjs"), "text/javascript");
    assert_eq!(mime_for("index.html"), "text/html; charset=utf-8");
    assert_eq!(mime_for("x.woff2"), "font/woff2");
    assert_eq!(mime_for("noext"), "application/octet-stream");
    assert_eq!(page_for(true, true), Page::File);
    assert_eq!(page_for(false, true), Page::Index);
    assert_eq!(page_for(false, false), Page::Unbuilt);
}
