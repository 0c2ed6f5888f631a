//! Presenting the printer to LAN clients: which listeners there are, in which
//! order they are bound, and what is said of them.
//!
//! What is done outside goes through a [`ListenPort`], and a [`ListenTap`] keeps
//! the log of it.
use vstd::prelude::*;

use crate::camera::ExternalCamera;
use crate::ftpd::FtpRelay;
use crate::net::{
    advertised_address, is_loopback, loopback, names_address, names_none, parse_pasv_ports,
    pasv_range, show_addr, shown_addr,
};
use crate::number::{decimal, digits};
use crate::text::{
    debug_text, join2, join3, join4, join5, join_all, joined, opt_text, quoted, same_text, texts,
};
use crate::trace::lemma_then;

verus! {

/// Which camera stands in for the printer's own, and where it is served.
#[derive(Debug)]
pub struct EmulateCamera {
    /// The label of one of the configured cameras.
    pub label: String,
    pub port: u16,
    /// How often to fetch from a camera without a stream, in milliseconds. It has
    /// no default: the right rate is the camera's.
    pub poll_ms: Option<u64>,
}

/// Where the emulated printer listens, and what it passes through.
#[derive(Debug)]
pub struct EmulateOpts {
    pub host: String,
    pub port: u16,
    /// Without it a client can watch and control a print but not send one.
    pub ftp_port: Option<u16>,
    /// Passive data ports, as `first-last`.
    pub pasv_ports: Option<String>,
    pub detect_port: Option<u16>,
    pub detect_tls_port: Option<u16>,
    pub camera: Option<EmulateCamera>,
    /// The address to tell clients, where the host does not name it.
    pub advertise: Option<(u8, u8, u8, u8)>,
    pub read_only: bool,
}

/// The listeners of an emulated printer.
#[derive(Clone, Copy, Debug, PartialEq, Eq, Structural)]
pub enum Listener {
    Mqtt,
    Ftp,
    Detect,
    DetectTls,
    Camera,
}

/// Why a port could not be bound.
#[derive(Debug)]
pub struct BindError {
    /// The right to bind it is missing.
    pub denied: bool,
    pub text: String,
}

/// What presenting a printer asks of the outside.
pub trait ListenPort {
    /// Make ready the identity that is shown to clients; where it is kept.
    fn identity(&mut self) -> Result<Option<String>, String>;

    fn bind(&mut self, what: Listener, host: &str, port: u16) -> Result<(), BindError>;

    /// Serve a listener that was bound.
    fn serve(&mut self, what: Listener);

    /// Tell whoever runs the server.
    fn say(&mut self, text: &str);
}

/// One thing that was asked of the outside and its answer.
#[allow(inconsistent_fields)]
pub enum ListenEvent {
    Identity(Result<Option<String>, String>),
    Bound { what: Listener, host: Seq<char>, port: u16, res: Result<(), BindError> },
    Served(Listener),
    Said(Seq<char>),
}

/// A port and the log of what went through it.
pub struct ListenTap<P> {
    port: P,
    events: Ghost<Seq<ListenEvent>>,
}

impl<P: ListenPort> ListenTap<P> {
    /// What went through the port so far.
    pub closed spec fn log(self) -> Seq<ListenEvent> {
        self.events@
    }

    /// The port as it is now.
    pub closed spec fn inner(self) -> P {
        self.port
    }

    pub fn new(port: P) -> (r: ListenTap<P>)
        ensures
            r.inner() == port,
            r.log() == Seq::<ListenEvent>::empty(),
    {
        ListenTap { port, events: Ghost(Seq::empty()) }
    }

    /// The port again.
    pub fn into_port(self) -> (r: P)
        ensures
            r == self.inner(),
    {
        self.port
    }

    fn identity(&mut self) -> (r: Result<Option<String>, String>)
        ensures
            final(self).log() == old(self).log().push(ListenEvent::Identity(r)),
    {
        let r = self.port.identity();
        self.events = Ghost(self.events@.push(ListenEvent::Identity(r)));
        r
    }

    fn bind(&mut self, what: Listener, host: &str, port: u16) -> (r: Result<(), BindError>)
        ensures
            final(self).log() == old(self).log().push(
                ListenEvent::Bound { what, host: host@, port, res: r },
            ),
    {
        let r = self.port.bind(what, host, port);
        self.events =
        Ghost(self.events@.push(ListenEvent::Bound { what, host: host@, port, res: r }));
        r
    }

    fn serve(&mut self, what: Listener)
        ensures
            final(self).log() == old(self).log().push(ListenEvent::Served(what)),
    {
        self.port.serve(what);
        self.events = Ghost(self.events@.push(ListenEvent::Served(what)));
    }

    fn say(&mut self, text: &str)
        ensures
            final(self).log() == old(self).log().push(ListenEvent::Said(text@)),
    {
        self.port.say(text);
        self.events = Ghost(self.events@.push(ListenEvent::Said(text@)));
    }
}

// ── The camera that stands in ───────────────────────────────────────────────

/// Where the pictures come from.
#[derive(Debug)]
pub enum FrameSource {
    /// A live stream.
    Mjpeg { url: String },
    /// A picture every so many milliseconds.
    Snapshots { url: String, every_ms: u64 },
}

/// The camera that stands in, and how it is told of.
#[derive(Debug)]
pub struct CameraChoice {
    pub frames: FrameSource,
    pub from: String,
}

/// The first camera of this label.
pub open spec fn labelled<P, S>(
    cameras: Seq<ExternalCamera<P, S>>,
    label: Seq<char>,
    i: int,
) -> bool {
    &&& 0 <= i < cameras.len()
    &&& cameras[i].label@ == label
    &&& forall|j: int| 0 <= j < i ==> (#[trigger] cameras[j]).label@ != label
}

/// No camera has this label.
pub open spec fn unlabelled<P, S>(cameras: Seq<ExternalCamera<P, S>>, label: Seq<char>) -> bool {
    forall|j: int| 0 <= j < cameras.len() ==> (#[trigger] cameras[j]).label@ != label
}

pub open spec fn labels<P, S>(cameras: Seq<ExternalCamera<P, S>>) -> Seq<Seq<char>> {
    cameras.map_values(|c: ExternalCamera<P, S>| c.label@)
}

/// Why no camera of this label can be shown.
pub open spec fn no_such_camera<P, S>(
    cameras: Seq<ExternalCamera<P, S>>,
    label: Seq<char>,
) -> Seq<char> {
    if cameras.len() == 0 {
        "--emulate-camera "@ + debug_text(label)
            + " needs a camera to show; none are configured (add one with --camera-url or --cameras-config)"@
    } else {
        "--emulate-camera "@ + debug_text(label) + " names no configured camera; there is "@ + joined(
            labels(cameras),
            ", "@,
        )
    }
}

/// `r` is what showing this camera comes to: its stream where it has one, else
/// its pictures at the rate that was given. No rate is made up for it.
pub open spec fn shows<P, S>(
    c: ExternalCamera<P, S>,
    poll_ms: Option<u64>,
    r: Result<CameraChoice, String>,
) -> bool {
    match (c.stream_url, poll_ms) {
        (Some(stream), _) => {
            &&& r matches Ok(choice)
            &&& choice.frames matches FrameSource::Mjpeg { url }
            &&& url@ == stream@
            &&& choice.from@ == c.label@ + " ("@ + stream@ + ")"@
        },
        (None, Some(every)) => {
            &&& r matches Ok(choice)
            &&& choice.frames matches FrameSource::Snapshots { url, every_ms }
            &&& url@ == c.url@
            &&& every_ms == every
            &&& choice.from@ == c.label@ + " ("@ + c.url@ + ", polled)"@
        },
        (None, None) => {
            &&& r matches Err(e)
            &&& e@ == "camera "@ + debug_text(c.label@)
                + " offers single snapshots, not a stream, so --emulate-camera-interval must say how often to take one"@
        },
    }
}

/// `r` is the choice of the camera that stands in.
pub open spec fn camera_chosen<P, S>(
    want: EmulateCamera,
    cameras: Seq<ExternalCamera<P, S>>,
    r: Result<CameraChoice, String>,
) -> bool {
    ||| exists|i: int| #[trigger]
        labelled(cameras, want.label@, i) && shows(cameras[i], want.poll_ms, r)
    ||| unlabelled(cameras, want.label@) && (r matches Err(e) && e@ == no_such_camera(
        cameras,
        want.label@,
    ))
}

fn show_camera<P, S>(c: &ExternalCamera<P, S>, poll_ms: Option<u64>) -> (r: Result<
    CameraChoice,
    String,
>)
    ensures
        shows(*c, poll_ms, r),
{
    match &c.stream_url {
        Some(url) => Ok(
            CameraChoice {
                frames: FrameSource::Mjpeg { url: url.clone() },
                from: join4(c.label.as_str(), " (", url.as_str(), ")"),
            },
        ),
        None => match poll_ms {
            Some(every_ms) => Ok(
                CameraChoice {
                    frames: FrameSource::Snapshots { url: c.url.clone(), every_ms },
                    from: join4(c.label.as_str(), " (", c.url.as_str(), ", polled)"),
                },
            ),
            None => {
                let q = quoted(c.label.as_str());
                Err(
                    join3(
                        "camera ",
                        q.as_str(),
                        " offers single snapshots, not a stream, so --emulate-camera-interval must say how often to take one",
                    ),
                )
            },
        },
    }
}

/// Which camera stands in for the printer's own. Whatever is wrong is an error:
/// who is shown the wrong camera cannot tell.
pub fn choose_camera<P, S>(want: &EmulateCamera, cameras: &Vec<ExternalCamera<P, S>>) -> (r: Result<
    CameraChoice,
    String,
>)
    ensures
        camera_chosen(*want, cameras@, r),
{
    let mut names: Vec<String> = Vec::new();
    let mut i: usize = 0;
    while i < cameras.len()
        invariant
            i <= cameras@.len(),
            names@.len() == i,
            forall|j: int| 0 <= j < i ==> (#[trigger] cameras@[j]).label@ != want.label@,
            forall|j: int| 0 <= j < i ==> (#[trigger] names@[j])@ == cameras@[j].label@,
        decreases cameras@.len() - i,
    {
        if same_text(cameras[i].label.as_str(), want.label.as_str()) {
            let r = show_camera(&cameras[i], want.poll_ms);
            proof {
                assert(labelled(cameras@, want.label@, i as int));
            }
            return r;
        }
        names.push(cameras[i].label.clone());
        i += 1;
    }
    let q = quoted(want.label.as_str());
    if cameras.len() == 0 {
        return Err(
            join3(
                "--emulate-camera ",
                q.as_str(),
                " needs a camera to show; none are configured (add one with --camera-url or --cameras-config)",
            ),
        );
    }
    proof {
        assert(texts(names@) =~= labels(cameras@));
    }
    let known = join_all(&names, ", ");
    Err(
        join4(
            "--emulate-camera ",
            q.as_str(),
            " names no configured camera; there is ",
            known.as_str(),
        ),
    )
}

// ── Ports that cannot be bound ──────────────────────────────────────────────

/// What is said of a port that could not be bound. A port below 1024 that was
/// denied comes with how to get it.
pub open spec fn bind_failed(what: Listener, host: Seq<char>, port: u16, e: BindError) -> Seq<char> {
    let addr = shown_addr(host, port);
    let plain = addr + ": "@ + e.text@;
    match what {
        Listener::Mqtt => "binding the emulated printer on "@ + plain,
        Listener::Ftp => if e.denied && port < 1024 {
            "binding the FTP relay on "@ + addr + ": permission denied. Port "@ + digits(
                port as nat,
            )
                + " is privileged — grant the binary the capability once with `sudo setcap cap_net_bind_service=+ep $(which bambu)`, run as root, or pick an unprivileged port with --emulate-ftp-port (the client must be told the same one)."@
        } else {
            "binding the FTP relay on "@ + plain
        },
        Listener::Detect | Listener::DetectTls => if e.denied && port < 1024 {
            "binding the detect listener on "@ + addr + ": permission denied — port "@ + digits(
                port as nat,
            )
                + " is privileged. Grant the capability once with `sudo setcap cap_net_bind_service=+ep $(which bambu)`, or move it with --emulate-detect-port (a client looking for a printer by IP only ever probes 3000/3002, so moving it means Studio won't find this relay)."@
        } else {
            "binding the detect listener on "@ + plain
        },
        Listener::Camera => "binding the camera relay on "@ + plain,
    }
}

/// What is said of a port that could not be bound.
pub fn bind_failure(what: Listener, host: &str, port: u16, e: &BindError) -> (r: String)
    ensures
        r@ == bind_failed(what, host@, port, *e),
{
    let addr = show_addr(host, port);
    let plain = join3(addr.as_str(), ": ", e.text.as_str());
    let n = decimal(port as u64);
    match what {
        Listener::Mqtt => join2("binding the emulated printer on ", plain.as_str()),
        Listener::Ftp => if e.denied && port < 1024 {
            join5(
                "binding the FTP relay on ",
                addr.as_str(),
                ": permission denied. Port ",
                n.as_str(),
                " is privileged — grant the binary the capability once with `sudo setcap cap_net_bind_service=+ep $(which bambu)`, run as root, or pick an unprivileged port with --emulate-ftp-port (the client must be told the same one).",
            )
        } else {
            join2("binding the FTP relay on ", plain.as_str())
        },
        Listener::Detect | Listener::DetectTls => if e.denied && port < 1024 {
            join5(
                "binding the detect listener on ",
                addr.as_str(),
                ": permission denied — port ",
                n.as_str(),
                " is privileged. Grant the capability once with `sudo setcap cap_net_bind_service=+ep $(which bambu)`, or move it with --emulate-detect-port (a client looking for a printer by IP only ever probes 3000/3002, so moving it means Studio won't find this relay).",
            )
        } else {
            join2("binding the detect listener on ", plain.as_str())
        },
        Listener::Camera => join2("binding the camera relay on ", plain.as_str()),
    }
}

// ── Starting ────────────────────────────────────────────────────────────────

/// The printer as clients find it.
#[derive(Debug)]
pub struct Presented {
    pub serial: String,
    pub access_code: String,
    /// Control commands are refused.
    pub read_only: bool,
    /// It says that it has a camera.
    pub claims_camera: bool,
    /// The address that clients are told.
    pub advertised: (u8, u8, u8, u8),
}

/// What was settled before anything is served.
#[derive(Debug)]
pub struct Settled {
    pub printer: Presented,
    /// The file server, where there is one.
    pub ftp: Option<FtpRelay>,
    pub camera: Option<CameraChoice>,
}

pub type Started = Result<Settled, String>;

pub open spec fn start_failed(r: Started, why: Seq<char>) -> bool {
    r matches Err(e) && e@ == why
}

/// Everything that was settled before the listeners are served.
pub struct Before {
    pub serial: Seq<char>,
    pub access_code: Seq<char>,
    pub identity: Option<Seq<char>>,
    pub pasv: Option<(u16, u16)>,
}

/// One notice, where it applies.
pub open spec fn notice(applies: bool, text: Seq<char>) -> Seq<ListenEvent> {
    if applies {
        seq![ListenEvent::Said(text)]
    } else {
        Seq::empty()
    }
}

/// A listener that is served, and the word on it.
pub open spec fn served(what: Listener, text: Seq<char>) -> Seq<ListenEvent> {
    seq![ListenEvent::Served(what), ListenEvent::Said(text)]
}

pub open spec fn served_detect(
    what: Listener,
    kind: Seq<char>,
    host: Seq<char>,
    port: Option<u16>,
) -> Seq<ListenEvent> {
    match port {
        Some(p) => served(
            what,
            "emulate: device-detect ("@ + kind + ") on "@ + shown_addr(host, p),
        ),
        None => Seq::empty(),
    }
}

/// What is served, in order, and what is said of it.
pub open spec fn listeners_served(opts: EmulateOpts, from: Seq<char>) -> Seq<ListenEvent> {
    let host = opts.host@;
    seq![ListenEvent::Served(Listener::Mqtt)] + (match opts.ftp_port {
        Some(p) => served(
            Listener::Ftp,
            "emulate: FTP relay on ftps://"@ + shown_addr(host, p) + " (implicit TLS)"@,
        ),
        None => Seq::empty(),
    }) + (match opts.camera {
        Some(c) => served(
            Listener::Camera,
            "emulate: chamber camera on "@ + shown_addr(host, c.port) + ", showing "@ + from,
        ),
        None => Seq::empty(),
    }) + served_detect(Listener::Detect, "plain"@, host, opts.detect_port) + served_detect(
        Listener::DetectTls,
        "TLS"@,
        host,
        opts.detect_tls_port,
    )
}

/// What is missing, and where the printer is presented.
pub open spec fn notices_of_parts(opts: EmulateOpts, serial: Seq<char>) -> Seq<ListenEvent> {
    notice(
        opts.camera is None,
        "emulate: no camera relay, so a client's liveview will stay empty (pass --emulate-camera <label> to show one of the configured cameras instead)"@,
    ) + notice(
        opts.detect_port is None && opts.detect_tls_port is None,
        "emulate: no detect listener, so Bambu Studio's \"add printer by IP\" will not find this relay — it probes 3000/3002 before MQTT and gives up quietly"@,
    ) + notice(
        true,
        "emulating printer "@ + serial + " on mqtts://"@ + shown_addr(opts.host@, opts.port)
            + " — point a client at this host with the printer's own serial and access code"@,
    )
}

/// Where the identity is kept that a client may have to be pointed at.
pub open spec fn notice_of_identity(identity: Option<Seq<char>>, serial: Seq<char>) -> Seq<
    ListenEvent,
> {
    match identity {
        Some(dir) => notice(
            true,
            "emulate: TLS identity "@ + crate::slicer::inside(dir, serial + ".cert.pem"@)
                + " (stable across restarts; a client that verifies certificates must be pointed at it)"@,
        ),
        None => Seq::empty(),
    }
}

/// Who can do what.
pub open spec fn notices_of_reach(opts: EmulateOpts) -> Seq<ListenEvent> {
    notice(
        opts.ftp_port is None,
        "emulate: no FTP relay, so a client can watch and control this printer but not send it a print"@,
    ) + notice(
        opts.read_only,
        "emulate: read-only — control commands are refused, not forwarded"@,
    ) + notice(true, reach_text(loopback(opts.host@)))
}

pub open spec fn reach_text(local: bool) -> Seq<char> {
    if local {
        "emulate: bound to loopback, so only clients on this machine can reach it; pass --emulate-host 0.0.0.0 for the LAN"@
    } else {
        "emulate: reachable from the LAN. Anyone with the printer's access code can drive it through this relay — the same people who could drive the printer directly, and no others."@
    }
}

/// Everything else that whoever runs the server is told.
pub open spec fn notices(opts: EmulateOpts, b: Before) -> Seq<ListenEvent> {
    notices_of_parts(opts, b.serial) + notice_of_identity(b.identity, b.serial) + notices_of_reach(
        opts,
    )
}

/// How the camera that stands in is told of.
pub open spec fn told_of(c: Option<CameraChoice>) -> Seq<char> {
    match c {
        Some(choice) => choice.from@,
        None => Seq::empty(),
    }
}

/// `p` is the printer under its own serial and code. It refuses control where the
/// relay is read-only, and says that it has a camera where one is relayed.
pub open spec fn presented_as(p: Presented, opts: EmulateOpts, b: Before) -> bool {
    &&& p.serial@ == b.serial
    &&& p.access_code@ == b.access_code
    &&& p.read_only == opts.read_only
    &&& p.claims_camera == (opts.camera is Some)
    &&& match opts.advertise {
        Some(q) => p.advertised == q,
        None => names_address(opts.host@, p.advertised),
    }
}

/// `ftp` is the file server that was asked for: read-only as the printer is, and its
/// data connections confined as they were to be.
pub open spec fn files_served(ftp: Option<FtpRelay>, opts: EmulateOpts, b: Before) -> bool {
    match ftp {
        Some(relay) => {
            &&& opts.ftp_port is Some
            &&& relay.code() == b.access_code
            &&& relay.refuses_writes() == opts.read_only
            &&& relay.confined_to() == b.pasv
        },
        None => opts.ftp_port is None,
    }
}

/// `ev` finds the address that clients are told, and serves all that was bound.
pub open spec fn announced(
    ev: Seq<ListenEvent>,
    opts: EmulateOpts,
    b: Before,
    camera: Option<CameraChoice>,
    r: Started,
) -> bool {
    match r {
        Err(e) => {
            &&& ev.len() == 0
            &&& opts.advertise is None
            &&& e@ == names_none(opts.host@)
            &&& forall|q: (u8, u8, u8, u8)| !#[trigger] names_address(opts.host@, q)
        },
        Ok(s) => {
            &&& ev == listeners_served(opts, told_of(camera)) + notices(opts, b)
            &&& presented_as(s.printer, opts, b)
            &&& files_served(s.ftp, opts, b)
            &&& s.camera == camera
        },
    }
}

/// `ev[0]` binds this listener, and ends `ev` where that failed.
pub open spec fn binds(
    ev: Seq<ListenEvent>,
    what: Listener,
    host: Seq<char>,
    port: u16,
    r: Started,
) -> bool {
    &&& ev.len() >= 1
    &&& ev[0] matches ListenEvent::Bound { what: w, host: h, port: p, res }
    &&& w == what
    &&& h == host
    &&& p == port
    &&& res matches Err(e) ==> ev.len() == 1 && start_failed(r, bind_failed(what, host, port, e))
}

/// The listener that `ev[0]` binds was bound.
pub open spec fn is_bound(e: ListenEvent) -> bool {
    e matches ListenEvent::Bound { what, host, port, res } && res is Ok
}

pub open spec fn camera_bound<P, S>(
    ev: Seq<ListenEvent>,
    opts: EmulateOpts,
    b: Before,
    cameras: Seq<ExternalCamera<P, S>>,
    r: Started,
) -> bool {
    match opts.camera {
        None => announced(ev, opts, b, None, r),
        Some(want) => exists|choice: Result<CameraChoice, String>| #[trigger]
            camera_chosen(want, cameras, choice) && match choice {
                Err(e) => ev.len() == 0 && start_failed(r, e@),
                Ok(c) => {
                    &&& binds(ev, Listener::Camera, opts.host@, want.port, r)
                    &&& is_bound(ev[0]) ==> announced(ev.skip(1), opts, b, Some(c), r)
                },
            },
    }
}

pub open spec fn detect_tls_bound<P, S>(
    ev: Seq<ListenEvent>,
    opts: EmulateOpts,
    b: Before,
    cameras: Seq<ExternalCamera<P, S>>,
    r: Started,
) -> bool {
    match opts.detect_tls_port {
        None => camera_bound(ev, opts, b, cameras, r),
        Some(port) => {
            &&& binds(ev, Listener::DetectTls, opts.host@, port, r)
            &&& is_bound(ev[0]) ==> camera_bound(ev.skip(1), opts, b, cameras, r)
        },
    }
}

pub open spec fn detect_bound<P, S>(
    ev: Seq<ListenEvent>,
    opts: EmulateOpts,
    b: Before,
    cameras: Seq<ExternalCamera<P, S>>,
    r: Started,
) -> bool {
    match opts.detect_port {
        None => detect_tls_bound(ev, opts, b, cameras, r),
        Some(port) => {
            &&& binds(ev, Listener::Detect, opts.host@, port, r)
            &&& is_bound(ev[0]) ==> detect_tls_bound(ev.skip(1), opts, b, cameras, r)
        },
    }
}

/// `ev` binds the FTP listener, once its passive ports were read.
pub open spec fn ftp_bound<P, S>(
    ev: Seq<ListenEvent>,
    opts: EmulateOpts,
    b: Before,
    cameras: Seq<ExternalCamera<P, S>>,
    r: Started,
) -> bool {
    match opts.ftp_port {
        None => detect_bound(ev, opts, b, cameras, r),
        Some(port) => match opts.pasv_ports {
            None => {
                &&& binds(ev, Listener::Ftp, opts.host@, port, r)
                &&& is_bound(ev[0]) ==> detect_bound(ev.skip(1), opts, b, cameras, r)
            },
            Some(range) => match pasv_range(range@) {
                Err(e) => ev.len() == 0 && start_failed(r, e),
                Ok((first, last)) => {
                    &&& ev.len() >= 1
                    &&& ev[0] == ListenEvent::Said(
                        "emulate: FTP passive data ports confined to "@ + digits(first) + "-"@
                            + digits(last),
                    )
                    &&& binds(ev.skip(1), Listener::Ftp, opts.host@, port, r)
                    &&& is_bound(ev[1]) ==> detect_bound(
                        ev.skip(2),
                        opts,
                        Before { pasv: Some((first as u16, last as u16)), ..b },
                        cameras,
                        r,
                    )
                },
            },
        },
    }
}

/// `ev` is all that presenting a printer does outside: every listener is bound,
/// and an address to tell clients is known, before any is served.
pub open spec fn emulator_started<P, S>(
    ev: Seq<ListenEvent>,
    serial: Seq<char>,
    code: Seq<char>,
    opts: EmulateOpts,
    cameras: Seq<ExternalCamera<P, S>>,
    r: Started,
) -> bool {
    &&& ev.len() >= 1
    &&& ev[0] matches ListenEvent::Identity(identity)
    &&& match identity {
        Err(e) => ev.len() == 1 && start_failed(r, e@),
        Ok(dir) => {
            &&& binds(ev.skip(1), Listener::Mqtt, opts.host@, opts.port, r)
            &&& is_bound(ev[1]) ==> ftp_bound(
                ev.skip(2),
                opts,
                Before { serial, access_code: code, identity: opt_text(dir), pasv: None },
                cameras,
                r,
            )
        },
    }
}

fn serve_all<P: ListenPort>(tap: &mut ListenTap<P>, opts: &EmulateOpts, from: &str)
    ensures
        final(tap).log() == old(tap).log() + listeners_served(*opts, from@),
{
    let host = opts.host.as_str();
    tap.serve(Listener::Mqtt);
    if let Some(p) = opts.ftp_port {
        let addr = show_addr(host, p);
        let text = join3("emulate: FTP relay on ftps://", addr.as_str(), " (implicit TLS)");
        tap.serve(Listener::Ftp);
        tap.say(text.as_str());
    }
    if let Some(c) = &opts.camera {
        let addr = show_addr(host, c.port);
        let text = join4("emulate: chamber camera on ", addr.as_str(), ", showing ", from);
        tap.serve(Listener::Camera);
        tap.say(text.as_str());
    }
    if let Some(p) = opts.detect_port {
        let addr = show_addr(host, p);
        let text = join4("emulate: device-detect (", "plain", ") on ", addr.as_str());
        tap.serve(Listener::Detect);
        tap.say(text.as_str());
    }
    if let Some(p) = opts.detect_tls_port {
        let addr = show_addr(host, p);
        let text = join4("emulate: device-detect (", "TLS", ") on ", addr.as_str());
        tap.serve(Listener::DetectTls);
        tap.say(text.as_str());
    }
    proof {
        assert(tap.log() =~= old(tap).log() + listeners_served(*opts, from@));
    }
}

/// Give a notice where it applies.
fn say_if<P: ListenPort>(tap: &mut ListenTap<P>, applies: bool, text: &str)
    ensures
        final(tap).log() == old(tap).log() + notice(applies, text@),
{
    let ghost was = tap.log();
    if applies {
        tap.say(text);
    }
    proof {
        assert(tap.log() =~= was + notice(applies, text@));
    }
}

fn say_parts<P: ListenPort>(tap: &mut ListenTap<P>, opts: &EmulateOpts, serial: &str)
    ensures
        final(tap).log() == old(tap).log() + notices_of_parts(*opts, serial@),
{
    let ghost was = tap.log();
    say_if(
        tap,
        opts.camera.is_none(),
        "emulate: no camera relay, so a client's liveview will stay empty (pass --emulate-camera <label> to show one of the configured cameras instead)",
    );
    let ghost l1 = tap.log();
    say_if(
        tap,
        opts.detect_port.is_none() && opts.detect_tls_port.is_none(),
        "emulate: no detect listener, so Bambu Studio's \"add printer by IP\" will not find this relay — it probes 3000/3002 before MQTT and gives up quietly",
    );
    let ghost l2 = tap.log();
    let addr = show_addr(opts.host.as_str(), opts.port);
    let text = join5(
        "emulating printer ",
        serial,
        " on mqtts://",
        addr.as_str(),
        " — point a client at this host with the printer's own serial and access code",
    );
    say_if(tap, true, text.as_str());
    proof {
        lemma_regroup(was, l1, l2, tap.log());
    }
}

fn say_identity<P: ListenPort>(tap: &mut ListenTap<P>, identity: &Option<String>, serial: &str)
    ensures
        final(tap).log() == old(tap).log() + notice_of_identity(opt_text(*identity), serial@),
{
    match identity {
        Some(dir) => {
            let file = join2(serial, ".cert.pem");
            let path = crate::slicer::join_path(dir.as_str(), file.as_str());
            let text = join3(
                "emulate: TLS identity ",
                path.as_str(),
                " (stable across restarts; a client that verifies certificates must be pointed at it)",
            );
            say_if(tap, true, text.as_str());
        },
        None => {
            proof {
                assert(tap.log() =~= tap.log() + Seq::<ListenEvent>::empty());
            }
        },
    }
}

fn say_reach<P: ListenPort>(tap: &mut ListenTap<P>, opts: &EmulateOpts)
    ensures
        final(tap).log() == old(tap).log() + notices_of_reach(*opts),
{
    let ghost was = tap.log();
    say_if(
        tap,
        opts.ftp_port.is_none(),
        "emulate: no FTP relay, so a client can watch and control this printer but not send it a print",
    );
    let ghost l1 = tap.log();
    say_if(
        tap,
        opts.read_only,
        "emulate: read-only — control commands are refused, not forwarded",
    );
    let ghost l2 = tap.log();
    let text = if is_loopback(opts.host.as_str()) {
        "emulate: bound to loopback, so only clients on this machine can reach it; pass --emulate-host 0.0.0.0 for the LAN"
    } else {
        "emulate: reachable from the LAN. Anyone with the printer's access code can drive it through this relay — the same people who could drive the printer directly, and no others."
    };
    say_if(tap, true, text);
    proof {
        lemma_regroup(was, l1, l2, tap.log());
    }
}

/// Three additions to a log, taken together.
proof fn lemma_regroup(
    l: Seq<ListenEvent>,
    l1: Seq<ListenEvent>,
    l2: Seq<ListenEvent>,
    l3: Seq<ListenEvent>,
)
    ensures
        forall|a: Seq<ListenEvent>, b: Seq<ListenEvent>, c: Seq<ListenEvent>|
            l1 == #[trigger] (l + a) && l2 == #[trigger] (l1 + b) && l3 == #[trigger] (l2 + c)
                ==> l3 == l + (a + b + c),
{
    assert forall|a: Seq<ListenEvent>, b: Seq<ListenEvent>, c: Seq<ListenEvent>|
        l1 == #[trigger] (l + a) && l2 == #[trigger] (l1 + b) && l3 == #[trigger] (l2
            + c) implies l3 == l + (a + b + c) by {
        assert(l + a + b + c =~= l + (a + b + c));
    }
}

fn say_all<P: ListenPort>(
    tap: &mut ListenTap<P>,
    opts: &EmulateOpts,
    serial: &str,
    identity: &Option<String>,
    Ghost(b): Ghost<Before>,
)
    requires
        b.serial == serial@,
        b.identity == opt_text(*identity),
    ensures
        final(tap).log() == old(tap).log() + notices(*opts, b),
{
    let ghost was = tap.log();
    say_parts(tap, opts, serial);
    let ghost l1 = tap.log();
    say_identity(tap, identity, serial);
    let ghost l2 = tap.log();
    say_reach(tap, opts);
    proof {
        lemma_regroup(was, l1, l2, tap.log());
    }
}

/// What was settled so far.
struct Told {
    serial: String,
    access_code: String,
    identity: Option<String>,
    pasv: Option<(u16, u16)>,
}

impl View for Told {
    type V = Before;

    closed spec fn view(&self) -> Before {
        Before {
            serial: self.serial@,
            access_code: self.access_code@,
            identity: opt_text(self.identity),
            pasv: self.pasv,
        }
    }
}

fn announce<P: ListenPort>(
    tap: &mut ListenTap<P>,
    opts: &EmulateOpts,
    told: &Told,
    camera: Option<CameraChoice>,
) -> (r: Started)
    ensures
        old(tap).log().is_prefix_of(final(tap).log()),
        announced(
            final(tap).log().skip(old(tap).log().len() as int),
            *opts,
            told@,
            camera,
            r,
        ),
{
    let ghost start = tap.log();
    let advertised = match advertised_address(opts.advertise, opts.host.as_str()) {
        Ok(q) => q,
        Err(e) => {
            return Err(e);
        },
    };
    let from = match &camera {
        Some(c) => c.from.clone(),
        None => {
            let none: Vec<char> = Vec::new();
            crate::text::text_of(&none)
        },
    };
    proof {
        assert(from@ =~= told_of(camera));
    }
    serve_all(tap, opts, from.as_str());
    say_all(tap, opts, told.serial.as_str(), &told.identity, Ghost(told@));
    proof {
        let done = listeners_served(*opts, told_of(camera)) + notices(*opts, told@);
        assert(tap.log() =~= start + done);
        assert(tap.log().skip(start.len() as int) =~= done);
        assert(tap.log().subrange(0, start.len() as int) =~= start);
    }
    let ftp = if opts.ftp_port.is_some() {
        let relay = if opts.read_only {
            FtpRelay::read_only(told.access_code.as_str())
        } else {
            FtpRelay::new(told.access_code.as_str())
        };
        Some(relay.with_pasv_ports(told.pasv))
    } else {
        None
    };
    let printer = Presented {
        serial: told.serial.clone(),
        access_code: told.access_code.clone(),
        read_only: opts.read_only,
        claims_camera: opts.camera.is_some(),
        advertised,
    };
    Ok(Settled { printer, ftp, camera })
}

fn bind_camera<P: ListenPort, C, S>(
    tap: &mut ListenTap<P>,
    opts: &EmulateOpts,
    cameras: &Vec<ExternalCamera<C, S>>,
    told: &Told,
) -> (r: Started)
    ensures
        old(tap).log().is_prefix_of(final(tap).log()),
        camera_bound(
            final(tap).log().skip(old(tap).log().len() as int),
            *opts,
            told@,
            cameras@,
            r,
        ),
{
    let ghost start = tap.log();
    let want = match &opts.camera {
        None => {
            return announce(tap, opts, told, None);
        },
        Some(want) => want,
    };
    let choice = choose_camera(want, cameras);
    let ghost chosen = choice;
    let c = match choice {
        Ok(c) => c,
        Err(e) => {
            return Err(e);
        },
    };
    if let Err(e) = tap.bind(Listener::Camera, opts.host.as_str(), want.port) {
        let r = Err(bind_failure(Listener::Camera, opts.host.as_str(), want.port, &e));
        proof {
            let ev = tap.log().skip(start.len() as int);
            assert(camera_chosen(*want, cameras@, chosen));
            assert(binds(ev, Listener::Camera, opts.host@, want.port, r));
        }
        return r;
    }
    let ghost mid = tap.log();
    let r = announce(tap, opts, told, Some(c));
    proof {
        lemma_then(start, mid, tap.log());
        assert(camera_chosen(*want, cameras@, chosen));
    }
    r
}

fn bind_detect_tls<P: ListenPort, C, S>(
    tap: &mut ListenTap<P>,
    opts: &EmulateOpts,
    cameras: &Vec<ExternalCamera<C, S>>,
    told: &Told,
) -> (r: Started)
    ensures
        old(tap).log().is_prefix_of(final(tap).log()),
        detect_tls_bound(
            final(tap).log().skip(old(tap).log().len() as int),
            *opts,
            told@,
            cameras@,
            r,
        ),
{
    let ghost start = tap.log();
    if let Some(port) = opts.detect_tls_port {
        if let Err(e) = tap.bind(Listener::DetectTls, opts.host.as_str(), port) {
            return Err(bind_failure(Listener::DetectTls, opts.host.as_str(), port, &e));
        }
    }
    let ghost mid = tap.log();
    let r = bind_camera(tap, opts, cameras, told);
    proof {
        lemma_then(start, mid, tap.log());
        assert(opts.detect_tls_port is None ==> tap.log().skip(start.len() as int) =~= tap.log().skip(
            mid.len() as int,
        ));
    }
    r
}

fn bind_detect<P: ListenPort, C, S>(
    tap: &mut ListenTap<P>,
    opts: &EmulateOpts,
    cameras: &Vec<ExternalCamera<C, S>>,
    told: &Told,
) -> (r: Started)
    ensures
        old(tap).log().is_prefix_of(final(tap).log()),
        detect_bound(
            final(tap).log().skip(old(tap).log().len() as int),
            *opts,
            told@,
            cameras@,
            r,
        ),
{
    let ghost start = tap.log();
    if let Some(port) = opts.detect_port {
        if let Err(e) = tap.bind(Listener::Detect, opts.host.as_str(), port) {
            return Err(bind_failure(Listener::Detect, opts.host.as_str(), port, &e));
        }
    }
    let ghost mid = tap.log();
    let r = bind_detect_tls(tap, opts, cameras, told);
    proof {
        lemma_then(start, mid, tap.log());
        assert(opts.detect_port is None ==> tap.log().skip(start.len() as int) =~= tap.log().skip(
            mid.len() as int,
        ));
    }
    r
}

fn bind_ftp<P: ListenPort, C, S>(
    tap: &mut ListenTap<P>,
    opts: &EmulateOpts,
    cameras: &Vec<ExternalCamera<C, S>>,
    told: Told,
) -> (r: Started)
    ensures
        old(tap).log().is_prefix_of(final(tap).log()),
        ftp_bound(
            final(tap).log().skip(old(tap).log().len() as int),
            *opts,
            told@,
            cameras@,
            r,
        ),
{
    let ghost start = tap.log();
    let port: u16 = match opts.ftp_port {
        None => {
            return bind_detect(tap, opts, cameras, &told);
        },
        Some(port) => port,
    };
    let mut known = told;
    if let Some(range) = &opts.pasv_ports {
        match parse_pasv_ports(range.as_str()) {
            Err(e) => {
                return Err(e);
            },
            Ok((first, last)) => {
                let f = decimal(first as u64);
                let l = decimal(last as u64);
                let text = join4(
                    "emulate: FTP passive data ports confined to ",
                    f.as_str(),
                    "-",
                    l.as_str(),
                );
                tap.say(text.as_str());
                known.pasv = Some((first, last));
            },
        }
    }
    if let Err(e) = tap.bind(Listener::Ftp, opts.host.as_str(), port) {
        return Err(bind_failure(Listener::Ftp, opts.host.as_str(), port, &e));
    }
    let ghost mid = tap.log();
    let r = bind_detect(tap, opts, cameras, &known);
    proof {
        lemma_then(start, mid, tap.log());
        let ev = tap.log().skip(start.len() as int);
        if opts.pasv_ports is Some {
            assert(ev.skip(1)[0] == ev[1]);
        }
    }
    r
}

/// Present a printer to LAN clients: bind every listener, then serve them all. A
/// port that is taken stops the start, and does not come up later as a client
/// that finds no picture or no files.
pub fn start_emulator<P: ListenPort, C, S>(
    tap: &mut ListenTap<P>,
    serial: &str,
    access_code: &str,
    opts: &EmulateOpts,
    cameras: &Vec<ExternalCamera<C, S>>,
) -> (r: Started)
    ensures
        old(tap).log().is_prefix_of(final(tap).log()),
        emulator_started(
            final(tap).log().skip(old(tap).log().len() as int),
            serial@,
            access_code@,
            *opts,
            cameras@,
            r,
        ),
{
    let ghost start = tap.log();
    let identity = match tap.identity() {
        Ok(dir) => dir,
        Err(e) => {
            return Err(e);
        },
    };
    if let Err(e) = tap.bind(Listener::Mqtt, opts.host.as_str(), opts.port) {
        return Err(bind_failure(Listener::Mqtt, opts.host.as_str(), opts.port, &e));
    }
    let told = Told {
        serial: serial.to_owned(),
        access_code: access_code.to_owned(),
        identity,
        pasv: None,
    };
    let ghost mid = tap.log();
    let r = bind_ftp(tap, opts, cameras, told);
    proof {
        lemma_then(start, mid, tap.log());
        let ev = tap.log().skip(start.len() as int);
        assert(ev.skip(1)[0] == ev[1]);
    }
    r
}

// ── Laws ────────────────────────────────────────────────────────────────────

/// No event of `ev` serves a listener.
pub open spec fn serves_nothing(ev: Seq<ListenEvent>) -> bool {
    forall|i: int| 0 <= i < ev.len() ==> !((#[trigger] ev[i]) is Served)
}

/// Nothing is served by a start that failed: a client never finds half a
/// printer.
pub proof fn a_failed_start_serves_nothing<P, S>(
    ev: Seq<ListenEvent>,
    serial: Seq<char>,
    code: Seq<char>,
    opts: EmulateOpts,
    cameras: Seq<ExternalCamera<P, S>>,
    r: Started,
)
    requires
        emulator_started(ev, serial, code, opts, cameras, r),
        r is Err,
    ensures
        serves_nothing(ev),
{
    if ev[0]->Identity_0 is Ok {
        let b = Before {
            serial,
            access_code: code,
            identity: opt_text(ev[0]->Identity_0->Ok_0),
            pasv: None,
        };
        assert(ev.skip(1)[0] == ev[1]);
        if is_bound(ev[1]) {
            lemma_ftp(ev.skip(2), opts, b, cameras, r);
            lemma_quiet(ev, 2);
        }
    }
}

/// A printer that is presented read-only is so on every side: neither a command nor a
/// file gets through to it. And it says that it has a camera exactly where one is
/// relayed.
pub proof fn read_only_holds_on_every_side<P, S>(
    ev: Seq<ListenEvent>,
    serial: Seq<char>,
    code: Seq<char>,
    opts: EmulateOpts,
    cameras: Seq<ExternalCamera<P, S>>,
    s: Settled,
)
    requires
        emulator_started(ev, serial, code, opts, cameras, Ok(s)),
    ensures
        s.printer.serial@ == serial,
        s.printer.access_code@ == code,
        s.printer.read_only == opts.read_only,
        s.printer.claims_camera == (s.camera is Some),
        s.ftp is Some <==> opts.ftp_port is Some,
        s.ftp matches Some(relay) ==> relay.refuses_writes() == opts.read_only && relay.code()
            == code,
{
}

proof fn lemma_quiet(ev: Seq<ListenEvent>, k: int)
    requires
        0 <= k <= ev.len(),
        serves_nothing(ev.skip(k)),
        forall|i: int| 0 <= i < k ==> !((#[trigger] ev[i]) is Served),
    ensures
        serves_nothing(ev),
{
    assert forall|i: int| 0 <= i < ev.len() implies !((#[trigger] ev[i]) is Served) by {
        if i >= k {
            assert(ev.skip(k)[i - k] == ev[i]);
        }
    }
}

proof fn lemma_ftp<P, S>(
    ev: Seq<ListenEvent>,
    opts: EmulateOpts,
    b: Before,
    cameras: Seq<ExternalCamera<P, S>>,
    r: Started,
)
    requires
        ftp_bound(ev, opts, b, cameras, r),
        r is Err,
    ensures
        serves_nothing(ev),
{
    match opts.ftp_port {
        None => lemma_detect(ev, opts, b, cameras, r),
        Some(port) => match opts.pasv_ports {
            None => {
                if is_bound(ev[0]) {
                    lemma_detect(ev.skip(1), opts, b, cameras, r);
                    lemma_quiet(ev, 1);
                }
            },
            Some(range) => {
                if let Ok((first, last)) = pasv_range(range@) {
                    assert(ev.skip(1)[0] == ev[1]);
                    if is_bound(ev[1]) {
                        let c = Before { pasv: Some((first as u16, last as u16)), ..b };
                        lemma_detect(ev.skip(2), opts, c, cameras, r);
                        lemma_quiet(ev, 2);
                    }
                }
            },
        },
    }
}

proof fn lemma_detect<P, S>(
    ev: Seq<ListenEvent>,
    opts: EmulateOpts,
    b: Before,
    cameras: Seq<ExternalCamera<P, S>>,
    r: Started,
)
    requires
        detect_bound(ev, opts, b, cameras, r),
        r is Err,
    ensures
        serves_nothing(ev),
{
    if opts.detect_port is None {
        lemma_detect_tls(ev, opts, b, cameras, r);
    } else if is_bound(ev[0]) {
        lemma_detect_tls(ev.skip(1), opts, b, cameras, r);
        lemma_quiet(ev, 1);
    }
}

proof fn lemma_detect_tls<P, S>(
    ev: Seq<ListenEvent>,
    opts: EmulateOpts,
    b: Before,
    cameras: Seq<ExternalCamera<P, S>>,
    r: Started,
)
    requires
        detect_tls_bound(ev, opts, b, cameras, r),
        r is Err,
    ensures
        serves_nothing(ev),
{
    if opts.detect_tls_port is None {
        lemma_camera(ev, opts, b, cameras, r);
    } else if is_bound(ev[0]) {
        lemma_camera(ev.skip(1), opts, b, cameras, r);
        lemma_quiet(ev, 1);
    }
}

proof fn lemma_camera<P, S>(
    ev: Seq<ListenEvent>,
    opts: EmulateOpts,
    b: Before,
    cameras: Seq<ExternalCamera<P, S>>,
    r: Started,
)
    requires
        camera_bound(ev, opts, b, cameras, r),
        r is Err,
    ensures
        serves_nothing(ev),
{
    if opts.camera is Some && ev.len() > 0 && is_bound(ev[0]) {
        lemma_quiet(ev, 1);
    }
}

/// The camera that stands in is one of the label that was asked for: its stream where
/// it has one, and else its own pictures at the rate that was given.
pub proof fn a_camera_is_shown_by_its_label<P, S>(
    want: EmulateCamera,
    cameras: Seq<ExternalCamera<P, S>>,
    choice: CameraChoice,
)
    requires
        camera_chosen(want, cameras, Ok(choice)),
    ensures
        exists|i: int|
            0 <= i < cameras.len() && (#[trigger] cameras[i]).label@ == want.label@
                && cameras[i].label@.is_prefix_of(choice.from@) && match choice.frames {
                FrameSource::Mjpeg { url } => cameras[i].stream_url matches Some(stream) && stream@
                    == url@,
                FrameSource::Snapshots { url, every_ms } => cameras[i].stream_url is None && url@
                    == cameras[i].url@ && want.poll_ms == Some(every_ms),
            },
{
    let i = choose|i: int| #[trigger]
        labelled(cameras, want.label@, i) && shows(cameras[i], want.poll_ms, Ok(choice));
    let c = cameras[i];
    assert(choice.from@.subrange(0, c.label@.len() as int) =~= c.label@);
}

/// A camera that has a stream, or that a rate was given for, is never refused.
pub proof fn a_camera_that_can_be_shown_is<P, S>(
    want: EmulateCamera,
    cameras: Seq<ExternalCamera<P, S>>,
    r: Result<CameraChoice, String>,
    k: int,
)
    requires
        camera_chosen(want, cameras, r),
        0 <= k < cameras.len(),
        cameras[k].label@ == want.label@,
        want.poll_ms is Some || forall|j: int|
            0 <= j < cameras.len() ==> (#[trigger] cameras[j]).stream_url is Some,
    ensures
        r is Ok,
{
    assert(cameras[k].label@ == want.label@);
    let i = choose|i: int| #[trigger]
        labelled(cameras, want.label@, i) && shows(cameras[i], want.poll_ms, r);
    assert(cameras[i].label@ == want.label@);
}

/// This listener was bound, on this host and port.
pub open spec fn bound_on(ev: Seq<ListenEvent>, what: Listener, host: Seq<char>, port: u16) -> bool {
    exists|i: int|
        0 <= i < ev.len() && (#[trigger] ev[i] matches ListenEvent::Bound {
            what: w,
            host: h,
            port: p,
            res,
        } && w == what && h == host && p == port && res is Ok)
}

/// This listener is served.
pub open spec fn is_served(ev: Seq<ListenEvent>, what: Listener) -> bool {
    exists|i: int| 0 <= i < ev.len() && #[trigger] ev[i] == ListenEvent::Served(what)
}

proof fn lemma_later(ev: Seq<ListenEvent>, k: int)
    requires
        0 <= k <= ev.len(),
    ensures
        forall|w: Listener, h: Seq<char>, p: u16|
            bound_on(ev.skip(k), w, h, p) ==> #[trigger] bound_on(ev, w, h, p),
        forall|w: Listener| is_served(ev.skip(k), w) ==> #[trigger] is_served(ev, w),
{
    let t = ev.skip(k);
    assert forall|w: Listener, h: Seq<char>, p: u16| bound_on(t, w, h, p) implies #[trigger] bound_on(
        ev,
        w,
        h,
        p,
    ) by {
        let i = choose|i: int|
            0 <= i < t.len() && (#[trigger] t[i] matches ListenEvent::Bound {
                what: x,
                host: y,
                port: z,
                res,
            } && x == w && y == h && z == p && res is Ok);
        assert(ev[i + k] == t[i]);
    }
    assert forall|w: Listener| is_served(t, w) implies #[trigger] is_served(ev, w) by {
        let i = choose|i: int| 0 <= i < t.len() && #[trigger] t[i] == ListenEvent::Served(w);
        assert(ev[i + k] == t[i]);
    }
}

proof fn lemma_joined_served(a: Seq<ListenEvent>, b: Seq<ListenEvent>, w: Listener)
    ensures
        is_served(a, w) || is_served(b, w) ==> is_served(a + b, w),
{
    let ev = a + b;
    if is_served(a, w) {
        let i = choose|i: int| 0 <= i < a.len() && #[trigger] a[i] == ListenEvent::Served(w);
        assert(ev[i] == a[i]);
    } else if is_served(b, w) {
        let i = choose|i: int| 0 <= i < b.len() && #[trigger] b[i] == ListenEvent::Served(w);
        assert(ev[i + a.len()] == b[i]);
    }
}

proof fn lemma_all_served(opts: EmulateOpts, b: Before, from: Seq<char>)
    ensures
        ({
            let ev = listeners_served(opts, from) + notices(opts, b);
            &&& is_served(ev, Listener::Mqtt)
            &&& opts.ftp_port is Some ==> is_served(ev, Listener::Ftp)
            &&& opts.camera is Some ==> is_served(ev, Listener::Camera)
            &&& opts.detect_port is Some ==> is_served(ev, Listener::Detect)
            &&& opts.detect_tls_port is Some ==> is_served(ev, Listener::DetectTls)
        }),
{
    let host = opts.host@;
    let a = seq![ListenEvent::Served(Listener::Mqtt)];
    let f = match opts.ftp_port {
        Some(p) => served(
            Listener::Ftp,
            "emulate: FTP relay on ftps://"@ + shown_addr(host, p) + " (implicit TLS)"@,
        ),
        None => Seq::empty(),
    };
    let c = match opts.camera {
        Some(c) => served(
            Listener::Camera,
            "emulate: chamber camera on "@ + shown_addr(host, c.port) + ", showing "@ + from,
        ),
        None => Seq::empty(),
    };
    let d = served_detect(Listener::Detect, "plain"@, host, opts.detect_port);
    let t = served_detect(Listener::DetectTls, "TLS"@, host, opts.detect_tls_port);
    let all = listeners_served(opts, from);
    assert(all == a + f + c + d + t);
    assert(a[0] == ListenEvent::Served(Listener::Mqtt));
    assert(opts.ftp_port is Some ==> f[0] == ListenEvent::Served(Listener::Ftp));
    assert(opts.camera is Some ==> c[0] == ListenEvent::Served(Listener::Camera));
    assert(opts.detect_port is Some ==> d[0] == ListenEvent::Served(Listener::Detect));
    assert(opts.detect_tls_port is Some ==> t[0] == ListenEvent::Served(Listener::DetectTls));
    lemma_kept(a, f, c, d, t, notices(opts, b), Listener::Mqtt);
    lemma_kept(a, f, c, d, t, notices(opts, b), Listener::Ftp);
    lemma_kept(a, f, c, d, t, notices(opts, b), Listener::Camera);
    lemma_kept(a, f, c, d, t, notices(opts, b), Listener::Detect);
    lemma_kept(a, f, c, d, t, notices(opts, b), Listener::DetectTls);
}

proof fn lemma_kept(
    a: Seq<ListenEvent>,
    f: Seq<ListenEvent>,
    c: Seq<ListenEvent>,
    d: Seq<ListenEvent>,
    t: Seq<ListenEvent>,
    n: Seq<ListenEvent>,
    w: Listener,
)
    ensures
        is_served(a, w) || is_served(f, w) || is_served(c, w) || is_served(d, w) || is_served(t, w)
            ==> is_served(a + f + c + d + t + n, w),
{
    lemma_joined_served(a, f, w);
    lemma_joined_served(a + f, c, w);
    lemma_joined_served(a + f + c, d, w);
    lemma_joined_served(a + f + c + d, t, w);
    lemma_joined_served(a + f + c + d + t, n, w);
}

/// What a start that went through has done from `announced` on.
spec fn all_served(ev: Seq<ListenEvent>, opts: EmulateOpts) -> bool {
    &&& is_served(ev, Listener::Mqtt)
    &&& opts.ftp_port is Some ==> is_served(ev, Listener::Ftp)
    &&& opts.camera is Some ==> is_served(ev, Listener::Camera)
    &&& opts.detect_port is Some ==> is_served(ev, Listener::Detect)
    &&& opts.detect_tls_port is Some ==> is_served(ev, Listener::DetectTls)
}

proof fn lemma_camera_ready<P, S>(
    ev: Seq<ListenEvent>,
    opts: EmulateOpts,
    b: Before,
    cameras: Seq<ExternalCamera<P, S>>,
    s: Settled,
)
    requires
        camera_bound(ev, opts, b, cameras, Ok(s)),
    ensures
        all_served(ev, opts),
        opts.camera matches Some(c) ==> bound_on(ev, Listener::Camera, opts.host@, c.port),
        opts.camera matches Some(c) ==> (s.camera matches Some(x) && camera_chosen(
            c,
            cameras,
            Ok(x),
        )),
        opts.camera is None ==> s.camera is None,
{
    match opts.camera {
        None => {
            lemma_all_served(opts, b, told_of(None));
        },
        Some(want) => {
            let choice = choose|choice: Result<CameraChoice, String>| #[trigger]
                camera_chosen(want, cameras, choice) && match choice {
                    Err(e) => ev.len() == 0 && start_failed(Ok(s), e@),
                    Ok(c) => {
                        &&& binds(ev, Listener::Camera, opts.host@, want.port, Ok(s))
                        &&& is_bound(ev[0]) ==> announced(ev.skip(1), opts, b, Some(c), Ok(s))
                    },
                };
            lemma_all_served(opts, b, told_of(Some(choice->Ok_0)));
            lemma_later(ev, 1);
        },
    }
}

proof fn lemma_detect_tls_ready<P, S>(
    ev: Seq<ListenEvent>,
    opts: EmulateOpts,
    b: Before,
    cameras: Seq<ExternalCamera<P, S>>,
    s: Settled,
)
    requires
        detect_tls_bound(ev, opts, b, cameras, Ok(s)),
    ensures
        all_served(ev, opts),
        opts.camera matches Some(c) ==> bound_on(ev, Listener::Camera, opts.host@, c.port),
        opts.detect_tls_port matches Some(p) ==> bound_on(ev, Listener::DetectTls, opts.host@, p),
        opts.camera matches Some(c) ==> (s.camera matches Some(x) && camera_chosen(
            c,
            cameras,
            Ok(x),
        )),
        opts.camera is None ==> s.camera is None,
{
    if opts.detect_tls_port is Some {
        lemma_camera_ready(ev.skip(1), opts, b, cameras, s);
        lemma_later(ev, 1);
    } else {
        lemma_camera_ready(ev, opts, b, cameras, s);
    }
}

proof fn lemma_detect_ready<P, S>(
    ev: Seq<ListenEvent>,
    opts: EmulateOpts,
    b: Before,
    cameras: Seq<ExternalCamera<P, S>>,
    s: Settled,
)
    requires
        detect_bound(ev, opts, b, cameras, Ok(s)),
    ensures
        all_served(ev, opts),
        opts.camera matches Some(c) ==> bound_on(ev, Listener::Camera, opts.host@, c.port),
        opts.detect_tls_port matches Some(p) ==> bound_on(ev, Listener::DetectTls, opts.host@, p),
        opts.detect_port matches Some(p) ==> bound_on(ev, Listener::Detect, opts.host@, p),
        opts.camera matches Some(c) ==> (s.camera matches Some(x) && camera_chosen(
            c,
            cameras,
            Ok(x),
        )),
        opts.camera is None ==> s.camera is None,
{
    if opts.detect_port is Some {
        lemma_detect_tls_ready(ev.skip(1), opts, b, cameras, s);
        lemma_later(ev, 1);
    } else {
        lemma_detect_tls_ready(ev, opts, b, cameras, s);
    }
}

/// A start that went through has bound, on the host that was given, and serves every
/// listener that was asked for, each on its own port; and the camera that stands in is
/// the one that was asked for.
pub proof fn every_listener_asked_for_is_served<P, S>(
    ev: Seq<ListenEvent>,
    serial: Seq<char>,
    code: Seq<char>,
    opts: EmulateOpts,
    cameras: Seq<ExternalCamera<P, S>>,
    s: Settled,
)
    requires
        emulator_started(ev, serial, code, opts, cameras, Ok(s)),
    ensures
        bound_on(ev, Listener::Mqtt, opts.host@, opts.port),
        is_served(ev, Listener::Mqtt),
        opts.ftp_port matches Some(p) ==> bound_on(ev, Listener::Ftp, opts.host@, p) && is_served(
            ev,
            Listener::Ftp,
        ),
        opts.detect_port matches Some(p) ==> bound_on(ev, Listener::Detect, opts.host@, p)
            && is_served(ev, Listener::Detect),
        opts.detect_tls_port matches Some(p) ==> bound_on(ev, Listener::DetectTls, opts.host@, p)
            && is_served(ev, Listener::DetectTls),
        opts.camera matches Some(c) ==> bound_on(ev, Listener::Camera, opts.host@, c.port)
            && is_served(ev, Listener::Camera) && (s.camera matches Some(x) && camera_chosen(
            c,
            cameras,
            Ok(x),
        )),
        opts.camera is None ==> s.camera is None,
{
    let t = ev.skip(2);
    let b = Before {
        serial,
        access_code: code,
        identity: opt_text(ev[0]->Identity_0->Ok_0),
        pasv: None,
    };
    assert(ev.skip(1)[0] == ev[1]);
    assert(ftp_bound(t, opts, b, cameras, Ok(s)));
    match opts.ftp_port {
        None => {
            lemma_detect_ready(t, opts, b, cameras, s);
        },
        Some(port) => match opts.pasv_ports {
            None => {
                lemma_detect_ready(t.skip(1), opts, b, cameras, s);
                lemma_later(t, 1);
                assert(t[0] is Bound);
            },
            Some(range) => {
                let p = pasv_range(range@)->Ok_0;
                let c = Before { pasv: Some((p.0 as u16, p.1 as u16)), ..b };
                assert(t.skip(1)[0] == t[1]);
                lemma_detect_ready(t.skip(2), opts, c, cameras, s);
                lemma_later(t, 2);
                assert(t[1] is Bound);
            },
        },
    }
    lemma_later(ev, 2);
}

/// Clients are told the address that was given for it, or else the one that the host
/// is; and data connections are confined to the ports that were given, from the first
/// to the last.
pub proof fn clients_are_told_where_to_go<P, S>(
    ev: Seq<ListenEvent>,
    serial: Seq<char>,
    code: Seq<char>,
    opts: EmulateOpts,
    cameras: Seq<ExternalCamera<P, S>>,
    s: Settled,
)
    requires
        emulator_started(ev, serial, code, opts, cameras, Ok(s)),
    ensures
        opts.advertise matches Some(q) ==> s.printer.advertised == q,
        opts.advertise is None ==> opts.host@ == crate::net::quad_text(
            s.printer.advertised.0,
            s.printer.advertised.1,
            s.printer.advertised.2,
            s.printer.advertised.3,
        ) && s.printer.advertised != (0u8, 0u8, 0u8, 0u8),
        s.ftp matches Some(relay) ==> match opts.pasv_ports {
            None => relay.confined_to() is None,
            Some(range) => relay.confined_to() matches Some(p) && pasv_range(range@) == Ok::<
                (nat, nat),
                Seq<char>,
            >((p.0 as nat, p.1 as nat)),
        },
{
    if opts.pasv_ports is Some {
        crate::net::a_range_holds_a_port(opts.pasv_ports->0@);
    }
}

} // verus!
