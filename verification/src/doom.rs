//! A game behind the printer's own interface: the engine's frames and its account
//! of the player come in, key presses go out.
//!
//! What is done outside goes through ports, and taps keep the log of it. What is
//! done is stated by machines that read those logs.
use vstd::prelude::*;

use crate::json::{first_key, json_first_key, json_string_at, string_at};
use crate::number::{decimal, digits};
use crate::text::{debug_text, join3, join4, join_all, joined, opt_text, quoted, texts};

verus! {

// ── What a request was ──────────────────────────────────────────────────────

/// A request in one line: what it is about, what it asks for and with what.
pub open spec fn described(
    category: Option<Seq<char>>,
    command: Option<Seq<char>>,
    param: Option<Seq<char>>,
) -> Seq<char> {
    match category {
        None => "an empty request"@,
        Some(c) => {
            let head = c + "."@ + match command {
                Some(x) => x,
                None => "?"@,
            };
            match param {
                Some(p) => head + " "@ + debug_text(p),
                None => head,
            }
        },
    }
}

/// A request in one line, from its parts.
pub fn describe_parts(
    category: &Option<String>,
    command: &Option<String>,
    param: &Option<String>,
) -> (r: String)
    ensures
        r@ == described(opt_text(*category), opt_text(*command), opt_text(*param)),
{
    let c = match category {
        Some(c) => c,
        None => {
            return "an empty request".to_owned();
        },
    };
    let head = match command {
        Some(x) => join3(c.as_str(), ".", x.as_str()),
        None => join3(c.as_str(), ".", "?"),
    };
    match param {
        Some(p) => {
            let q = quoted(p.as_str());
            join3(head.as_str(), " ", q.as_str())
        },
        None => head,
    }
}

/// A request in JSON, in one line.
pub fn describe(payload: &str) -> (r: String)
    ensures
        r@ == described(
            json_first_key(payload@),
            match json_first_key(payload@) {
                Some(c) => json_string_at(payload@, "/"@ + c + "/command"@),
                None => None,
            },
            match json_first_key(payload@) {
                Some(c) => json_string_at(payload@, "/"@ + c + "/param"@),
                None => None,
            },
        ),
{
    let category = first_key(payload);
    let (command, param): (Option<String>, Option<String>) = match &category {
        Some(c) => {
            let at_command = join3("/", c.as_str(), "/command");
            let at_param = join3("/", c.as_str(), "/param");
            (string_at(payload, at_command.as_str()), string_at(payload, at_param.as_str()))
        },
        None => (None, None),
    };
    describe_parts(&category, &command, &param)
}

/// A key that is held down for so many milliseconds.
#[derive(Debug)]
pub struct Hold {
    pub key: String,
    pub ms: u64,
}

pub open spec fn hold_text(h: Hold) -> Seq<char> {
    h.key@ + " for "@ + digits(h.ms as nat) + "ms"@
}

/// What the log says of a request: the keys that it presses, or that it presses
/// none.
pub fn press_line(description: &str, holds: &Vec<Hold>) -> (r: String)
    ensures
        r@ == "emulate-doom: "@ + description@ + " — "@ + (if holds@.len() == 0 {
            "nothing bound"@
        } else {
            joined(holds@.map_values(|h: Hold| hold_text(h)), ", "@)
        }),
{
    if holds.len() == 0 {
        return join4("emulate-doom: ", description, " — ", "nothing bound");
    }
    let mut pressed: Vec<String> = Vec::new();
    let mut i: usize = 0;
    while i < holds.len()
        invariant
            i <= holds@.len(),
            pressed@.len() == i,
            forall|k: int| 0 <= k < i ==> (#[trigger] pressed@[k])@ == hold_text(holds@[k]),
        decreases holds@.len() - i,
    {
        let ms = decimal(holds[i].ms);
        pressed.push(join4(holds[i].key.as_str(), " for ", ms.as_str(), "ms"));
        i += 1;
    }
    proof {
        assert(texts(pressed@) =~= holds@.map_values(|h: Hold| hold_text(h)));
    }
    let all = join_all(&pressed, ", ");
    join4("emulate-doom: ", description, " — ", all.as_str())
}

// ── The engine's pipe ───────────────────────────────────────────────────────

/// How long the header of a record is.
pub const FRAME_HEADER: usize = 16;

/// What a record is.
#[derive(Clone, Copy, Debug, PartialEq, Eq, Structural)]
pub enum Record {
    Frame { len: usize },
    Status { len: usize },
}

/// How the player is doing.
#[derive(Clone, Copy, Debug, PartialEq, Eq, Structural)]
pub struct Vitals {
    pub health: Option<i64>,
    pub armour: Option<i64>,
}

/// What reading so many bytes gave.
#[derive(Debug)]
pub enum Exactly {
    Whole(Vec<u8>),
    /// The pipe ended before.
    Ended(String),
    Failed(String),
}

/// What the engine's pipe asks of the outside.
pub trait EnginePort {
    /// Whether no one is left to show the frames to.
    fn closed(&mut self) -> bool;

    /// Read exactly so many bytes.
    fn read_exact(&mut self, n: usize) -> Exactly;

    /// What the record with this header is.
    fn classify(&mut self, header: &Vec<u8>) -> Result<Record, String>;

    fn is_jpeg(&mut self, frame: &Vec<u8>) -> bool;

    /// Show a frame.
    fn publish(&mut self, frame: &Vec<u8>);

    /// Read a status record.
    fn parse_vitals(&mut self, payload: &Vec<u8>) -> Vitals;

    /// Keep what was said of the player.
    fn keep_vitals(&mut self, v: Vitals);

    /// Tell whoever runs the server.
    fn say(&mut self, text: &str);
}

/// One thing that was asked of the outside and its answer.
#[allow(inconsistent_fields)]
pub enum EngineEvent {
    Closed(bool),
    Read { n: usize, res: Exactly },
    Classified { header: Seq<u8>, res: Result<Record, String> },
    Jpeg { frame: Seq<u8>, yes: bool },
    Published(Seq<u8>),
    Parsed { payload: Seq<u8>, vitals: Vitals },
    Kept(Vitals),
    Said(Seq<char>),
}

/// A port and the log of what went through it.
pub struct EngineTap<P> {
    port: P,
    events: Ghost<Seq<EngineEvent>>,
}

impl<P: EnginePort> EngineTap<P> {
    /// What went through the port so far.
    pub closed spec fn log(self) -> Seq<EngineEvent> {
        self.events@
    }

    /// The port as it is now.
    pub closed spec fn inner(self) -> P {
        self.port
    }

    pub fn new(port: P) -> (r: EngineTap<P>)
        ensures
            r.inner() == port,
            r.log() == Seq::<EngineEvent>::empty(),
    {
        EngineTap { port, events: Ghost(Seq::empty()) }
    }

    /// The port again.
    pub fn into_port(self) -> (r: P)
        ensures
            r == self.inner(),
    {
        self.port
    }

    fn closed(&mut self) -> (r: bool)
        ensures
            final(self).log() == old(self).log().push(EngineEvent::Closed(r)),
    {
        let r: bool = self.port.closed();
        self.events = Ghost(self.events@.push(EngineEvent::Closed(r)));
        r
    }

    fn read_exact(&mut self, n: usize) -> (r: Exactly)
        ensures
            final(self).log() == old(self).log().push(EngineEvent::Read { n, res: r }),
    {
        let r = self.port.read_exact(n);
        self.events = Ghost(self.events@.push(EngineEvent::Read { n, res: r }));
        r
    }

    fn classify(&mut self, header: &Vec<u8>) -> (r: Result<Record, String>)
        ensures
            final(self).log() == old(self).log().push(EngineEvent::Classified { header: header@, res: r }),
    {
        let r = self.port.classify(header);
        self.events = Ghost(self.events@.push(EngineEvent::Classified { header: header@, res: r }));
        r
    }

    fn is_jpeg(&mut self, frame: &Vec<u8>) -> (r: bool)
        ensures
            final(self).log() == old(self).log().push(EngineEvent::Jpeg { frame: frame@, yes: r }),
    {
        let r: bool = self.port.is_jpeg(frame);
        self.events = Ghost(self.events@.push(EngineEvent::Jpeg { frame: frame@, yes: r }));
        r
    }

    fn publish(&mut self, frame: &Vec<u8>)
        ensures
            final(self).log() == old(self).log().push(EngineEvent::Published(frame@)),
    {
        self.port.publish(frame);
        self.events = Ghost(self.events@.push(EngineEvent::Published(frame@)));
    }

    fn parse_vitals(&mut self, payload: &Vec<u8>) -> (r: Vitals)
        ensures
            final(self).log() == old(self).log().push(EngineEvent::Parsed { payload: payload@, vitals: r }),
    {
        let r = self.port.parse_vitals(payload);
        self.events = Ghost(self.events@.push(EngineEvent::Parsed { payload: payload@, vitals: r }));
        r
    }

    fn keep_vitals(&mut self, v: Vitals)
        ensures
            final(self).log() == old(self).log().push(EngineEvent::Kept(v)),
    {
        self.port.keep_vitals(v);
        self.events = Ghost(self.events@.push(EngineEvent::Kept(v)));
    }

    fn say(&mut self, text: &str)
        ensures
            final(self).log() == old(self).log().push(EngineEvent::Said(text@)),
    {
        self.port.say(text);
        self.events = Ghost(self.events@.push(EngineEvent::Said(text@)));
    }
}

/// How reading the pipe ended.
pub type PipeEnd = Result<(), Seq<char>>;

/// Where reading the pipe stands.
pub enum PipeStand {
    Top,
    /// About to read a header.
    Heading,
    Headed(Seq<u8>),
    /// About to read a frame of this length.
    Framing(usize),
    /// With the frame of a record of this length.
    Framed(usize, Seq<u8>),
    /// The frame of a record of this length is no picture.
    Skipping(usize),
    /// About to tell of the first frame.
    Announcing(usize, Seq<u8>),
    Showing(Seq<u8>),
    /// About to read a status of this length.
    Stating(usize),
    Stated(Seq<u8>),
    /// About to tell that the player is reported.
    Telling(Vitals),
    Keeping(Vitals),
    Over(PipeEnd),
    /// Something else was done.
    Astray,
}

/// Where reading the pipe stands, whether a frame was shown, and whether it was told
/// that the player is reported.
pub struct PipeState {
    pub stand: PipeStand,
    pub shown: bool,
    pub told: bool,
}

pub open spec fn pipe_at(s: PipeState, stand: PipeStand) -> PipeState {
    PipeState { stand, ..s }
}

/// Nothing is known of the player.
pub open spec fn no_vitals() -> Vitals {
    Vitals { health: None, armour: None }
}

/// What is said of a frame that is no picture.
pub open spec fn not_a_picture(len: usize) -> Seq<char> {
    "emulate-doom: the engine sent "@ + digits(len as nat)
        + " bytes that are not a JPEG; skipped"@
}

/// What is said of the first frame: it tells an engine that draws nothing from a
/// client that never asked.
pub open spec fn first_frame(len: usize) -> Seq<char> {
    "emulate-doom: first frame from the engine, "@ + digits(len as nat) + " bytes"@
}

/// What is said once the player is reported: it tells an engine that reports nothing
/// from a game in which no one is hurt.
pub open spec fn player_reported() -> Seq<char> {
    "emulate-doom: the engine reports the player — health is the nozzle temperature from here on"@
}

/// What reading the pipe does where it stands, and where that takes it.
pub open spec fn pipe_step(s: PipeState, e: EngineEvent) -> PipeState {
    match (s.stand, e) {
        (PipeStand::Top, EngineEvent::Closed(gone)) => if gone {
            pipe_at(s, PipeStand::Over(Ok(())))
        } else {
            pipe_at(s, PipeStand::Heading)
        },
        (PipeStand::Heading, EngineEvent::Read { n, res }) => if n != FRAME_HEADER {
            pipe_at(s, PipeStand::Astray)
        } else {
            match res {
                Exactly::Whole(h) => pipe_at(s, PipeStand::Headed(h@)),
                Exactly::Ended(_) => pipe_at(s, PipeStand::Over(Ok(()))),
                Exactly::Failed(e) => pipe_at(s, PipeStand::Over(Err(e@))),
            }
        },
        (PipeStand::Headed(h), EngineEvent::Classified { header, res }) => if header != h {
            pipe_at(s, PipeStand::Astray)
        } else {
            match res {
                Ok(Record::Frame { len }) => pipe_at(s, PipeStand::Framing(len)),
                Ok(Record::Status { len }) => pipe_at(s, PipeStand::Stating(len)),
                Err(e) => pipe_at(s, PipeStand::Over(Err(e@))),
            }
        },
        (PipeStand::Framing(len), EngineEvent::Read { n, res }) => if n != len {
            pipe_at(s, PipeStand::Astray)
        } else {
            match res {
                Exactly::Whole(f) => pipe_at(s, PipeStand::Framed(len, f@)),
                Exactly::Ended(e) => pipe_at(s, PipeStand::Over(Err(e@))),
                Exactly::Failed(e) => pipe_at(s, PipeStand::Over(Err(e@))),
            }
        },
        (PipeStand::Framed(len, f), EngineEvent::Jpeg { frame, yes }) => if frame != f {
            pipe_at(s, PipeStand::Astray)
        } else if !yes {
            pipe_at(s, PipeStand::Skipping(len))
        } else if s.shown {
            pipe_at(s, PipeStand::Showing(f))
        } else {
            pipe_at(s, PipeStand::Announcing(len, f))
        },
        (PipeStand::Skipping(len), EngineEvent::Said(text)) => if text != not_a_picture(len) {
            pipe_at(s, PipeStand::Astray)
        } else {
            pipe_at(s, PipeStand::Top)
        },
        (PipeStand::Announcing(len, f), EngineEvent::Said(text)) => if text != first_frame(len) {
            pipe_at(s, PipeStand::Astray)
        } else {
            pipe_at(s, PipeStand::Showing(f))
        },
        (PipeStand::Showing(f), EngineEvent::Published(frame)) => if frame != f {
            pipe_at(s, PipeStand::Astray)
        } else {
            PipeState { stand: PipeStand::Top, shown: true, ..s }
        },
        (PipeStand::Stating(len), EngineEvent::Read { n, res }) => if n != len {
            pipe_at(s, PipeStand::Astray)
        } else {
            match res {
                Exactly::Whole(p) => pipe_at(s, PipeStand::Stated(p@)),
                Exactly::Ended(e) => pipe_at(s, PipeStand::Over(Err(e@))),
                Exactly::Failed(e) => pipe_at(s, PipeStand::Over(Err(e@))),
            }
        },
        (PipeStand::Stated(p), EngineEvent::Parsed { payload, vitals }) => if payload != p {
            pipe_at(s, PipeStand::Astray)
        } else if !s.told && vitals != no_vitals() {
            pipe_at(s, PipeStand::Telling(vitals))
        } else {
            pipe_at(s, PipeStand::Keeping(vitals))
        },
        (PipeStand::Telling(v), EngineEvent::Said(text)) => if text != player_reported() {
            pipe_at(s, PipeStand::Astray)
        } else {
            PipeState { stand: PipeStand::Keeping(v), told: true, ..s }
        },
        (PipeStand::Keeping(v), EngineEvent::Kept(w)) => if w != v {
            pipe_at(s, PipeStand::Astray)
        } else {
            pipe_at(s, PipeStand::Top)
        },
        _ => pipe_at(s, PipeStand::Astray),
    }
}

/// Where doing all of `ev` takes it.
pub open spec fn pipe_run(ev: Seq<EngineEvent>) -> PipeState
    decreases ev.len(),
{
    if ev.len() == 0 {
        PipeState { stand: PipeStand::Top, shown: false, told: false }
    } else {
        pipe_step(pipe_run(ev.drop_last()), ev.last())
    }
}

/// How many records were begun.
pub open spec fn records(ev: Seq<EngineEvent>) -> int
    decreases ev.len(),
{
    if ev.len() == 0 {
        0
    } else {
        records(ev.drop_last()) + (if ev.last() is Closed {
            1int
        } else {
            0int
        })
    }
}

proof fn lemma_pipe(start: Seq<EngineEvent>, log: Seq<EngineEvent>, e: EngineEvent)
    requires
        start.is_prefix_of(log),
    ensures
        start.is_prefix_of(log.push(e)),
        pipe_run(log.push(e).skip(start.len() as int)) == pipe_step(
            pipe_run(log.skip(start.len() as int)),
            e,
        ),
        records(log.push(e).skip(start.len() as int)) == records(log.skip(start.len() as int)) + (
        if e is Closed {
            1int
        } else {
            0int
        }),
{
    let all = log.push(e).skip(start.len() as int);
    assert(all.drop_last() =~= log.skip(start.len() as int));
    assert(all.last() == e);
}

/// What was told so far.
struct Noted {
    shown: bool,
    told: bool,
}

/// Take a frame of so many bytes that was read whole.
fn take_frame<P: EnginePort>(
    tap: &mut EngineTap<P>,
    len: usize,
    frame: &Vec<u8>,
    noted: &mut Noted,
    Ghost(start): Ghost<Seq<EngineEvent>>,
)
    requires
        start.is_prefix_of(old(tap).log()),
        pipe_run(old(tap).log().skip(start.len() as int)) == (PipeState {
            stand: PipeStand::Framed(len, frame@),
            shown: old(noted).shown,
            told: old(noted).told,
        }),
    ensures
        start.is_prefix_of(final(tap).log()),
        records(final(tap).log().skip(start.len() as int)) == records(
            old(tap).log().skip(start.len() as int),
        ),
        pipe_run(final(tap).log().skip(start.len() as int)) == (PipeState {
            stand: PipeStand::Top,
            shown: final(noted).shown,
            told: final(noted).told,
        }),
{
    let ghost before = tap.log();
    let yes: bool = tap.is_jpeg(frame);
    proof {
        lemma_pipe(start, before, EngineEvent::Jpeg { frame: frame@, yes });
    }
    let n = decimal(len as u64);
    if !yes {
        let text = join3(
            "emulate-doom: the engine sent ",
            n.as_str(),
            " bytes that are not a JPEG; skipped",
        );
        let ghost before = tap.log();
        tap.say(text.as_str());
        proof {
            lemma_pipe(start, before, EngineEvent::Said(text@));
        }
        return;
    }
    if !noted.shown {
        let text = join3("emulate-doom: first frame from the engine, ", n.as_str(), " bytes");
        let ghost before = tap.log();
        tap.say(text.as_str());
        proof {
            lemma_pipe(start, before, EngineEvent::Said(text@));
        }
    }
    let ghost before = tap.log();
    tap.publish(frame);
    proof {
        lemma_pipe(start, before, EngineEvent::Published(frame@));
    }
    noted.shown = true;
}

/// Take a status record that was read whole.
fn take_status<P: EnginePort>(
    tap: &mut EngineTap<P>,
    payload: &Vec<u8>,
    noted: &mut Noted,
    Ghost(start): Ghost<Seq<EngineEvent>>,
)
    requires
        start.is_prefix_of(old(tap).log()),
        pipe_run(old(tap).log().skip(start.len() as int)) == (PipeState {
            stand: PipeStand::Stated(payload@),
            shown: old(noted).shown,
            told: old(noted).told,
        }),
    ensures
        start.is_prefix_of(final(tap).log()),
        records(final(tap).log().skip(start.len() as int)) == records(
            old(tap).log().skip(start.len() as int),
        ),
        pipe_run(final(tap).log().skip(start.len() as int)) == (PipeState {
            stand: PipeStand::Top,
            shown: final(noted).shown,
            told: final(noted).told,
        }),
{
    let ghost before = tap.log();
    let vitals = tap.parse_vitals(payload);
    proof {
        lemma_pipe(start, before, EngineEvent::Parsed { payload: payload@, vitals });
    }
    if !noted.told && (vitals.health.is_some() || vitals.armour.is_some()) {
        let ghost before = tap.log();
        tap.say(
            "emulate-doom: the engine reports the player — health is the nozzle temperature from here on",
        );
        proof {
            lemma_pipe(start, before, EngineEvent::Said(player_reported()));
        }
        noted.told = true;
    }
    let ghost before = tap.log();
    tap.keep_vitals(vitals);
    proof {
        lemma_pipe(start, before, EngineEvent::Kept(vitals));
    }
}

/// Read one record after its header.
fn take_record<P: EnginePort>(
    tap: &mut EngineTap<P>,
    record: Record,
    noted: &mut Noted,
    Ghost(start): Ghost<Seq<EngineEvent>>,
) -> (r: Result<(), String>)
    requires
        start.is_prefix_of(old(tap).log()),
        pipe_run(old(tap).log().skip(start.len() as int)) == (PipeState {
            stand: match record {
                Record::Frame { len } => PipeStand::Framing(len),
                Record::Status { len } => PipeStand::Stating(len),
            },
            shown: old(noted).shown,
            told: old(noted).told,
        }),
    ensures
        start.is_prefix_of(final(tap).log()),
        records(final(tap).log().skip(start.len() as int)) == records(
            old(tap).log().skip(start.len() as int),
        ),
        pipe_run(final(tap).log().skip(start.len() as int)) == (PipeState {
            stand: match r {
                Ok(_) => PipeStand::Top,
                Err(e) => PipeStand::Over(Err(e@)),
            },
            shown: final(noted).shown,
            told: final(noted).told,
        }),
{
    let len: usize = match record {
        Record::Frame { len } => len,
        Record::Status { len } => len,
    };
    let ghost before = tap.log();
    let read = tap.read_exact(len);
    proof {
        lemma_pipe(start, before, EngineEvent::Read { n: len, res: read });
    }
    let body = match read {
        Exactly::Whole(f) => f,
        Exactly::Ended(e) => {
            return Err(e);
        },
        Exactly::Failed(e) => {
            return Err(e);
        },
    };
    match record {
        Record::Frame { .. } => take_frame(tap, len, &body, noted, Ghost(start)),
        Record::Status { .. } => take_status(tap, &body, noted, Ghost(start)),
    }
    Ok(())
}

/// Read the engine's pipe until it stops: its frames are shown and what it says of
/// the player is kept. What is no picture is passed over; a record that is neither
/// ends it, since what comes after it could be anything.
pub fn pump_engine<P: EnginePort>(tap: &mut EngineTap<P>) -> (r: Result<(), String>)
    ensures
        old(tap).log().is_prefix_of(final(tap).log()),
        ({
            let ev = final(tap).log().skip(old(tap).log().len() as int);
            match r {
                Ok(_) => pipe_run(ev).stand == PipeStand::Over(Ok(())) || (pipe_run(
                    ev,
                ).stand is Top && records(ev) == u64::MAX),
                Err(e) => pipe_run(ev).stand == PipeStand::Over(Err(e@)),
            }
        }),
{
    let ghost start = tap.log();
    let mut count: u64 = 0;
    let mut noted = Noted { shown: false, told: false };
    proof {
        assert(tap.log().skip(start.len() as int) =~= Seq::<EngineEvent>::empty());
    }
    while count < u64::MAX
        invariant
            start == old(tap).log(),
            start.is_prefix_of(tap.log()),
            records(tap.log().skip(start.len() as int)) == count,
            pipe_run(tap.log().skip(start.len() as int)) == (PipeState {
                stand: PipeStand::Top,
                shown: noted.shown,
                told: noted.told,
            }),
        decreases u64::MAX - count,
    {
        let ghost before = tap.log();
        let gone: bool = tap.closed();
        proof {
            lemma_pipe(start, before, EngineEvent::Closed(gone));
        }
        if gone {
            return Ok(());
        }
        let ghost before = tap.log();
        let read = tap.read_exact(FRAME_HEADER);
        proof {
            lemma_pipe(start, before, EngineEvent::Read { n: FRAME_HEADER, res: read });
        }
        let header = match read {
            Exactly::Whole(h) => h,
            Exactly::Ended(_) => {
                return Ok(());
            },
            Exactly::Failed(e) => {
                return Err(e);
            },
        };
        let ghost before = tap.log();
        let kind = tap.classify(&header);
        proof {
            lemma_pipe(start, before, EngineEvent::Classified { header: header@, res: kind });
        }
        match kind {
            Err(e) => {
                return Err(e);
            },
            Ok(record) => {
                if let Err(e) = take_record(tap, record, &mut noted, Ghost(start)) {
                    return Err(e);
                }
            },
        }
        count += 1;
    }
    Ok(())
}

// ── The keyboard ────────────────────────────────────────────────────────────

/// What the keyboard waits for.
#[derive(Debug)]
pub enum KeyInput {
    Press(Hold),
    /// The time is up.
    Timeout,
    /// No more presses will come.
    Gone,
}

/// What the keyboard asks of the outside. Which keys are down, and until when, the
/// port keeps.
pub trait KeyPort {
    /// When the next key is to be let go, in milliseconds.
    fn next_deadline(&mut self) -> Option<u64>;

    fn now(&mut self) -> u64;

    /// Wait for a press, for so long at most.
    fn receive(&mut self, wait_ms: Option<u64>) -> KeyInput;

    /// Press a key; what to send for it.
    fn press(&mut self, now: u64, hold: &Hold) -> Vec<Vec<u8>>;

    /// Let go of what is due; what to send for it.
    fn expire(&mut self, now: u64) -> Vec<Vec<u8>>;

    /// Let go of everything; what to send for it.
    fn release_all(&mut self) -> Vec<Vec<u8>>;

    /// Send to the engine at once.
    fn send(&mut self, bytes: &Vec<u8>) -> Result<(), String>;

    /// Tell whoever runs the server.
    fn say(&mut self, text: &str);
}

/// One thing that was asked of the outside and its answer.
#[allow(inconsistent_fields)]
pub enum KeyEvent {
    Deadline(Option<u64>),
    Now(u64),
    Received { wait_ms: Option<u64>, input: KeyInput },
    Pressed { now: u64, hold: Hold, out: Seq<Vec<u8>> },
    Expired { now: u64, out: Seq<Vec<u8>> },
    Released(Seq<Vec<u8>>),
    Sent { bytes: Seq<u8>, res: Result<(), String> },
    Said(Seq<char>),
}

/// A port and the log of what went through it.
pub struct KeyTap<P> {
    port: P,
    events: Ghost<Seq<KeyEvent>>,
}

impl<P: KeyPort> KeyTap<P> {
    /// What went through the port so far.
    pub closed spec fn log(self) -> Seq<KeyEvent> {
        self.events@
    }

    /// The port as it is now.
    pub closed spec fn inner(self) -> P {
        self.port
    }

    pub fn new(port: P) -> (r: KeyTap<P>)
        ensures
            r.inner() == port,
            r.log() == Seq::<KeyEvent>::empty(),
    {
        KeyTap { port, events: Ghost(Seq::empty()) }
    }

    /// The port again.
    pub fn into_port(self) -> (r: P)
        ensures
            r == self.inner(),
    {
        self.port
    }

    fn next_deadline(&mut self) -> (r: Option<u64>)
        ensures
            final(self).log() == old(self).log().push(KeyEvent::Deadline(r)),
    {
        let r: Option<u64> = self.port.next_deadline();
        self.events = Ghost(self.events@.push(KeyEvent::Deadline(r)));
        r
    }

    fn now(&mut self) -> (r: u64)
        ensures
            final(self).log() == old(self).log().push(KeyEvent::Now(r)),
    {
        let r: u64 = self.port.now();
        self.events = Ghost(self.events@.push(KeyEvent::Now(r)));
        r
    }

    fn receive(&mut self, wait_ms: Option<u64>) -> (r: KeyInput)
        ensures
            final(self).log() == old(self).log().push(KeyEvent::Received { wait_ms, input: r }),
    {
        let r = self.port.receive(wait_ms);
        self.events = Ghost(self.events@.push(KeyEvent::Received { wait_ms, input: r }));
        r
    }

    fn press(&mut self, now: u64, hold: &Hold) -> (r: Vec<Vec<u8>>)
        ensures
            final(self).log() == old(self).log().push(KeyEvent::Pressed { now, hold: *hold, out: r@ }),
    {
        let r = self.port.press(now, hold);
        self.events = Ghost(self.events@.push(KeyEvent::Pressed { now, hold: *hold, out: r@ }));
        r
    }

    fn expire(&mut self, now: u64) -> (r: Vec<Vec<u8>>)
        ensures
            final(self).log() == old(self).log().push(KeyEvent::Expired { now, out: r@ }),
    {
        let r = self.port.expire(now);
        self.events = Ghost(self.events@.push(KeyEvent::Expired { now, out: r@ }));
        r
    }

    fn release_all(&mut self) -> (r: Vec<Vec<u8>>)
        ensures
            final(self).log() == old(self).log().push(KeyEvent::Released(r@)),
    {
        let r = self.port.release_all();
        self.events = Ghost(self.events@.push(KeyEvent::Released(r@)));
        r
    }

    fn send(&mut self, bytes: &Vec<u8>) -> (r: Result<(), String>)
        ensures
            final(self).log() == old(self).log().push(KeyEvent::Sent { bytes: bytes@, res: r }),
    {
        let r = self.port.send(bytes);
        self.events = Ghost(self.events@.push(KeyEvent::Sent { bytes: bytes@, res: r }));
        r
    }

    fn say(&mut self, text: &str)
        ensures
            final(self).log() == old(self).log().push(KeyEvent::Said(text@)),
    {
        self.port.say(text);
        self.events = Ghost(self.events@.push(KeyEvent::Said(text@)));
    }
}

/// Where the keyboard stands.
pub enum KeyStand {
    Top,
    /// A key is down until then.
    Timing(u64),
    /// Waiting, for so long at most.
    Waiting(Option<u64>),
    Pressing(Hold),
    PressingAt(Hold, u64),
    Expiring,
    ExpiringAt(u64),
    Releasing,
    /// With so many of these sent.
    Sending(Seq<Vec<u8>>, int),
    /// The engine takes nothing any more.
    Dead,
    Over,
    /// Something else was done.
    Astray,
}

pub open spec fn sending(out: Seq<Vec<u8>>, i: int) -> KeyStand {
    if i < out.len() {
        KeyStand::Sending(out, i)
    } else {
        KeyStand::Top
    }
}

/// How long it is until then.
pub open spec fn time_left(at: u64, now: u64) -> u64 {
    if at > now {
        (at - now) as u64
    } else {
        0
    }
}

/// What the keyboard does where it stands, and where that takes it.
pub open spec fn key_step(s: KeyStand, e: KeyEvent) -> KeyStand {
    match (s, e) {
        (KeyStand::Top, KeyEvent::Deadline(d)) => match d {
            Some(at) => KeyStand::Timing(at),
            None => KeyStand::Waiting(None),
        },
        (KeyStand::Timing(at), KeyEvent::Now(t)) => KeyStand::Waiting(Some(time_left(at, t))),
        (KeyStand::Waiting(w), KeyEvent::Received { wait_ms, input }) => if wait_ms != w {
            KeyStand::Astray
        } else {
            match input {
                KeyInput::Press(h) => KeyStand::Pressing(h),
                KeyInput::Timeout => if w is Some {
                    KeyStand::Expiring
                } else {
                    KeyStand::Over
                },
                KeyInput::Gone => if w is Some {
                    KeyStand::Releasing
                } else {
                    KeyStand::Over
                },
            }
        },
        (KeyStand::Pressing(h), KeyEvent::Now(t)) => KeyStand::PressingAt(h, t),
        (KeyStand::PressingAt(h, t), KeyEvent::Pressed { now, hold, out }) => if now != t || hold
            != h {
            KeyStand::Astray
        } else {
            sending(out, 0)
        },
        (KeyStand::Expiring, KeyEvent::Now(t)) => KeyStand::ExpiringAt(t),
        (KeyStand::ExpiringAt(t), KeyEvent::Expired { now, out }) => if now != t {
            KeyStand::Astray
        } else {
            sending(out, 0)
        },
        (KeyStand::Releasing, KeyEvent::Released(out)) => sending(out, 0),
        (KeyStand::Sending(out, i), KeyEvent::Sent { bytes, res }) => if bytes != out[i]@ {
            KeyStand::Astray
        } else if res is Ok {
            sending(out, i + 1)
        } else {
            KeyStand::Dead
        },
        (KeyStand::Dead, KeyEvent::Said(text)) => if text
            != "emulate-doom: the engine stopped listening; controls are dead"@ {
            KeyStand::Astray
        } else {
            KeyStand::Over
        },
        _ => KeyStand::Astray,
    }
}

/// Where doing all of `ev` takes it.
pub open spec fn key_run(ev: Seq<KeyEvent>) -> KeyStand
    decreases ev.len(),
{
    if ev.len() == 0 {
        KeyStand::Top
    } else {
        key_step(key_run(ev.drop_last()), ev.last())
    }
}

/// How often a press was waited for.
pub open spec fn key_waits(ev: Seq<KeyEvent>) -> int
    decreases ev.len(),
{
    if ev.len() == 0 {
        0
    } else {
        key_waits(ev.drop_last()) + (if ev.last() is Received {
            1int
        } else {
            0int
        })
    }
}

proof fn lemma_key(start: Seq<KeyEvent>, log: Seq<KeyEvent>, e: KeyEvent)
    requires
        start.is_prefix_of(log),
    ensures
        start.is_prefix_of(log.push(e)),
        key_run(log.push(e).skip(start.len() as int)) == key_step(
            key_run(log.skip(start.len() as int)),
            e,
        ),
        key_waits(log.push(e).skip(start.len() as int)) == key_waits(log.skip(start.len() as int))
            + (if e is Received {
            1int
        } else {
            0int
        }),
{
    let all = log.push(e).skip(start.len() as int);
    assert(all.drop_last() =~= log.skip(start.len() as int));
    assert(all.last() == e);
}

/// Hold keys down for as long as was asked for, and let go of them in time. Once no
/// more presses can come, everything that is down is let go of.
pub fn keyboard<P: KeyPort>(tap: &mut KeyTap<P>)
    ensures
        old(tap).log().is_prefix_of(final(tap).log()),
        ({
            let ev = final(tap).log().skip(old(tap).log().len() as int);
            key_run(ev) is Over || (key_run(ev) is Top && key_waits(ev) == u64::MAX)
        }),
{
    let ghost start = tap.log();
    let mut count: u64 = 0;
    proof {
        assert(tap.log().skip(start.len() as int) =~= Seq::<KeyEvent>::empty());
    }
    while count < u64::MAX
        invariant
            start == old(tap).log(),
            start.is_prefix_of(tap.log()),
            key_waits(tap.log().skip(start.len() as int)) == count,
            key_run(tap.log().skip(start.len() as int)) is Top,
        decreases u64::MAX - count,
    {
        let ghost before = tap.log();
        let deadline: Option<u64> = tap.next_deadline();
        proof {
            lemma_key(start, before, KeyEvent::Deadline(deadline));
        }
        let mut wait: Option<u64> = None;
        if let Some(at) = deadline {
            let ghost before = tap.log();
            let t: u64 = tap.now();
            proof {
                lemma_key(start, before, KeyEvent::Now(t));
            }
            wait = Some(
                if at > t {
                    at - t
                } else {
                    0
                },
            );
        }
        let ghost before = tap.log();
        let input = tap.receive(wait);
        proof {
            lemma_key(start, before, KeyEvent::Received { wait_ms: wait, input });
        }
        let out: Vec<Vec<u8>> = match input {
            KeyInput::Press(hold) => {
                let ghost before = tap.log();
                let t: u64 = tap.now();
                proof {
                    lemma_key(start, before, KeyEvent::Now(t));
                }
                let ghost before = tap.log();
                let out = tap.press(t, &hold);
                proof {
                    lemma_key(start, before, KeyEvent::Pressed { now: t, hold, out: out@ });
                }
                out
            },
            KeyInput::Timeout => {
                if wait.is_none() {
                    return;
                }
                let ghost before = tap.log();
                let t: u64 = tap.now();
                proof {
                    lemma_key(start, before, KeyEvent::Now(t));
                }
                let ghost before = tap.log();
                let out = tap.expire(t);
                proof {
                    lemma_key(start, before, KeyEvent::Expired { now: t, out: out@ });
                }
                out
            },
            KeyInput::Gone => {
                if wait.is_none() {
                    return;
                }
                let ghost before = tap.log();
                let out = tap.release_all();
                proof {
                    lemma_key(start, before, KeyEvent::Released(out@));
                }
                out
            },
        };
        count += 1;
        let mut i: usize = 0;
        while i < out.len()
            invariant
                start == old(tap).log(),
                start.is_prefix_of(tap.log()),
                i <= out@.len(),
                key_waits(tap.log().skip(start.len() as int)) == count,
                key_run(tap.log().skip(start.len() as int)) == sending(out@, i as int),
            decreases out@.len() - i,
        {
            let ghost before = tap.log();
            let sent = tap.send(&out[i]);
            proof {
                lemma_key(start, before, KeyEvent::Sent { bytes: out@[i as int]@, res: sent });
            }
            if sent.is_err() {
                let ghost before = tap.log();
                tap.say("emulate-doom: the engine stopped listening; controls are dead");
                proof {
                    lemma_key(
                        start,
                        before,
                        KeyEvent::Said(
                            "emulate-doom: the engine stopped listening; controls are dead"@,
                        ),
                    );
                }
                return;
            }
            i += 1;
        }
    }
}

// ── Laws ────────────────────────────────────────────────────────────────────

/// A request is told in one line, as long as its name and what it asks for are:
/// what comes with it never breaks the line.
pub proof fn a_request_is_told_in_one_line(
    category: Seq<char>,
    command: Option<Seq<char>>,
    param: Option<Seq<char>>,
)
    requires
        !category.contains('\n'),
        command matches Some(c) ==> !c.contains('\n'),
        param matches Some(p) ==> !debug_text(p).contains('\n'),
    ensures
        !described(Some(category), command, param).contains('\n'),
{
    reveal_strlit(".");
    reveal_strlit("?");
    reveal_strlit(" ");
    let line = described(Some(category), command, param);
    let cmd = match command {
        Some(x) => x,
        None => "?"@,
    };
    let head = category + "."@ + cmd;
    if line.contains('\n') {
        let i = choose|i: int| 0 <= i < line.len() && line[i] == '\n';
        if i < category.len() {
            assert(category[i] == '\n');
        } else if i < category.len() + 1 {
            assert(line[i] == '.');
        } else if i < head.len() {
            assert(cmd[i - category.len() - 1] == '\n');
            if command is None {
                assert(cmd[0] == '?');
            }
        } else if i < head.len() + 1 {
            assert(line[i] == ' ');
        } else {
            assert(debug_text(param->0)[i - head.len() - 1] == '\n');
        }
    }
}

/// No frame is shown that was not found to be a picture, and none comes out of a
/// status record.
pub proof fn only_frames_are_shown(ev: Seq<EngineEvent>, i: int)
    requires
        !(pipe_run(ev).stand is Astray),
        0 <= i < ev.len(),
        ev[i] is Published,
    ensures
        i >= 1,
        ev[i - 1] == (EngineEvent::Jpeg { frame: ev[i]->Published_0, yes: true }) || (i >= 2
            && ev[i - 1] is Said && ev[i - 2] == (EngineEvent::Jpeg {
            frame: ev[i]->Published_0,
            yes: true,
        })),
    decreases ev.len(),
{
    let less = ev.drop_last();
    if i < less.len() {
        only_frames_are_shown(less, i);
        assert(less[i] == ev[i]);
        assert(less[i - 1] == ev[i - 1]);
        if i >= 2 {
            assert(less[i - 2] == ev[i - 2]);
        }
    } else {
        reveal_with_fuel(pipe_run, 4);
        if less.len() > 0 {
            assert(less.last() == ev[i - 1]);
        }
        if less.len() > 1 {
            assert(less.drop_last().last() == ev[i - 2]);
        }
    }
}

/// A request is told by what it is about and what it asks for, and then with what.
pub proof fn a_request_is_told_by_what_it_asks(
    category: Seq<char>,
    command: Seq<char>,
    param: Seq<char>,
)
    ensures
        (category + "."@ + command).is_prefix_of(
            described(Some(category), Some(command), Some(param)),
        ),
        debug_text(param).is_suffix_of(described(Some(category), Some(command), Some(param))),
        described(Some(category), Some(command), None) == category + "."@ + command,
        described(None, Some(command), Some(param)) == described(None, None, None),
{
    let t = described(Some(category), Some(command), Some(param));
    let h = category + "."@ + command;
    let d = debug_text(param);
    assert(t.subrange(0, h.len() as int) =~= h);
    assert(t.subrange(t.len() - d.len(), t.len() as int) =~= d);
}

proof fn lemma_pipe_led(ev: Seq<EngineEvent>)
    requires
        ev.len() > 0,
        !(pipe_run(ev).stand is Astray),
    ensures
        !(pipe_run(ev.drop_last()).stand is Astray),
        pipe_run(ev) == pipe_step(pipe_run(ev.drop_last()), ev.last()),
{
}

/// A record is read as its header says: the header whole, by its own length, and then
/// as many bytes as it announces; what is judged is what was read.
pub proof fn a_record_is_read_as_announced(ev: Seq<EngineEvent>, i: int)
    requires
        !(pipe_run(ev).stand is Astray),
        0 <= i < ev.len(),
    ensures
        ev[i] is Classified ==> i > 0 && (ev[i - 1] matches EngineEvent::Read {
            n,
            res: Exactly::Whole(h),
        } && n == 16 && h@ == ev[i]->header),
        ev[i] is Jpeg ==> i > 1 && (ev[i - 1] matches EngineEvent::Read {
            n,
            res: Exactly::Whole(f),
        } && f@ == ev[i]->Jpeg_frame && (ev[i - 2] matches EngineEvent::Classified {
            header,
            res: Ok(Record::Frame { len }),
        } && len == n)),
        ev[i] is Parsed ==> i > 1 && (ev[i - 1] matches EngineEvent::Read {
            n,
            res: Exactly::Whole(f),
        } && f@ == ev[i]->payload && (ev[i - 2] matches EngineEvent::Classified {
            header,
            res: Ok(Record::Status { len }),
        } && len == n)),
    decreases ev.len(),
{
    let less = ev.drop_last();
    lemma_pipe_led(ev);
    if i < less.len() {
        a_record_is_read_as_announced(less, i);
        assert(less[i] == ev[i]);
        if i > 0 {
            assert(less[i - 1] == ev[i - 1]);
        }
        if i > 1 {
            assert(less[i - 2] == ev[i - 2]);
        }
    } else if less.len() > 0 {
        lemma_pipe_led(less);
        assert(less.last() == ev[i - 1]);
        let early = less.drop_last();
        if early.len() > 0 {
            lemma_pipe_led(early);
            assert(early.last() == ev[i - 2]);
        }
    }
}

/// What is kept of the player is what was just reported of it.
pub proof fn what_is_reported_is_kept(ev: Seq<EngineEvent>, i: int)
    requires
        !(pipe_run(ev).stand is Astray),
        0 <= i < ev.len(),
        ev[i] is Kept,
    ensures
        i > 0,
        (ev[i - 1] matches EngineEvent::Parsed { payload, vitals } && vitals == ev[i]->Kept_0) || (i
            > 1 && ev[i - 1] is Said && (ev[i - 2] matches EngineEvent::Parsed { payload, vitals }
            && vitals == ev[i]->Kept_0)),
    decreases ev.len(),
{
    let less = ev.drop_last();
    lemma_pipe_led(ev);
    if i < less.len() {
        what_is_reported_is_kept(less, i);
        assert(less[i] == ev[i]);
        assert(less[i - 1] == ev[i - 1]);
        if i > 1 {
            assert(less[i - 2] == ev[i - 2]);
        }
    } else {
        assert(less.len() > 0);
        lemma_pipe_led(less);
        assert(less.last() == ev[i - 1]);
        let early = less.drop_last();
        if early.len() > 0 {
            lemma_pipe_led(early);
            assert(early.last() == ev[i - 2]);
        }
    }
}

proof fn lemma_key_led(ev: Seq<KeyEvent>)
    requires
        ev.len() > 0,
        !(key_run(ev) is Astray),
    ensures
        !(key_run(ev.drop_last()) is Astray),
        key_run(ev) == key_step(key_run(ev.drop_last()), ev.last()),
{
}

/// A key that is held is waited for until its time is up, and no longer, and without one
/// there is no end to the waiting; a press is passed on as it came, at the time at which
/// it came.
pub proof fn a_press_is_passed_on_in_time(ev: Seq<KeyEvent>, i: int)
    requires
        !(key_run(ev) is Astray),
        0 <= i < ev.len(),
    ensures
        ev[i] matches KeyEvent::Received { wait_ms: Some(w), input } ==> i > 1 && (
        ev[i - 1] matches KeyEvent::Now(t) && (ev[i - 2] matches KeyEvent::Deadline(Some(at)) && w
            == (if at > t {
            at - t
        } else {
            0
        }))),
        ev[i] matches KeyEvent::Received { wait_ms: None, input } ==> i > 0 && ev[i - 1]
            == KeyEvent::Deadline(None),
        ev[i] matches KeyEvent::Pressed { now, hold, out } ==> i > 1 && ev[i - 1] == KeyEvent::Now(
            now,
        ) && (ev[i - 2] matches KeyEvent::Received { wait_ms, input: KeyInput::Press(h) } && h
            == hold),
        ev[i] matches KeyEvent::Expired { now, out } ==> i > 1 && ev[i - 1] == KeyEvent::Now(now)
            && (ev[i - 2] matches KeyEvent::Received { wait_ms, input: KeyInput::Timeout }),
        ev[i] is Sent ==> i > 0 && match ev[i - 1] {
            KeyEvent::Pressed { now, hold, out } => out.len() > 0 && ev[i]->bytes == out[0]@,
            KeyEvent::Expired { now, out } => out.len() > 0 && ev[i]->bytes == out[0]@,
            KeyEvent::Released(out) => out.len() > 0 && ev[i]->bytes == out[0]@,
            KeyEvent::Sent { bytes, res } => res is Ok,
            _ => false,
        },
    decreases ev.len(),
{
    let less = ev.drop_last();
    lemma_key_led(ev);
    if i < less.len() {
        a_press_is_passed_on_in_time(less, i);
        assert(less[i] == ev[i]);
        if i > 0 {
            assert(less[i - 1] == ev[i - 1]);
        }
        if i > 1 {
            assert(less[i - 2] == ev[i - 2]);
        }
    } else if less.len() > 0 {
        lemma_key_led(less);
        assert(less.last() == ev[i - 1]);
        let early = less.drop_last();
        if early.len() > 0 {
            lemma_key_led(early);
            assert(early.last() == ev[i - 2]);
        }
    }
}

} // verus!
