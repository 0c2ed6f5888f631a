//! The port that clients knock on first, to be told what printer is here.
//!
//! What is done outside goes through a [`ProbePort`], and a [`ProbeTap`] keeps the
//! log of it. What is done is stated by a machine that reads that log.
use vstd::prelude::*;

use crate::number::{decimal, digits};
use crate::text::{join2, join3};

verus! {

/// What comes from the other side.
#[derive(Debug)]
pub enum ProbeInput {
    /// Bytes; none once it has gone.
    Bytes(Vec<u8>),
    Failed(String),
    /// Nothing came in time.
    Late,
}

/// What a probe asks of the outside. What was decoded last, and what the printer
/// answered last, stays with the port.
pub trait ProbePort {
    /// Reach the printer, and hand it the enquiry.
    fn connect(&mut self, addr: &str) -> Result<(), String>;

    /// Whether what is held is a whole frame.
    fn decode(&mut self, buf: &Vec<u8>) -> Result<bool, String>;

    /// Wait for more, for 10 s at most.
    fn receive(&mut self) -> ProbeInput;

    /// Whether the frame is the enquiry that is answered; its text where it is not.
    fn recognise(&mut self) -> Result<(), String>;

    /// The answer to the enquiry, as a frame.
    fn answer(&mut self) -> Result<Vec<u8>, String>;

    fn write(&mut self, bytes: &Vec<u8>) -> Result<(), String>;

    fn flush(&mut self) -> Result<(), String>;
}

/// One thing that was asked of the outside and its answer.
#[allow(inconsistent_fields)]
pub enum ProbeEvent {
    Connected { addr: Seq<char>, res: Result<(), String> },
    Decoded { buf: Seq<u8>, res: Result<bool, String> },
    Received(ProbeInput),
    Recognised(Result<(), String>),
    Answered(Result<Vec<u8>, String>),
    Wrote { bytes: Seq<u8>, res: Result<(), String> },
    Flushed(Result<(), String>),
}

/// A port and the log of what went through it.
pub struct ProbeTap<P> {
    port: P,
    events: Ghost<Seq<ProbeEvent>>,
}

impl<P: ProbePort> ProbeTap<P> {
    /// What went through the port so far.
    pub closed spec fn log(self) -> Seq<ProbeEvent> {
        self.events@
    }

    /// The port as it is now.
    pub closed spec fn inner(self) -> P {
        self.port
    }

    pub fn new(port: P) -> (r: ProbeTap<P>)
        ensures
            r.inner() == port,
            r.log() == Seq::<ProbeEvent>::empty(),
    {
        ProbeTap { port, events: Ghost(Seq::empty()) }
    }

    /// The port again.
    pub fn into_port(self) -> (r: P)
        ensures
            r == self.inner(),
    {
        self.port
    }

    fn connect(&mut self, addr: &str) -> (r: Result<(), String>)
        ensures
            final(self).log() == old(self).log().push(ProbeEvent::Connected { addr: addr@, res: r }),
    {
        let r = self.port.connect(addr);
        self.events = Ghost(self.events@.push(ProbeEvent::Connected { addr: addr@, res: r }));
        r
    }

    fn decode(&mut self, buf: &Vec<u8>) -> (r: Result<bool, String>)
        ensures
            final(self).log() == old(self).log().push(ProbeEvent::Decoded { buf: buf@, res: r }),
    {
        let r = self.port.decode(buf);
        self.events = Ghost(self.events@.push(ProbeEvent::Decoded { buf: buf@, res: r }));
        r
    }

    fn receive(&mut self) -> (r: ProbeInput)
        ensures
            final(self).log() == old(self).log().push(ProbeEvent::Received(r)),
    {
        let r = self.port.receive();
        self.events = Ghost(self.events@.push(ProbeEvent::Received(r)));
        r
    }

    fn recognise(&mut self) -> (r: Result<(), String>)
        ensures
            final(self).log() == old(self).log().push(ProbeEvent::Recognised(r)),
    {
        let r = self.port.recognise();
        self.events = Ghost(self.events@.push(ProbeEvent::Recognised(r)));
        r
    }

    fn answer(&mut self) -> (r: Result<Vec<u8>, String>)
        ensures
            final(self).log() == old(self).log().push(ProbeEvent::Answered(r)),
    {
        let r = self.port.answer();
        self.events = Ghost(self.events@.push(ProbeEvent::Answered(r)));
        r
    }

    fn write(&mut self, bytes: &Vec<u8>) -> (r: Result<(), String>)
        ensures
            final(self).log() == old(self).log().push(ProbeEvent::Wrote { bytes: bytes@, res: r }),
    {
        let r = self.port.write(bytes);
        self.events = Ghost(self.events@.push(ProbeEvent::Wrote { bytes: bytes@, res: r }));
        r
    }

    fn flush(&mut self) -> (r: Result<(), String>)
        ensures
            final(self).log() == old(self).log().push(ProbeEvent::Flushed(r)),
    {
        let r = self.port.flush();
        self.events = Ghost(self.events@.push(ProbeEvent::Flushed(r)));
        r
    }
}

// ── The machine ─────────────────────────────────────────────────────────────

/// Whom a frame is read from.
pub enum Side {
    /// A client with an enquiry.
    Client,
    /// The printer at this address, with its answer.
    Printer(Seq<char>),
}

/// How it ended.
pub type ProbeEnd = Result<(), Seq<char>>;

/// Where a probe stands.
pub enum ProbeStand {
    /// Before the printer is reached.
    Apart,
    /// With so much of a frame.
    Held(Seq<u8>),
    Waiting(Seq<u8>),
    /// With the whole enquiry.
    Asked,
    Answering,
    Writing(Seq<u8>),
    Flushing,
    Over(ProbeEnd),
    /// Something else was done.
    Astray,
}

pub open spec fn begins(side: Side) -> ProbeStand {
    match side {
        Side::Client => ProbeStand::Held(Seq::empty()),
        Side::Printer(_) => ProbeStand::Apart,
    }
}

/// What is made of the end of what is sent: a client may think better of it, but
/// the printer owes an answer.
pub open spec fn hung_up(side: Side) -> ProbeEnd {
    match side {
        Side::Client => Ok(()),
        Side::Printer(_) => Err("the printer closed the probe without answering"@),
    }
}

pub open spec fn too_large(side: Side, max: nat) -> Seq<char> {
    match side {
        Side::Client => "probe exceeded "@ + digits(max) + " bytes"@,
        Side::Printer(_) => "the printer's reply exceeded "@ + digits(max) + " bytes"@,
    }
}

/// With a whole frame.
pub open spec fn whole(side: Side) -> ProbeStand {
    match side {
        Side::Client => ProbeStand::Asked,
        Side::Printer(_) => ProbeStand::Over(Ok(())),
    }
}

pub open spec fn over(r: Result<(), String>, next: ProbeStand) -> ProbeStand {
    match r {
        Ok(_) => next,
        Err(e) => ProbeStand::Over(Err(e@)),
    }
}

/// What a probe does where it stands, and where that takes it.
pub open spec fn probe_step(side: Side, max: nat, s: ProbeStand, e: ProbeEvent) -> ProbeStand {
    match (s, e) {
        (ProbeStand::Apart, ProbeEvent::Connected { addr, res }) => if side != Side::Printer(
            addr,
        ) {
            ProbeStand::Astray
        } else {
            over(res, ProbeStand::Held(Seq::empty()))
        },
        (ProbeStand::Held(buf), ProbeEvent::Decoded { buf: b, res }) => if b != buf {
            ProbeStand::Astray
        } else {
            match res {
                Err(e) => ProbeStand::Over(Err(e@)),
                Ok(true) => whole(side),
                Ok(false) => ProbeStand::Waiting(buf),
            }
        },
        (ProbeStand::Waiting(buf), ProbeEvent::Received(input)) => match input {
            ProbeInput::Bytes(b) => if b@.len() == 0 {
                ProbeStand::Over(hung_up(side))
            } else if buf.len() + b@.len() > max {
                ProbeStand::Over(Err(too_large(side, max)))
            } else {
                ProbeStand::Held(buf + b@)
            },
            ProbeInput::Failed(e) => ProbeStand::Over(Err(e@)),
            ProbeInput::Late => ProbeStand::Over(Err("no probe within 10s"@)),
        },
        (ProbeStand::Asked, ProbeEvent::Recognised(res)) => match res {
            Ok(_) => ProbeStand::Answering,
            Err(text) => ProbeStand::Over(Err("not a detect enquiry: "@ + text@)),
        },
        (ProbeStand::Answering, ProbeEvent::Answered(res)) => match res {
            Ok(bytes) => ProbeStand::Writing(bytes@),
            Err(e) => ProbeStand::Over(Err(e@)),
        },
        (ProbeStand::Writing(b), ProbeEvent::Wrote { bytes, res }) => if bytes != b {
            ProbeStand::Astray
        } else {
            over(res, ProbeStand::Flushing)
        },
        (ProbeStand::Flushing, ProbeEvent::Flushed(res)) => over(res, ProbeStand::Over(Ok(()))),
        _ => ProbeStand::Astray,
    }
}

/// Where doing all of `ev` takes it.
pub open spec fn probe_run(side: Side, max: nat, ev: Seq<ProbeEvent>) -> ProbeStand
    decreases ev.len(),
{
    if ev.len() == 0 {
        begins(side)
    } else {
        probe_step(side, max, probe_run(side, max, ev.drop_last()), ev.last())
    }
}

proof fn lemma_probe(
    side: Side,
    max: nat,
    start: Seq<ProbeEvent>,
    log: Seq<ProbeEvent>,
    e: ProbeEvent,
)
    requires
        start.is_prefix_of(log),
    ensures
        start.is_prefix_of(log.push(e)),
        probe_run(side, max, log.push(e).skip(start.len() as int)) == probe_step(
            side,
            max,
            probe_run(side, max, log.skip(start.len() as int)),
            e,
        ),
{
    let all = log.push(e).skip(start.len() as int);
    assert(all.drop_last() =~= log.skip(start.len() as int));
    assert(all.last() == e);
}

pub open spec fn end_view(r: Result<(), String>) -> ProbeEnd {
    match r {
        Ok(_) => Ok(()),
        Err(e) => Err(e@),
    }
}

/// Read a whole frame; `None` where the other side hung up before.
fn gather<P: ProbePort>(
    tap: &mut ProbeTap<P>,
    printer: bool,
    max: usize,
    Ghost(side): Ghost<Side>,
    Ghost(start): Ghost<Seq<ProbeEvent>>,
) -> (r: Result<bool, String>)
    requires
        start.is_prefix_of(old(tap).log()),
        printer == (side is Printer),
        probe_run(side, max as nat, old(tap).log().skip(start.len() as int)) == ProbeStand::Held(
            Seq::empty(),
        ),
    ensures
        start.is_prefix_of(final(tap).log()),
        ({
            let end = probe_run(side, max as nat, final(tap).log().skip(start.len() as int));
            match r {
                Ok(true) => end == whole(side),
                Ok(false) => end == ProbeStand::Over(Ok(())) && !printer,
                Err(e) => end == ProbeStand::Over(Err(e@)),
            }
        }),
{
    let mut buf: Vec<u8> = Vec::new();
    proof {
        assert(buf@ =~= Seq::<u8>::empty());
    }
    loop
        invariant
            start.is_prefix_of(tap.log()),
            printer == (side is Printer),
            buf@.len() <= max,
            probe_run(side, max as nat, tap.log().skip(start.len() as int)) == ProbeStand::Held(
                buf@,
            ),
        decreases max - buf@.len(),
    {
        let ghost before = tap.log();
        let decoded = tap.decode(&buf);
        proof {
            lemma_probe(
                side,
                max as nat,
                start,
                before,
                ProbeEvent::Decoded { buf: buf@, res: decoded },
            );
        }
        match decoded {
            Err(e) => {
                return Err(e);
            },
            Ok(true) => {
                return Ok(true);
            },
            Ok(false) => {},
        }
        let ghost before = tap.log();
        let input = tap.receive();
        proof {
            lemma_probe(side, max as nat, start, before, ProbeEvent::Received(input));
        }
        match input {
            ProbeInput::Bytes(b) => {
                if b.len() == 0 {
                    if printer {
                        return Err("the printer closed the probe without answering".to_owned());
                    }
                    return Ok(false);
                }
                if b.len() > max || buf.len() > max - b.len() {
                    let n = decimal(max as u64);
                    return Err(
                        if printer {
                            join3("the printer's reply exceeded ", n.as_str(), " bytes")
                        } else {
                            join3("probe exceeded ", n.as_str(), " bytes")
                        },
                    );
                }
                crate::emulate::hold(&mut buf, &b);
            },
            ProbeInput::Failed(e) => {
                return Err(e);
            },
            ProbeInput::Late => {
                return Err("no probe within 10s".to_owned());
            },
        }
    }
}

/// Answer one client: read its enquiry, answer it, and be done. What is not the
/// enquiry is not answered: a made-up answer would be worse than none.
pub fn answer_one<P: ProbePort>(tap: &mut ProbeTap<P>, max: usize) -> (r: Result<(), String>)
    ensures
        old(tap).log().is_prefix_of(final(tap).log()),
        probe_run(
            Side::Client,
            max as nat,
            final(tap).log().skip(old(tap).log().len() as int),
        ) == ProbeStand::Over(end_view(r)),
{
    let ghost start = tap.log();
    let ghost side = Side::Client;
    let ghost most = max as nat;
    proof {
        assert(tap.log().skip(start.len() as int) =~= Seq::<ProbeEvent>::empty());
    }
    match gather(tap, false, max, Ghost(side), Ghost(start)) {
        Err(e) => {
            return Err(e);
        },
        Ok(false) => {
            return Ok(());
        },
        Ok(true) => {},
    }
    let ghost before = tap.log();
    let known = tap.recognise();
    proof {
        lemma_probe(side, most, start, before, ProbeEvent::Recognised(known));
    }
    if let Err(text) = known {
        return Err(join2("not a detect enquiry: ", text.as_str()));
    }
    let ghost before = tap.log();
    let answer = tap.answer();
    proof {
        lemma_probe(side, most, start, before, ProbeEvent::Answered(answer));
    }
    let bytes = match answer {
        Ok(b) => b,
        Err(e) => {
            return Err(e);
        },
    };
    let ghost before = tap.log();
    let wrote = tap.write(&bytes);
    proof {
        lemma_probe(side, most, start, before, ProbeEvent::Wrote { bytes: bytes@, res: wrote });
    }
    if let Err(e) = wrote {
        return Err(e);
    }
    let ghost before = tap.log();
    let flushed = tap.flush();
    proof {
        lemma_probe(side, most, start, before, ProbeEvent::Flushed(flushed));
    }
    flushed
}

/// Passes an enquiry on to the printer: what it is, what it is called and what it
/// runs are its own to say.
#[derive(Debug)]
pub struct ProxyDetect {
    addr: String,
}

impl ProxyDetect {
    pub closed spec fn address(self) -> Seq<char> {
        self.addr@
    }

    pub fn new(printer_ip: &str, port: u16) -> (r: ProxyDetect)
        ensures
            r.address() == printer_ip@ + ":"@ + digits(port as nat),
    {
        let p = decimal(port as u64);
        ProxyDetect { addr: join3(printer_ip, ":", p.as_str()) }
    }

    /// Ask the printer. Its answer stays with the port.
    pub fn detect<P: ProbePort>(&self, tap: &mut ProbeTap<P>, max: usize) -> (r: Result<
        (),
        String,
    >)
        ensures
            old(tap).log().is_prefix_of(final(tap).log()),
            probe_run(
                Side::Printer(self.address()),
                max as nat,
                final(tap).log().skip(old(tap).log().len() as int),
            ) == ProbeStand::Over(end_view(r)),
    {
        let ghost start = tap.log();
        let ghost side = Side::Printer(self.address());
        proof {
            assert(tap.log().skip(start.len() as int) =~= Seq::<ProbeEvent>::empty());
        }
        let ghost before = tap.log();
        let reached = tap.connect(self.addr.as_str());
        proof {
            lemma_probe(
                side,
                max as nat,
                start,
                before,
                ProbeEvent::Connected { addr: self.addr@, res: reached },
            );
        }
        if let Err(e) = reached {
            return Err(e);
        }
        match gather(tap, true, max, Ghost(side), Ghost(start)) {
            Err(e) => Err(e),
            Ok(_) => Ok(()),
        }
    }
}

/// Answers for a printer that is not there, from what it is presented as.
#[derive(Debug)]
pub struct SyntheticDetect {
    pub serial: String,
    pub model: String,
}

/// What an enquiry is answered.
#[derive(Debug)]
pub struct DetectAnswer {
    pub sequence_id: String,
    pub serial: String,
    pub model: String,
    pub name: String,
    pub version: String,
}

impl SyntheticDetect {
    /// The answer to an enquiry that came under this number.
    pub fn detect(&self, sequence_id: Option<String>) -> (r: DetectAnswer)
        ensures
            r.sequence_id@ == (match sequence_id {
                Some(s) => s@,
                None => "0"@,
            }),
            r.serial@ == self.serial@,
            r.model@ == self.model@,
            r.name@ == "synthetic"@,
            r.version@ == "00.00.00.00"@,
    {
        DetectAnswer {
            sequence_id: match sequence_id {
                Some(s) => s,
                None => "0".to_owned(),
            },
            serial: self.serial.clone(),
            model: self.model.clone(),
            name: "synthetic".to_owned(),
            version: "00.00.00.00".to_owned(),
        }
    }
}

// ── Laws ────────────────────────────────────────────────────────────────────

/// An answer is given only to the enquiry, and it is the one that was asked for:
/// what is written follows an enquiry that was recognised and the answer to it.
pub proof fn nothing_else_is_answered(max: nat, ev: Seq<ProbeEvent>, i: int)
    requires
        !(probe_run(Side::Client, max, ev) is Astray),
        0 <= i < ev.len(),
        ev[i] is Wrote,
    ensures
        i >= 2,
        ev[i - 1] matches ProbeEvent::Answered(Ok(b)) && b@ == ev[i]->Wrote_bytes,
        ev[i - 2] matches ProbeEvent::Recognised(Ok(_)),
    decreases ev.len(),
{
    let less = ev.drop_last();
    if i < less.len() {
        nothing_else_is_answered(max, less, i);
        assert(less[i] == ev[i]);
        assert(less[i - 1] == ev[i - 1]);
        assert(less[i - 2] == ev[i - 2]);
    } else {
        reveal_with_fuel(probe_run, 4);
        if less.len() > 0 {
            assert(less.last() == ev[i - 1]);
            let two = less.drop_last();
            if two.len() > 0 {
                assert(two.last() == ev[i - 2]);
            }
        }
    }
}

/// All that arrived, in order.
pub open spec fn arrived(ev: Seq<ProbeEvent>) -> Seq<u8>
    decreases ev.len(),
{
    if ev.len() == 0 {
        Seq::empty()
    } else {
        arrived(ev.drop_last()) + (match ev.last() {
            ProbeEvent::Received(ProbeInput::Bytes(b)) => b@,
            _ => Seq::empty(),
        })
    }
}

proof fn lemma_holds_what_arrived(side: Side, max: nat, ev: Seq<ProbeEvent>)
    requires
        !(probe_run(side, max, ev) is Astray),
    ensures
        probe_run(side, max, ev) matches ProbeStand::Held(b) ==> b == arrived(ev) && b.len() <= max,
        probe_run(side, max, ev) matches ProbeStand::Waiting(b) ==> b == arrived(ev) && b.len()
            <= max,
    decreases ev.len(),
{
    if ev.len() > 0 {
        lemma_holds_what_arrived(side, max, ev.drop_last());
        assert(arrived(ev) =~= arrived(ev.drop_last()) + (match ev.last() {
            ProbeEvent::Received(ProbeInput::Bytes(b)) => b@,
            _ => Seq::<u8>::empty(),
        }));
    }
}

proof fn lemma_led_there(side: Side, max: nat, ev: Seq<ProbeEvent>, n: int)
    requires
        !(probe_run(side, max, ev) is Astray),
        0 <= n <= ev.len(),
    ensures
        !(probe_run(side, max, ev.take(n)) is Astray),
    decreases ev.len(),
{
    if n < ev.len() {
        lemma_led_there(side, max, ev.drop_last(), n);
        assert(ev.drop_last().take(n) =~= ev.take(n));
    } else {
        assert(ev.take(n) =~= ev);
    }
}

/// What is looked at for a whole frame is all that arrived so far, as it came, and
/// never more than is allowed.
pub proof fn a_frame_is_looked_for_in_all_that_arrived(
    side: Side,
    max: nat,
    ev: Seq<ProbeEvent>,
    i: int,
)
    requires
        !(probe_run(side, max, ev) is Astray),
        0 <= i < ev.len(),
        ev[i] is Decoded,
    ensures
        ev[i]->buf == arrived(ev.take(i)),
        ev[i]->buf.len() <= max,
{
    lemma_led_there(side, max, ev, i + 1);
    let t = ev.take(i + 1);
    assert(t.drop_last() =~= ev.take(i));
    assert(t.last() == ev[i]);
    lemma_led_there(side, max, ev, i);
    lemma_holds_what_arrived(side, max, ev.take(i));
}

/// A client's probe ends well only once its answer is out, or where it hung up; the
/// printer's only with a whole answer. A probe that is too large, late or broken never
/// does.
pub proof fn a_probe_ends_well_only_when_done(side: Side, max: nat, ev: Seq<ProbeEvent>)
    requires
        probe_run(side, max, ev) == ProbeStand::Over(Ok(())),
    ensures
        ev.len() > 0,
        side is Client ==> (ev.last() matches ProbeEvent::Flushed(Ok(_))) || (
        ev.last() matches ProbeEvent::Received(ProbeInput::Bytes(b)) && b@.len() == 0),
        side is Printer ==> (ev.last() matches ProbeEvent::Decoded { buf, res: Ok(true) }),
{
    if side is Printer {
        lemma_the_printer_is_not_answered(side, max, ev.drop_last());
    }
}

proof fn lemma_the_printer_is_not_answered(side: Side, max: nat, ev: Seq<ProbeEvent>)
    requires
        side is Printer,
    ensures
        !(probe_run(side, max, ev) is Asked),
        !(probe_run(side, max, ev) is Answering),
        !(probe_run(side, max, ev) is Writing),
        !(probe_run(side, max, ev) is Flushing),
    decreases ev.len(),
{
    if ev.len() > 0 {
        lemma_the_printer_is_not_answered(side, max, ev.drop_last());
    }
}

/// Who is asked is the printer at its own address, before anything else.
pub proof fn the_printer_is_asked_at_its_address(addr: Seq<char>, max: nat, ev: Seq<ProbeEvent>)
    requires
        !(probe_run(Side::Printer(addr), max, ev) is Astray),
        ev.len() > 0,
    ensures
        ev[0] is Connected,
        ev[0]->addr == addr,
        ev.len() > 1 ==> ev[0]->Connected_res is Ok,
    decreases ev.len(),
{
    let side = Side::Printer(addr);
    reveal_with_fuel(probe_run, 3);
    if ev.len() == 1 {
        assert(ev.drop_last() =~= Seq::<ProbeEvent>::empty());
        assert(ev.last() == ev[0]);
    } else {
        let less = ev.drop_last();
        the_printer_is_asked_at_its_address(addr, max, less);
        assert(less[0] == ev[0]);
        if ev.len() == 2 {
            assert(less.drop_last() =~= Seq::<ProbeEvent>::empty());
            assert(less.last() == ev[0]);
        }
    }
}

/// An enquiry that is whole, recognised and answered is answered in full: after the
/// answer was written and sent off, it is over and well.
pub proof fn an_enquiry_is_answered(
    max: nat,
    ev: Seq<ProbeEvent>,
    yes: Result<(), String>,
    bytes: Vec<u8>,
    sent: Result<(), String>,
    off: Result<(), String>,
)
    requires
        probe_run(Side::Client, max, ev) matches ProbeStand::Held(_),
        yes is Ok,
        sent is Ok,
        off is Ok,
    ensures
        probe_run(
            Side::Client,
            max,
            ev.push(ProbeEvent::Decoded { buf: arrived(ev), res: Ok(true) }).push(
                ProbeEvent::Recognised(yes),
            ).push(ProbeEvent::Answered(Ok(bytes))).push(
                ProbeEvent::Wrote { bytes: bytes@, res: sent },
            ).push(ProbeEvent::Flushed(off)),
        ) == ProbeStand::Over(Ok(())),
{
    lemma_holds_what_arrived(Side::Client, max, ev);
    let a = ev.push(ProbeEvent::Decoded { buf: arrived(ev), res: Ok(true) });
    let b = a.push(ProbeEvent::Recognised(yes));
    let c = b.push(ProbeEvent::Answered(Ok(bytes)));
    let d = c.push(ProbeEvent::Wrote { bytes: bytes@, res: sent });
    let e = d.push(ProbeEvent::Flushed(off));
    assert(a.drop_last() =~= ev);
    assert(b.drop_last() =~= a);
    assert(c.drop_last() =~= b);
    assert(d.drop_last() =~= c);
    assert(e.drop_last() =~= d);
    assert(probe_run(Side::Client, max, a) == ProbeStand::Asked);
    assert(probe_run(Side::Client, max, b) == ProbeStand::Answering);
    assert(probe_run(Side::Client, max, c) == ProbeStand::Writing(bytes@));
    assert(probe_run(Side::Client, max, d) == ProbeStand::Flushing);
}

} // verus!
