//! The sequence that a printer runs immediately before a print starts, and what
//! is made of how it went.
use vstd::prelude::*;

use crate::number::{decimal, digits};
use crate::reply::{reply, CommandOutcome, Refusal, Reply, Task};
use crate::text::{
    before_first, debug_text, head_before, join2, join3, join4, join5, join_all, joined, lines_of,
    opt_text, quoted, split_lines, texts, trim, trimmed, Strip,
};
use crate::trace::lemma_then;

verus! {

/// Why a pre-print sequence did not complete.
#[derive(Debug)]
pub enum HookError {
    /// The sequence is missing, empty, or holds G-code that is refused.
    Config(String),
    /// The printer refused a line, or the motion was never seen to finish.
    Printer(String),
    /// The printer could not be reached or talked to.
    Transport(String),
}

impl HookError {
    pub open spec fn text(self) -> Seq<char> {
        match self {
            HookError::Config(m) => m@,
            HookError::Printer(m) => m@,
            HookError::Transport(m) => m@,
        }
    }

    /// Where to go and fix it: a bad sequence is this side's configuration (500),
    /// a refusal or an unfinished motion the machine's state (409), the rest the
    /// way to it (502).
    pub open spec fn status(self) -> u16 {
        match self {
            HookError::Config(_) => 500,
            HookError::Printer(_) => 409,
            HookError::Transport(_) => 502,
        }
    }

    pub fn message(&self) -> (r: String)
        ensures
            r@ == self.text(),
    {
        match self {
            HookError::Config(m) => m.clone(),
            HookError::Printer(m) => m.clone(),
            HookError::Transport(m) => m.clone(),
        }
    }
}

/// A resolved pre-print sequence.
#[derive(Debug)]
pub struct PrePrint {
    /// What to call it in a message.
    pub name: String,
    /// The file that holds it.
    pub path: String,
    /// How long its motion may take, in milliseconds.
    pub settle_ms: u64,
}

/// Runs a printer's pre-print sequence.
pub trait PrePrintHook {
    /// The sequence that would run; none where this printer has none.
    fn describe(&self) -> Option<&str>;

    /// Run it, returning only once the motion has finished.
    fn run(&self) -> Result<(), HookError>;
}

/// No sequence configured.
pub struct NoHook;

impl PrePrintHook for NoHook {
    fn describe(&self) -> (r: Option<&str>)
        ensures
            r is None,
    {
        None
    }

    fn run(&self) -> (r: Result<(), HookError>)
        ensures
            r is Ok,
    {
        Ok(())
    }
}

// ── The sequence ────────────────────────────────────────────────────────────

/// One line of G-code to send, and the line of the file it stands on, counted
/// from one.
#[derive(Debug)]
pub struct Step {
    pub line_no: u64,
    pub gcode: String,
}

/// The G-code on a line: what stands before its comment, without the space
/// around it.
pub open spec fn code_of(line: Seq<char>) -> Seq<char> {
    trimmed(before_first(line, ';'), Strip::Space)
}

/// The steps of some lines, which are numbered from one.
pub open spec fn steps_in(lines: Seq<Seq<char>>) -> Seq<(nat, Seq<char>)>
    decreases lines.len(),
{
    if lines.len() == 0 {
        Seq::empty()
    } else {
        let code = code_of(lines.last());
        if code.len() == 0 {
            steps_in(lines.drop_last())
        } else {
            steps_in(lines.drop_last()).push((lines.len(), code))
        }
    }
}

/// The steps of a sequence: every line with G-code on it, under its number.
pub open spec fn steps_of(text: Seq<char>) -> Seq<(nat, Seq<char>)> {
    steps_in(lines_of(text))
}

/// Steps by their numbers and their texts.
pub open spec fn steps_view(steps: Seq<Step>) -> Seq<(nat, Seq<char>)> {
    steps.map_values(|s: Step| (s.line_no as nat, s.gcode@))
}

/// The steps of a sequence: every line with G-code on it, under its number.
pub fn parse(text: &str) -> (r: Vec<Step>)
    ensures
        steps_view(r@) == steps_of(text@),
{
    let lines = split_lines(text);
    let mut out: Vec<Step> = Vec::new();
    let mut i: usize = 0;
    proof {
        assert(steps_view(out@) =~= steps_in(texts(lines@).take(0)));
    }
    while i < lines.len()
        invariant
            i <= lines@.len(),
            texts(lines@) == lines_of(text@),
            steps_view(out@) == steps_in(texts(lines@).take(i as int)),
        decreases lines@.len() - i,
    {
        let head = head_before(lines[i].as_str(), ';');
        let code = trim(head.as_str(), Strip::Space);
        let ghost done = texts(lines@).take(i as int);
        let ghost next = texts(lines@).take(i + 1);
        let ghost before = out@;
        proof {
            assert(next.drop_last() =~= done);
            assert(next.last() == lines@[i as int]@);
        }
        if !code.as_str().is_empty() {
            out.push(Step { line_no: (i as u64) + 1, gcode: code });
            proof {
                assert(steps_view(out@) =~= steps_view(before).push((next.len(), code@)));
            }
        }
        i += 1;
    }
    proof {
        assert(texts(lines@).take(i as int) =~= texts(lines@));
    }
    out
}

// ── The outside of a sequence ───────────────────────────────────────────────

/// What came of sending a sequence: how each line went, and what watching the
/// motion came to.
#[derive(Debug)]
pub struct SequenceRun {
    pub outcomes: Vec<CommandOutcome>,
    pub settled: Option<Settle>,
}

/// What a sequence asks of the outside.
pub trait HookPort {
    /// The text of a file.
    fn read(&mut self, path: &str) -> Result<String, String>;

    /// Why a line must not be sent.
    fn check(&mut self, gcode: &str) -> Option<String>;

    /// Send the lines in turn and watch the motion for so many milliseconds.
    fn send_sequence(&mut self, lines: &Vec<String>, settle_ms: u64) -> Result<
        SequenceRun,
        String,
    >;

    /// Which step of how many it is, for a message.
    fn step_context(&mut self, i: usize, total: usize, step: &Step) -> String;
}

/// One question to the outside and its answer.
#[allow(inconsistent_fields)]
pub enum HookEvent {
    Read { path: Seq<char>, res: Result<String, String> },
    Checked { gcode: Seq<char>, why: Option<Seq<char>> },
    Sent { lines: Seq<Seq<char>>, settle_ms: u64, res: Result<SequenceRun, String> },
    Context { i: int, total: int, line_no: nat, gcode: Seq<char>, text: Seq<char> },
}

/// A port and the log of what went through it.
pub struct HookTap<P> {
    port: P,
    events: Ghost<Seq<HookEvent>>,
}

impl<P: HookPort> HookTap<P> {
    /// What went through the port so far.
    pub closed spec fn log(self) -> Seq<HookEvent> {
        self.events@
    }

    /// The port as it is now.
    pub closed spec fn inner(self) -> P {
        self.port
    }

    pub fn new(port: P) -> (r: HookTap<P>)
        ensures
            r.inner() == port,
            r.log() == Seq::<HookEvent>::empty(),
    {
        HookTap { port, events: Ghost(Seq::empty()) }
    }

    /// The port again.
    pub fn into_port(self) -> (r: P)
        ensures
            r == self.inner(),
    {
        self.port
    }

    fn read(&mut self, path: &str) -> (r: Result<String, String>)
        ensures
            final(self).log() == old(self).log().push(HookEvent::Read { path: path@, res: r }),
    {
        let r = self.port.read(path);
        self.events = Ghost(self.events@.push(HookEvent::Read { path: path@, res: r }));
        r
    }

    fn check(&mut self, gcode: &str) -> (r: Option<String>)
        ensures
            final(self).log() == old(self).log().push(
                HookEvent::Checked { gcode: gcode@, why: opt_text(r) },
            ),
    {
        let r = self.port.check(gcode);
        self.events =
        Ghost(self.events@.push(HookEvent::Checked { gcode: gcode@, why: opt_text(r) }));
        r
    }

    fn send_sequence(&mut self, lines: &Vec<String>, settle_ms: u64) -> (r: Result<
        SequenceRun,
        String,
    >)
        ensures
            final(self).log() == old(self).log().push(
                HookEvent::Sent { lines: texts(lines@), settle_ms, res: r },
            ),
    {
        let r = self.port.send_sequence(lines, settle_ms);
        self.events =
        Ghost(self.events@.push(HookEvent::Sent { lines: texts(lines@), settle_ms, res: r }));
        r
    }

    fn step_context(&mut self, i: usize, total: usize, step: &Step) -> (r: String)
        ensures
            final(self).log() == old(self).log().push(
                HookEvent::Context {
                    i: i as int,
                    total: total as int,
                    line_no: step.line_no as nat,
                    gcode: step.gcode@,
                    text: r@,
                },
            ),
    {
        let r = self.port.step_context(i, total, step);
        self.events =
        Ghost(
            self.events@.push(
                HookEvent::Context {
                    i: i as int,
                    total: total as int,
                    line_no: step.line_no as nat,
                    gcode: step.gcode@,
                    text: r@,
                },
            ),
        );
        r
    }
}

// ── Vetting ─────────────────────────────────────────────────────────────────

/// How a refused step is reported.
pub open spec fn unsafe_text(step: (nat, Seq<char>), why: Seq<char>) -> Seq<char> {
    "line "@ + digits(step.0) + ": "@ + step.1 + " ("@ + why + ")"@
}

/// The error of a sequence with nothing to send.
pub open spec fn empty_sequence(source: Seq<char>) -> Seq<char> {
    source + " has no G-code to send (only comments/blank lines)"@
}

/// The reports of the refused ones among these steps, in order.
pub open spec fn refused_among(
    steps: Seq<(nat, Seq<char>)>,
    why: Seq<Option<Seq<char>>>,
) -> Seq<Seq<char>>
    decreases steps.len(),
{
    if steps.len() == 0 {
        Seq::empty()
    } else {
        let before = refused_among(steps.drop_last(), why.drop_last());
        match why.last() {
            Some(w) => before.push(unsafe_text(steps.last(), w)),
            None => before,
        }
    }
}

/// The error of a sequence with refused steps: all of them, since it is
/// confirmed as a whole.
pub open spec fn unsafe_sequence(source: Seq<char>, reports: Seq<Seq<char>>) -> Seq<char> {
    source + " contains unsafe G-code: "@ + joined(reports, "; "@)
}

/// `ev` has each of these steps checked, in order.
pub open spec fn each_checked(ev: Seq<HookEvent>, steps: Seq<(nat, Seq<char>)>) -> bool {
    &&& ev.len() == steps.len()
    &&& forall|i: int|
        0 <= i < ev.len() ==> ((#[trigger] ev[i]) matches HookEvent::Checked { gcode, why } && gcode
            == steps[i].1)
}

/// What the checks said.
pub open spec fn verdicts(ev: Seq<HookEvent>) -> Seq<Option<Seq<char>>> {
    ev.map_values(|e: HookEvent| e->Checked_why)
}

/// `ev` is all that vetting a sequence does outside: each step is checked, and the
/// sequence is fit to run where there is a step and none was refused.
pub open spec fn vetted(
    ev: Seq<HookEvent>,
    text: Seq<char>,
    source: Seq<char>,
    r: Result<Vec<Step>, String>,
) -> bool {
    let steps = steps_of(text);
    let reports = refused_among(steps, verdicts(ev));
    &&& each_checked(ev, steps)
    &&& match r {
        Ok(v) => steps.len() > 0 && reports.len() == 0 && steps_view(v@) == steps,
        Err(e) => if steps.len() == 0 {
            e@ == empty_sequence(source)
        } else {
            reports.len() > 0 && e@ == unsafe_sequence(source, reports)
        },
    }
}

/// The steps of a sequence that is fit to run; `source` names the sequence in an
/// error, which tells of every step that was refused.
pub fn vet_text<P: HookPort>(tap: &mut HookTap<P>, text: &str, source: &str) -> (r: Result<
    Vec<Step>,
    String,
>)
    ensures
        old(tap).log().is_prefix_of(final(tap).log()),
        vetted(final(tap).log().skip(old(tap).log().len() as int), text@, source@, r),
{
    let ghost start = tap.log();
    let steps = parse(text);
    let ghost all = steps_of(text@);
    proof {
        assert(steps_view(steps@).len() == steps@.len());
        assert(tap.log().skip(start.len() as int) =~= Seq::<HookEvent>::empty());
        assert(all.take(0) =~= Seq::<(nat, Seq<char>)>::empty());
    }
    if steps.len() == 0 {
        return Err(join2(source, " has no G-code to send (only comments/blank lines)"));
    }
    let mut reports: Vec<String> = Vec::new();
    let mut i: usize = 0;
    proof {
        assert(texts(reports@) =~= refused_among(
            all.take(0),
            verdicts(tap.log().skip(start.len() as int)),
        ));
    }
    while i < steps.len()
        invariant
            i <= steps@.len(),
            start == old(tap).log(),
            all == steps_of(text@),
            steps_view(steps@) == all,
            all.len() == steps@.len(),
            start.is_prefix_of(tap.log()),
            each_checked(tap.log().skip(start.len() as int), all.take(i as int)),
            texts(reports@) == refused_among(
                all.take(i as int),
                verdicts(tap.log().skip(start.len() as int)),
            ),
        decreases steps@.len() - i,
    {
        let ghost ev = tap.log().skip(start.len() as int);
        let ghost had = texts(reports@);
        let why = tap.check(steps[i].gcode.as_str());
        proof {
            let now = tap.log().skip(start.len() as int);
            let next = all.take(i + 1);
            assert(all[i as int] == (steps@[i as int].line_no as nat, steps@[i as int].gcode@));
            assert(next.drop_last() =~= all.take(i as int));
            assert(now =~= ev.push(
                HookEvent::Checked { gcode: steps@[i as int].gcode@, why: opt_text(why) },
            ));
            assert(verdicts(now).drop_last() =~= verdicts(ev));
            assert(verdicts(now).last() == opt_text(why));
            assert forall|k: int| 0 <= k < now.len() implies ((
            #[trigger] now[k]) matches HookEvent::Checked { gcode, why } && gcode == next[k].1) by {
                if k < ev.len() {
                    assert(now[k] == ev[k]);
                    assert(next[k] == all.take(i as int)[k]);
                }
            }
        }
        if let Some(w) = why {
            let n = decimal(steps[i].line_no);
            let head = join5("line ", n.as_str(), ": ", steps[i].gcode.as_str(), " (");
            reports.push(join3(head.as_str(), w.as_str(), ")"));
            proof {
                assert(texts(reports@) =~= had.push(unsafe_text(all[i as int], w@)));
            }
        }
        i += 1;
    }
    proof {
        assert(all.take(i as int) =~= all);
        assert(texts(reports@).len() == reports@.len());
    }
    if reports.len() > 0 {
        let detail = join_all(&reports, "; ");
        return Err(join3(source, " contains unsafe G-code: ", detail.as_str()));
    }
    Ok(steps)
}

// ── How it went ─────────────────────────────────────────────────────────────

/// How an outcome that is not a verification is told.
pub open spec fn outcome_text(o: CommandOutcome) -> Seq<char> {
    match o {
        CommandOutcome::Verified => "acknowledged"@,
        CommandOutcome::Rejected { reason } => "the printer refused it ("@ + reason@ + ")"@,
        CommandOutcome::Unverified { .. } => "the printer never acknowledged it"@,
    }
}

pub fn describe_outcome(o: &CommandOutcome) -> (r: String)
    ensures
        r@ == outcome_text(*o),
{
    match o {
        CommandOutcome::Verified => "acknowledged".to_owned(),
        CommandOutcome::Rejected { reason } => join3(
            "the printer refused it (",
            reason.as_str(),
            ")",
        ),
        CommandOutcome::Unverified { .. } => "the printer never acknowledged it".to_owned(),
    }
}

/// What watching the motion came to.
#[derive(Debug)]
pub enum Settle {
    /// It was seen to finish.
    Settled,
    /// It was not, and what was seen instead.
    NotSettled(Option<String>),
}

/// Where a sequence stopped: the first step that was not verified.
pub open spec fn stopped_at(outcomes: Seq<CommandOutcome>) -> Option<int>
    decreases outcomes.len(),
{
    if outcomes.len() == 0 {
        None
    } else {
        match stopped_at(outcomes.drop_last()) {
            Some(i) => Some(i),
            None => if outcomes.last() is Verified {
                None
            } else {
                Some(outcomes.len() - 1)
            },
        }
    }
}

proof fn lemma_stopped_at(outcomes: Seq<CommandOutcome>, i: int)
    requires
        0 <= i <= outcomes.len(),
        forall|j: int| 0 <= j < i ==> (#[trigger] outcomes[j]) is Verified,
    ensures
        i == outcomes.len() ==> stopped_at(outcomes) is None,
        i < outcomes.len() && !(outcomes[i] is Verified) ==> stopped_at(outcomes) == Some(i),
    decreases outcomes.len(),
{
    if outcomes.len() > 0 {
        if i == outcomes.len() {
            lemma_stopped_at(outcomes.drop_last(), i - 1);
            assert(outcomes[i - 1] is Verified);
        } else {
            lemma_stopped_at(outcomes.drop_last(), i);
        }
    }
}

/// What is wrong with a sequence's run; nothing where every step was verified
/// and the motion was seen to finish. `context` tells which step it stopped at.
pub open spec fn run_error(
    name: Seq<char>,
    outcomes: Seq<CommandOutcome>,
    context: Seq<char>,
    settled: Option<Settle>,
) -> Option<Seq<char>> {
    let who = "pre-print sequence "@ + debug_text(name);
    match stopped_at(outcomes) {
        Some(i) => Some(who + " stopped at "@ + context + ": "@ + outcome_text(outcomes[i])),
        None => match settled {
            Some(Settle::Settled) => None,
            Some(Settle::NotSettled(Some(why))) => Some(who + " ran, but "@ + why@),
            Some(Settle::NotSettled(None)) => Some(who + " ran, but "@ + "it did not finish"@),
            None => Some(who + " was not waited for"@),
        },
    }
}

/// Where a sequence stopped.
fn find_stop(outcomes: &Vec<CommandOutcome>) -> (r: Option<usize>)
    ensures
        match r {
            Some(i) => i < outcomes@.len() && stopped_at(outcomes@) == Some(i as int),
            None => stopped_at(outcomes@) is None,
        },
{
    let mut i: usize = 0;
    while i < outcomes.len()
        invariant
            i <= outcomes@.len(),
            forall|j: int| 0 <= j < i ==> (#[trigger] outcomes@[j]) is Verified,
        decreases outcomes@.len() - i,
    {
        let ok: bool = match &outcomes[i] {
            CommandOutcome::Verified => true,
            _ => false,
        };
        if !ok {
            proof {
                lemma_stopped_at(outcomes@, i as int);
            }
            return Some(i);
        }
        i += 1;
    }
    proof {
        lemma_stopped_at(outcomes@, i as int);
    }
    None
}

/// What an outcome is told as that belongs to no step: the printer answered more
/// often than it was asked.
pub open spec fn beyond_steps() -> Seq<char> {
    "an answer after the last step"@
}

/// What a sequence that stopped is told as: at which step, and how that went.
fn stopped(name: &str, context: &str, outcome: &CommandOutcome) -> (r: HookError)
    ensures
        r matches HookError::Printer(m) && m@ == "pre-print sequence "@ + debug_text(name@)
            + " stopped at "@ + context@ + ": "@ + outcome_text(*outcome),
{
    let q = quoted(name);
    let who = join2("pre-print sequence ", q.as_str());
    let what = describe_outcome(outcome);
    HookError::Printer(join5(who.as_str(), " stopped at ", context, ": ", what.as_str()))
}

/// What a sequence of which every line was verified came to. A motion that was not
/// seen to finish is a failure: the machine may still be moving.
fn settled_result(name: &str, settled: &Option<Settle>) -> (r: Result<(), HookError>)
    ensures
        match r {
            Ok(_) => run_error(name@, Seq::empty(), Seq::empty(), *settled) is None,
            Err(e) => e matches HookError::Printer(m) && run_error(
                name@,
                Seq::empty(),
                Seq::empty(),
                *settled,
            ) == Some(m@),
        },
{
    let q = quoted(name);
    let who = join2("pre-print sequence ", q.as_str());
    match settled {
        Some(Settle::Settled) => Ok(()),
        Some(Settle::NotSettled(Some(why))) => Err(
            HookError::Printer(join3(who.as_str(), " ran, but ", why.as_str())),
        ),
        Some(Settle::NotSettled(None)) => Err(
            HookError::Printer(join3(who.as_str(), " ran, but ", "it did not finish")),
        ),
        None => Err(HookError::Printer(join2(who.as_str(), " was not waited for"))),
    }
}

/// The lines that are sent for some steps.
pub open spec fn lines_sent(steps: Seq<(nat, Seq<char>)>) -> Seq<Seq<char>> {
    steps.map_values(|s: (nat, Seq<char>)| s.1)
}

pub open spec fn printer_error(r: Result<(), HookError>, why: Option<Seq<char>>) -> bool {
    match r {
        Ok(_) => why is None,
        Err(e) => e matches HookError::Printer(m) && why == Some(m@),
    }
}

/// `ev` is all that running a vetted sequence does outside: exactly its lines are
/// sent, in one go, and the step that it stopped at is asked about. Every outcome
/// counts, also one that belongs to no step.
pub open spec fn steps_ran(
    ev: Seq<HookEvent>,
    spec_name: Seq<char>,
    settle: u64,
    steps: Seq<(nat, Seq<char>)>,
    r: Result<(), HookError>,
) -> bool {
    &&& ev.len() >= 1
    &&& ev[0] matches HookEvent::Sent { lines, settle_ms, res }
    &&& lines == lines_sent(steps)
    &&& settle_ms == settle
    &&& match res {
        Err(e) => ev.len() == 1 && (r matches Err(HookError::Transport(m)) && m@ == e@),
        Ok(run) => {
            let outcomes = run.outcomes@;
            match stopped_at(outcomes) {
                Some(k) => if k >= steps.len() {
                    ev.len() == 1 && printer_error(
                        r,
                        run_error(spec_name, outcomes, beyond_steps(), run.settled),
                    )
                } else {
                    &&& ev.len() == 2
                    &&& ev[1] matches HookEvent::Context { i, total, line_no, gcode, text }
                    &&& i == k && total == steps.len()
                    &&& (line_no, gcode) == steps[k]
                    &&& printer_error(r, run_error(spec_name, outcomes, text, run.settled))
                },
                None => ev.len() == 1 && printer_error(
                    r,
                    run_error(spec_name, outcomes, Seq::empty(), run.settled),
                ),
            }
        },
    }
}

pub open spec fn config_error(r: Result<(), HookError>, why: Seq<char>) -> bool {
    r matches Err(HookError::Config(m)) && m@ == why
}

/// `ev` is all that running a sequence does outside, and `r` what it comes to: the
/// file is read afresh, every step is vetted, and only then anything is sent.
pub open spec fn hook_ran(ev: Seq<HookEvent>, spec: PrePrint, r: Result<(), HookError>) -> bool {
    &&& ev.len() >= 1
    &&& ev[0] matches HookEvent::Read { path, res }
    &&& path == spec.path@
    &&& match res {
        Err(e) => ev.len() == 1 && config_error(r, "reading "@ + spec.path@ + ": "@ + e@),
        Ok(text) => {
            let steps = steps_of(text@);
            let n = steps.len() as int;
            let reports = refused_among(steps, verdicts(ev.skip(1).take(n)));
            &&& ev.len() >= 1 + n
            &&& each_checked(ev.skip(1).take(n), steps)
            &&& if n == 0 {
                ev.len() == 1 && config_error(r, empty_sequence(spec.path@))
            } else if reports.len() > 0 {
                ev.len() == 1 + n && config_error(r, unsafe_sequence(spec.path@, reports))
            } else {
                steps_ran(ev.skip(1).skip(n), spec.name@, spec.settle_ms, steps, r)
            }
        },
    }
}

/// Send a vetted sequence and judge how it went.
fn run_steps<P: HookPort>(tap: &mut HookTap<P>, spec: &PrePrint, steps: &Vec<Step>) -> (r: Result<
    (),
    HookError,
>)
    ensures
        old(tap).log().is_prefix_of(final(tap).log()),
        steps_ran(
            final(tap).log().skip(old(tap).log().len() as int),
            spec.name@,
            spec.settle_ms,
            steps_view(steps@),
            r,
        ),
{
    let mut lines: Vec<String> = Vec::new();
    let mut i: usize = 0;
    while i < steps.len()
        invariant
            i <= steps@.len(),
            lines@.len() == i,
            forall|k: int| 0 <= k < i ==> (#[trigger] lines@[k])@ == steps@[k].gcode@,
        decreases steps@.len() - i,
    {
        lines.push(steps[i].gcode.clone());
        i += 1;
    }
    let ghost all = steps_view(steps@);
    proof {
        assert(texts(lines@) =~= lines_sent(all));
    }
    let run = match tap.send_sequence(&lines, spec.settle_ms) {
        Ok(run) => run,
        Err(e) => {
            return Err(HookError::Transport(e));
        },
    };
    match find_stop(&run.outcomes) {
        Some(k) => {
            if k >= steps.len() {
                return Err(
                    stopped(
                        spec.name.as_str(),
                        "an answer after the last step",
                        &run.outcomes[k],
                    ),
                );
            }
            proof {
                assert(all[k as int] == (steps@[k as int].line_no as nat, steps@[k as int].gcode@));
            }
            let context = tap.step_context(k, steps.len(), &steps[k]);
            Err(stopped(spec.name.as_str(), context.as_str(), &run.outcomes[k]))
        },
        None => settled_result(spec.name.as_str(), &run.settled),
    }
}

/// Run a printer's pre-print sequence: read it, vet it, send what was vetted and
/// nothing else, and see the motion finish. It is read anew for each run, so that an
/// edit counts at once.
pub fn run_hook<P: HookPort>(tap: &mut HookTap<P>, spec: &PrePrint) -> (r: Result<(), HookError>)
    ensures
        old(tap).log().is_prefix_of(final(tap).log()),
        hook_ran(final(tap).log().skip(old(tap).log().len() as int), *spec, r),
{
    let ghost start = tap.log();
    let path = spec.path.as_str();
    let text = match tap.read(path) {
        Ok(t) => t,
        Err(e) => {
            return Err(HookError::Config(join4("reading ", path, ": ", e.as_str())));
        },
    };
    let ghost mid = tap.log();
    let fit = vet_text(tap, text.as_str(), path);
    let ghost vetting = tap.log();
    proof {
        let n = steps_of(text@).len() as int;
        lemma_then(start, mid, vetting);
        let ev = vetting.skip(start.len() as int);
        assert(ev.skip(1).take(n) =~= vetting.skip(mid.len() as int));
    }
    match fit {
        Err(e) => Err(HookError::Config(e)),
        Ok(steps) => {
            let r = run_steps(tap, spec, &steps);
            proof {
                let n = steps_of(text@).len() as int;
                lemma_then(mid, vetting, tap.log());
                lemma_then(start, mid, tap.log());
                let ev = tap.log().skip(start.len() as int);
                assert(ev.skip(1) =~= tap.log().skip(mid.len() as int));
                assert(ev.skip(1).take(n) =~= vetting.skip(mid.len() as int));
                assert(ev.skip(1).skip(n) =~= tap.log().skip(vetting.len() as int));
            }
            r
        },
    }
}

impl PrePrint {
    /// Check the sequence at startup: a missing or unsafe file is a mistake in the
    /// configuration, not a surprise at a print.
    pub fn vet_now<P: HookPort>(&self, tap: &mut HookTap<P>) -> (r: Result<(), String>)
        ensures
            old(tap).log().is_prefix_of(final(tap).log()),
            ({
                let ev = final(tap).log().skip(old(tap).log().len() as int);
                &&& ev.len() >= 1
                &&& ev[0] matches HookEvent::Read { path, res }
                &&& path == self.path@
                &&& match res {
                    Err(e) => ev.len() == 1 && (r matches Err(m) && m@ == "reading "@ + self.path@
                        + ": "@ + e@),
                    Ok(text) => exists|fit: Result<Vec<Step>, String>| #[trigger]
                        vetted(ev.skip(1), text@, self.path@, fit) && match fit {
                            Ok(_) => r is Ok,
                            Err(e) => r matches Err(m) && m@ == e@,
                        },
                }
            }),
    {
        let ghost start = tap.log();
        let path = self.path.as_str();
        let text = match tap.read(path) {
            Ok(t) => t,
            Err(e) => {
                return Err(join4("reading ", path, ": ", e.as_str()));
            },
        };
        let ghost mid = tap.log();
        let fit = vet_text(tap, text.as_str(), path);
        proof {
            lemma_then(start, mid, tap.log());
        }
        let ghost seen = fit;
        match fit {
            Ok(_) => {
                proof {
                    assert(vetted(tap.log().skip(start.len() as int).skip(1), text@, path@, seen));
                }
                Ok(())
            },
            Err(e) => {
                proof {
                    assert(vetted(tap.log().skip(start.len() as int).skip(1), text@, path@, seen));
                }
                Err(e)
            },
        }
    }
}

/// The refusal of a start whose sequence did not complete.
pub open spec fn hook_failed(outcome: Task<Result<(), HookError>>) -> Option<Refusal> {
    match outcome {
        Task::Done(Ok(_)) => None,
        Task::Done(Err(e)) => Some((e.status(), e.text() + "; print not started"@)),
        Task::Lost => Some((500, "the pre-print sequence task failed; print not started"@)),
    }
}

/// The refusal of a start whose sequence did not complete.
pub fn hook_reply(outcome: &Task<Result<(), HookError>>) -> (r: Option<Reply>)
    ensures
        crate::reply::opt_reply(r) == hook_failed(*outcome),
{
    match outcome {
        Task::Done(Ok(_)) => None,
        Task::Done(Err(e)) => {
            let status: u16 = match e {
                HookError::Config(_) => 500,
                HookError::Printer(_) => 409,
                HookError::Transport(_) => 502,
            };
            let m = e.message();
            Some(reply(status, join2(m.as_str(), "; print not started")))
        },
        Task::Lost => Some(
            reply(500, "the pre-print sequence task failed; print not started".to_owned()),
        ),
    }
}

// ── Laws ────────────────────────────────────────────────────────────────────

/// A sequence counts as run exactly where every step was verified and the motion
/// was seen to finish: an acknowledgement alone is never enough.
pub proof fn a_run_succeeds_only_when_settled(
    name: Seq<char>,
    outcomes: Seq<CommandOutcome>,
    context: Seq<char>,
    settled: Option<Settle>,
)
    ensures
        run_error(name, outcomes, context, settled) is None <==> (settled == Some(Settle::Settled)
            && forall|i: int| 0 <= i < outcomes.len() ==> (#[trigger] outcomes[i]) is Verified),
{
    lemma_stopped_at_found(outcomes);
    if forall|i: int| 0 <= i < outcomes.len() ==> (#[trigger] outcomes[i]) is Verified {
        lemma_stopped_at(outcomes, outcomes.len() as int);
    }
}

proof fn lemma_stopped_at_found(outcomes: Seq<CommandOutcome>)
    ensures
        stopped_at(outcomes) matches Some(i) ==> 0 <= i < outcomes.len() && !(
        outcomes[i] is Verified),
        stopped_at(outcomes) is None ==> forall|i: int|
            0 <= i < outcomes.len() ==> (#[trigger] outcomes[i]) is Verified,
    decreases outcomes.len(),
{
    if outcomes.len() > 0 {
        lemma_stopped_at_found(outcomes.drop_last());
        if stopped_at(outcomes) is None {
            assert forall|i: int| 0 <= i < outcomes.len() implies (
            #[trigger] outcomes[i]) is Verified by {
                if i < outcomes.len() - 1 {
                    assert(outcomes.drop_last()[i] is Verified);
                }
            }
        }
    }
}

/// Nothing is sent that was not vetted: what is sent are the steps of the file that
/// was read just before, every one of them was checked, and none was refused.
pub proof fn only_what_was_vetted_is_sent(
    ev: Seq<HookEvent>,
    spec: PrePrint,
    r: Result<(), HookError>,
    i: int,
)
    requires
        hook_ran(ev, spec, r),
        0 <= i < ev.len(),
        ev[i] is Sent,
    ensures
        ev[0] matches HookEvent::Read { path, res: Ok(text) } && {
            let steps = steps_of(text@);
            &&& path == spec.path@
            &&& i == 1 + steps.len()
            &&& steps.len() > 0
            &&& ev[i]->Sent_lines == lines_sent(steps)
            &&& each_checked(ev.subrange(1, i), steps)
            &&& refused_among(steps, verdicts(ev.subrange(1, i))).len() == 0
        },
{
    let text = ev[0]->Read_res->Ok_0@;
    let n = steps_of(text).len() as int;
    let checks = ev.skip(1).take(n);
    assert(ev.subrange(1, 1 + n) =~= checks);
    if i <= n {
        assert(checks[i - 1] == ev[i]);
    } else {
        assert(ev.skip(1).skip(n)[i - 1 - n] == ev[i]);
    }
}

/// A step never carries a comment, and is never blank.
pub proof fn steps_hold_code_alone(text: Seq<char>)
    ensures
        forall|i: int|
            0 <= i < steps_of(text).len() ==> (#[trigger] steps_of(text)[i]).1.len() > 0
                && !steps_of(text)[i].1.contains(';') && 1 <= steps_of(text)[i].0
                <= lines_of(text).len(),
{
    lemma_steps_in(lines_of(text));
}

proof fn lemma_steps_in(lines: Seq<Seq<char>>)
    ensures
        forall|i: int|
            0 <= i < steps_in(lines).len() ==> (#[trigger] steps_in(lines)[i]).1.len() > 0
                && !steps_in(lines)[i].1.contains(';') && 1 <= steps_in(lines)[i].0 <= lines.len(),
    decreases lines.len(),
{
    if lines.len() > 0 {
        lemma_steps_in(lines.drop_last());
        let head = before_first(lines.last(), ';');
        lemma_no_semicolon(lines.last());
        crate::text::lemma_trimmed_ends(head, Strip::Space);
        let code = code_of(lines.last());
        assert(!code.contains(';')) by {
            if code.contains(';') {
                let k = choose|k: int| 0 <= k < code.len() && code[k] == ';';
                assert(head.contains(code[k]));
            }
        }
        let prev = steps_in(lines.drop_last());
        assert forall|i: int| 0 <= i < steps_in(lines).len() implies (#[trigger] steps_in(
            lines,
        )[i]).1.len() > 0 && !steps_in(lines)[i].1.contains(';') && 1 <= steps_in(lines)[i].0
            <= lines.len() by {
            if i < prev.len() {
                assert(steps_in(lines)[i] == prev[i]);
            }
        }
    }
}

proof fn lemma_no_semicolon(s: Seq<char>)
    ensures
        !before_first(s, ';').contains(';'),
    decreases s.len(),
{
    if s.len() > 0 && s[0] != ';' {
        lemma_no_semicolon(s.drop_first());
        let b = before_first(s, ';');
        let t = before_first(s.drop_first(), ';');
        if b.contains(';') {
            let k = choose|k: int| 0 <= k < b.len() && b[k] == ';';
            if k > 0 {
                assert(t[k - 1] == ';');
                assert(t.contains(';'));
            }
        }
    }
}

proof fn lemma_none_refused(steps: Seq<(nat, Seq<char>)>, v: Seq<Option<Seq<char>>>, k: int)
    requires
        steps.len() == v.len(),
        refused_among(steps, v).len() == 0,
        0 <= k < v.len(),
    ensures
        v[k] is None,
    decreases v.len(),
{
    if k < v.len() - 1 {
        lemma_none_refused(steps.drop_last(), v.drop_last(), k);
        assert(v.drop_last()[k] == v[k]);
    }
}

/// Every line that is sent was checked by itself beforehand, and nothing was found
/// against it; they are sent in one go, with the time that their motion may take.
pub proof fn every_line_that_is_sent_was_found_safe(
    ev: Seq<HookEvent>,
    spec: PrePrint,
    r: Result<(), HookError>,
    i: int,
    k: int,
)
    requires
        hook_ran(ev, spec, r),
        0 <= i < ev.len(),
        ev[i] is Sent,
        0 <= k < ev[i]->Sent_lines.len(),
    ensures
        ev[i]->Sent_lines.len() == i - 1,
        ev[1 + k] == (HookEvent::Checked { gcode: ev[i]->Sent_lines[k], why: None }),
        ev[i]->Sent_settle_ms == spec.settle_ms,
        ev[0] matches HookEvent::Read { path, res: Ok(_) } && path == spec.path@,
        forall|j: int| 0 <= j < ev.len() && j != i ==> !((#[trigger] ev[j]) is Sent),
{
    let text = ev[0]->Read_res->Ok_0@;
    let steps = steps_of(text);
    let n = steps.len() as int;
    let checks = ev.skip(1).take(n);
    let tail = ev.skip(1).skip(n);
    assert forall|j: int| 1 <= j <= n implies checks[j - 1] == #[trigger] ev[j] by {}
    assert forall|j: int| 1 + n <= j < ev.len() implies tail[j - 1 - n] == #[trigger] ev[j] by {}
    assert(lines_sent(steps).len() == n);
    if i == 1 + n {
        lemma_none_refused(steps, verdicts(checks), k);
        assert(verdicts(checks)[k] == checks[k]->Checked_why);
        assert(lines_sent(steps)[k] == steps[k].1);
    }
}

/// A sequence has run only where it was sent and came through: every answer to it
/// was a verified one, and its motion was seen to finish.
pub proof fn a_sequence_that_ran_came_through(ev: Seq<HookEvent>, spec: PrePrint)
    requires
        hook_ran(ev, spec, Ok(())),
    ensures
        ev.len() >= 3,
        ev.last() matches HookEvent::Sent { lines, settle_ms, res: Ok(run) } && {
            &&& lines.len() > 0
            &&& run.settled == Some(Settle::Settled)
            &&& forall|k: int|
                0 <= k < run.outcomes@.len() ==> (#[trigger] run.outcomes@[k]) is Verified
        },
{
    let text = ev[0]->Read_res->Ok_0@;
    let steps = steps_of(text);
    let n = steps.len() as int;
    let tail = ev.skip(1).skip(n);
    let run = tail[0]->Sent_res->Ok_0;
    lemma_stopped_at_found(run.outcomes@);
    assert(lines_sent(steps).len() == n);
    assert(tail.last() == ev.last());
}

/// What went wrong with a sequence is told as what it is: a failure of the file
/// where nothing was sent, one of the way to the printer where sending failed, and
/// one of the printer where it was sent.
pub proof fn a_failure_of_a_sequence_is_told_as_what_it_is(
    ev: Seq<HookEvent>,
    spec: PrePrint,
    e: HookError,
)
    requires
        hook_ran(ev, spec, Err(e)),
    ensures
        e is Config <==> forall|i: int| 0 <= i < ev.len() ==> !((#[trigger] ev[i]) is Sent),
        e matches HookError::Transport(m) ==> (ev.last() matches HookEvent::Sent {
            lines,
            settle_ms,
            res: Err(why),
        } && m@ == why@),
        e is Printer <==> exists|i: int|
            0 <= i < ev.len() && ((#[trigger] ev[i]) matches HookEvent::Sent {
                lines,
                settle_ms,
                res: Ok(_),
            }),
{
    if ev[0]->Read_res is Ok {
        let text = ev[0]->Read_res->Ok_0@;
        let steps = steps_of(text);
        let n = steps.len() as int;
        let checks = ev.skip(1).take(n);
        let tail = ev.skip(1).skip(n);
        assert forall|j: int| 1 <= j <= n implies checks[j - 1] == #[trigger] ev[j] by {}
        assert forall|j: int| 1 + n <= j < ev.len() implies tail[j - 1 - n] == #[trigger] ev[j] by {}
        if tail.len() > 0 {
            assert(ev[1 + n] == tail[0]);
        }
    }
}

/// A print whose sequence did not come through is not started, and told why.
pub proof fn only_a_sequence_that_ran_lets_a_print_start(outcome: Task<Result<(), HookError>>)
    ensures
        hook_failed(outcome) is None <==> (outcome matches Task::Done(Ok(_))),
        hook_failed(outcome) matches Some(why) ==> match outcome {
            Task::Done(Err(HookError::Config(m))) => why.0 == 500 && m@.is_prefix_of(why.1),
            Task::Done(Err(HookError::Printer(m))) => why.0 == 409 && m@.is_prefix_of(why.1),
            Task::Done(Err(HookError::Transport(m))) => why.0 == 502 && m@.is_prefix_of(why.1),
            _ => why.0 == 500,
        },
{
    if let Task::Done(Err(e)) = outcome {
        let t = e.text() + "; print not started"@;
        assert(e.text() =~= t.subrange(0, e.text().len() as int));
    }
}

/// A line of a file that is G-code alone is a step as it stands, under its number;
/// no step stands for anything else, and the steps come in the order of their lines.
pub proof fn every_line_of_code_is_a_step(lines: Seq<Seq<char>>, n: int)
    requires
        0 <= n < lines.len(),
        lines[n].len() > 0,
        !lines[n].contains(';'),
        !crate::text::is_space(lines[n][0]),
        !crate::text::is_space(lines[n].last()),
    ensures
        exists|k: int|
            0 <= k < steps_in(lines).len() && (#[trigger] steps_in(lines)[k]) == (
                (n + 1) as nat,
                lines[n],
            ),
    decreases lines.len(),
{
    let less = lines.drop_last();
    if n < lines.len() - 1 {
        assert(less[n] == lines[n]);
        every_line_of_code_is_a_step(less, n);
        let k = choose|k: int|
            0 <= k < steps_in(less).len() && (#[trigger] steps_in(less)[k]) == (
                (n + 1) as nat,
                lines[n],
            );
        assert(steps_in(lines)[k] == steps_in(less)[k]);
    } else {
        let l = lines[n];
        crate::text::lemma_before_first(l, ';', l.len() as int);
        assert(l.take(l.len() as int) =~= l);
        crate::text::lemma_trimmed_fixed(l, Strip::Space);
        let k = steps_in(less).len() as int;
        assert(steps_in(lines)[k] == (lines.len(), l));
    }
}

/// The steps come in the order of their lines, each line once.
pub proof fn steps_come_in_the_order_of_their_lines(lines: Seq<Seq<char>>, i: int, j: int)
    requires
        0 <= i < j < steps_in(lines).len(),
    ensures
        steps_in(lines)[i].0 < steps_in(lines)[j].0,
    decreases lines.len(),
{
    let less = lines.drop_last();
    lemma_steps_in(less);
    if j < steps_in(less).len() {
        steps_come_in_the_order_of_their_lines(less, i, j);
    }
}

/// A sequence is fit to run if and only if it has a step and every step of it, as it is
/// written, was checked and nothing was found against any.
pub proof fn a_sequence_is_fit_only_if_every_step_is(
    ev: Seq<HookEvent>,
    text: Seq<char>,
    source: Seq<char>,
    v: Vec<Step>,
    i: int,
)
    requires
        vetted(ev, text, source, Ok(v)),
        0 <= i < v@.len(),
    ensures
        ev.len() == v@.len(),
        ev[i] matches HookEvent::Checked { gcode, why } && gcode == v@[i].gcode@ && why is None,
        v@[i].gcode@ == steps_of(text)[i].1,
{
    let steps = steps_of(text);
    assert(steps_view(v@)[i] == steps[i]);
    assert(verdicts(ev).len() == steps.len());
    lemma_none_refused(steps, verdicts(ev), i);
    assert(verdicts(ev)[i] == ev[i]->Checked_why);
}

} // verus!
