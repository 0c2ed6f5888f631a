//! Refusals and the gates that give them, and how the outcome of a command is
//! answered.
use vstd::prelude::*;

use crate::text::{join3, opt_text, same_text, to_upper, upper};

verus! {

/// A refusal: an HTTP status and the text of its `error`.
#[derive(Debug)]
pub struct Reply {
    pub status: u16,
    pub error: String,
}

/// A refusal as a value: its status and its text.
pub type Refusal = (u16, Seq<char>);

impl View for Reply {
    type V = Refusal;

    open spec fn view(&self) -> Refusal {
        (self.status, self.error@)
    }
}

/// An optional refusal as a value.
pub open spec fn opt_reply(r: Option<Reply>) -> Option<Refusal> {
    match r {
        Some(reply) => Some(reply@),
        None => None,
    }
}

/// The first of two refusals that applies.
pub open spec fn or_refuse(a: Option<Refusal>, b: Option<Refusal>) -> Option<Refusal> {
    if a is Some {
        a
    } else {
        b
    }
}

pub open spec fn bad(error: Seq<char>) -> Refusal {
    (400, error)
}

pub open spec fn conflict(error: Seq<char>) -> Refusal {
    (409, error)
}

pub fn reply(status: u16, error: String) -> (r: Reply)
    ensures
        r@ == (status, error@),
{
    Reply { status, error }
}

/// A request that is not acceptable as it stands (400).
pub fn bad_request(error: String) -> (r: Reply)
    ensures
        r@ == bad(error@),
{
    Reply { status: 400, error }
}

/// Something that went wrong on this side (500).
pub fn server_error(error: String) -> (r: Reply)
    ensures
        r@ == (500u16, error@),
{
    Reply { status: 500, error }
}

// ── What a command came to ──────────────────────────────────────────────────

/// How far a command got that was sent and never confirmed.
#[derive(Clone, Copy, Debug, PartialEq, Eq, Structural)]
pub enum VerifyStage {
    /// The printer did not acknowledge it.
    Ack,
    /// It was acknowledged, and its effect was not seen.
    Effect,
}

/// What sending a command came to.
#[derive(Debug)]
pub enum CommandOutcome {
    Verified,
    Unverified { stage: VerifyStage },
    Rejected { reason: String },
}

impl CommandOutcome {
    /// The same outcome, told apart by the text of a rejection.
    pub open spec fn same(self, other: CommandOutcome) -> bool {
        match (self, other) {
            (CommandOutcome::Verified, CommandOutcome::Verified) => true,
            (
                CommandOutcome::Unverified { stage: a },
                CommandOutcome::Unverified { stage: b },
            ) => a == b,
            (
                CommandOutcome::Rejected { reason: a },
                CommandOutcome::Rejected { reason: b },
            ) => a@ == b@,
            _ => false,
        }
    }

    pub fn copy(&self) -> (r: CommandOutcome)
        ensures
            r.same(*self),
    {
        match self {
            CommandOutcome::Verified => CommandOutcome::Verified,
            CommandOutcome::Unverified { stage } => CommandOutcome::Unverified { stage: *stage },
            CommandOutcome::Rejected { reason } => CommandOutcome::Rejected {
                reason: reason.clone(),
            },
        }
    }
}

/// Why a command could not be carried out: distinct from the printer rejecting
/// it, which is an outcome.
#[derive(Debug)]
pub enum ControlError {
    /// The printer could not be reached or talked to.
    Transport(String),
}

/// What came of work handed to another thread: its result, or the thread's end
/// without one.
#[derive(Debug)]
pub enum Task<T> {
    Done(T),
    Lost,
}

/// The answer to a command.
#[derive(Debug)]
pub enum Answer {
    /// The outcome itself, under this status.
    Outcome { status: u16, outcome: CommandOutcome },
    /// A refusal.
    Refused(Reply),
}

/// The status an outcome is reported under: verified 200, unverified 202,
/// rejected 409.
pub open spec fn outcome_status(o: CommandOutcome) -> u16 {
    match o {
        CommandOutcome::Verified => 200,
        CommandOutcome::Unverified { .. } => 202,
        CommandOutcome::Rejected { .. } => 409,
    }
}

/// `r` is how a command that came to `res` is answered: its outcome under the
/// status it is reported under; 502 with the transport's error; 500 where the
/// task was lost.
pub open spec fn answered(res: Task<Result<CommandOutcome, ControlError>>, r: Answer) -> bool {
    match res {
        Task::Done(Ok(o)) => r == (Answer::Outcome { status: outcome_status(o), outcome: o }),
        Task::Done(Err(ControlError::Transport(e))) => refused(r, (502u16, e@)),
        Task::Lost => refused(r, (500u16, "control task failed"@)),
    }
}

/// `r` is this refusal.
pub open spec fn refused(r: Answer, why: Refusal) -> bool {
    r matches Answer::Refused(reply) && reply@ == why
}

/// The answer to a command.
pub fn verify_response(res: Task<Result<CommandOutcome, ControlError>>) -> (r: Answer)
    ensures
        answered(res, r),
{
    match res {
        Task::Done(Ok(outcome)) => {
            let status: u16 = match &outcome {
                CommandOutcome::Verified => 200,
                CommandOutcome::Unverified { .. } => 202,
                CommandOutcome::Rejected { .. } => 409,
            };
            Answer::Outcome { status, outcome }
        },
        Task::Done(Err(ControlError::Transport(e))) => Answer::Refused(reply(502, e)),
        Task::Lost => Answer::Refused(server_error("control task failed".to_owned())),
    }
}

// ── Gates ───────────────────────────────────────────────────────────────────

/// What the gates read of a printer.
pub struct Machine {
    /// The state the printer last reported.
    pub gcode_state: Option<String>,
    /// The pre-print sequence is driving the machine.
    pub hook_running: bool,
}

/// The reported state in capitals; none counts as empty.
pub open spec fn state_name(gcode_state: Option<Seq<char>>) -> Seq<char> {
    match gcode_state {
        Some(s) => upper(s),
        None => upper(Seq::empty()),
    }
}

/// A state in which the printer is working.
pub open spec fn is_busy(gcode_state: Option<Seq<char>>) -> bool {
    let s = state_name(gcode_state);
    s == "RUNNING"@ || s == "PAUSE"@ || s == "PREPARE"@ || s == "SLICING"@
}

pub open spec fn unconfirmed(confirm: bool) -> Option<Refusal> {
    if confirm {
        None
    } else {
        Some((428, "confirm required: POST {\"confirm\": true}"@))
    }
}

pub open spec fn busy(gcode_state: Option<Seq<char>>) -> Option<Refusal> {
    if is_busy(gcode_state) {
        Some(
            conflict(
                "printer is busy ("@ + state_name(gcode_state) + "); operation refused"@,
            ),
        )
    } else {
        None
    }
}

pub open spec fn hooked(hook_running: bool) -> Option<Refusal> {
    if hook_running {
        Some(
            conflict(
                "the pre-print sequence is running; this would move the machine mid-sequence (pause/stop remain available)"@,
            ),
        )
    } else {
        None
    }
}

/// Require explicit confirmation before a destructive action (428 if not).
pub fn need_confirm(confirm: bool) -> (r: Option<Reply>)
    ensures
        opt_reply(r) == unconfirmed(confirm),
{
    if confirm {
        None
    } else {
        Some(reply(428, "confirm required: POST {\"confirm\": true}".to_owned()))
    }
}

/// Refuse an action while the printer is busy (409): running, paused, preparing
/// or slicing, in any case.
pub fn require_idle(gcode_state: &Option<String>) -> (r: Option<Reply>)
    ensures
        opt_reply(r) == busy(opt_text(*gcode_state)),
{
    let state: String = match gcode_state {
        Some(s) => to_upper(s.as_str()),
        None => to_upper(""),
    };
    proof {
        reveal_strlit("");
        assert(""@ =~= Seq::<char>::empty());
    }
    let s = state.as_str();
    if same_text(s, "RUNNING") || same_text(s, "PAUSE") || same_text(s, "PREPARE") || same_text(
        s,
        "SLICING",
    ) {
        Some(reply(409, join3("printer is busy (", s, "); operation refused")))
    } else {
        None
    }
}

/// Refuse an action that moves the machine while the pre-print sequence is
/// driving it (409). Pausing, resuming, stopping, clearing an error and
/// rebooting do not ask this: they have to work at exactly that moment.
pub fn require_no_hook(hook_running: bool) -> (r: Option<Reply>)
    ensures
        opt_reply(r) == hooked(hook_running),
{
    if hook_running {
        Some(
            reply(
                409,
                "the pre-print sequence is running; this would move the machine mid-sequence (pause/stop remain available)".to_owned(),
            ),
        )
    } else {
        None
    }
}

// ── Laws ────────────────────────────────────────────────────────────────────

/// A command is answered with what came of it: its own outcome, under a status
/// that tells the three apart, and only a verified one under 200. One that could
/// not be sent or was lost is a failure on this side of the printer.
pub proof fn an_answer_tells_what_came_of_it(
    res: Task<Result<CommandOutcome, ControlError>>,
    r: Answer,
)
    requires
        answered(res, r),
    ensures
        r matches Answer::Outcome { status, outcome } ==> {
            &&& res == Task::Done(Ok::<CommandOutcome, ControlError>(outcome))
            &&& status == 200 <==> outcome is Verified
            &&& status == 202 <==> outcome is Unverified
            &&& status == 409 <==> outcome is Rejected
        },
        r is Outcome <==> (res matches Task::Done(Ok(_))),
        res matches Task::Done(Err(ControlError::Transport(e))) ==> (r matches Answer::Refused(x)
            && x.status == 502 && x.error@ == e@),
        res is Lost ==> (r matches Answer::Refused(x) && x.status == 500),
{
}

/// What holds a printer back is its state alone, in whatever case it is reported:
/// running, paused, preparing and slicing do, and nothing else does.
pub proof fn four_states_are_busy(state: Option<Seq<char>>)
    ensures
        busy(state) is Some <==> (state matches Some(s) && (upper(s) == "RUNNING"@ || upper(s)
            == "PAUSE"@ || upper(s) == "PREPARE"@ || upper(s) == "SLICING"@)),
        busy(state) matches Some(why) ==> why.0 == 409,
{
    reveal_strlit("RUNNING");
    reveal_strlit("PAUSE");
    reveal_strlit("PREPARE");
    reveal_strlit("SLICING");
    if state is None {
        assert(state_name(state).len() == 0);
    }
}

/// Nothing that needs confirmation gets past without it, and nothing that moves
/// the machine gets past while the pre-print sequence drives it.
pub proof fn a_gate_holds_exactly_what_it_is_for(flag: bool)
    ensures
        unconfirmed(flag) is None <==> flag,
        unconfirmed(flag) matches Some(why) ==> why.0 == 428,
        hooked(flag) is Some <==> flag,
        hooked(flag) matches Some(why) ==> why.0 == 409,
{
}

/// Of two refusals the first is given, and none only where there is neither.
pub proof fn the_first_refusal_is_given(a: Option<Refusal>, b: Option<Refusal>)
    ensures
        or_refuse(a, b) is None <==> a is None && b is None,
        a is Some ==> or_refuse(a, b) == a,
        a is None ==> or_refuse(a, b) == b,
{
}

} // verus!
