//! Control actions and the commands they become.
use vstd::prelude::*;

use crate::number::{decimal, digits};
use crate::reply::{CommandOutcome, ControlError, VerifyStage};
use crate::start::ProjectFile;
use crate::text::{join2, join5};

verus! {

/// Which axes a homing move targets.
#[derive(Debug, Clone, Copy, PartialEq, Eq, Structural)]
pub enum HomeAxes {
    All,
    X,
    Y,
    Z,
}

/// A single jog axis.
#[derive(Debug, Clone, Copy, PartialEq, Eq, Structural)]
pub enum Axis {
    X,
    Y,
    Z,
}

impl Axis {
    pub open spec fn letter(self) -> Seq<char> {
        match self {
            Axis::X => "X"@,
            Axis::Y => "Y"@,
            Axis::Z => "Z"@,
        }
    }

    /// The G-code axis letter.
    pub fn as_str(self) -> (r: &'static str)
        ensures
            r@ == self.letter(),
    {
        match self {
            Axis::X => "X",
            Axis::Y => "Y",
            Axis::Z => "Z",
        }
    }
}

/// Which heater a temperature target applies to.
#[derive(Debug, Clone, Copy, PartialEq, Eq, Structural)]
pub enum TempPart {
    Nozzle,
    Bed,
}

pub open spec fn temp_gcode(part: TempPart, celsius: u32) -> Seq<char> {
    match part {
        TempPart::Nozzle => "M104 S"@ + digits(celsius as nat),
        TempPart::Bed => "M140 S"@ + digits(celsius as nat),
    }
}

/// The `M104`/`M140` line that sets `part` to `celsius` (`0` is a cooldown).
pub fn temp_line(part: TempPart, celsius: u32) -> (r: String)
    ensures
        r@ == temp_gcode(part, celsius),
{
    let d = decimal(celsius as u64);
    match part {
        TempPart::Nozzle => join2("M104 S", d.as_str()),
        TempPart::Bed => join2("M140 S", d.as_str()),
    }
}

/// A light on the printer.
#[derive(Debug, Clone, Copy, PartialEq, Eq, Structural)]
pub enum LedNode {
    ChamberLight,
    WorkLight,
}

/// A print speed preset.
#[derive(Debug, Clone, Copy, PartialEq, Eq, Structural)]
pub enum SpeedLevel {
    Silent,
    Standard,
    Sport,
    Ludicrous,
}

/// What the filament system can be told.
#[derive(Debug, Clone, Copy, PartialEq, Eq, Structural)]
pub enum AmsControl {
    Resume,
    Reset,
    Pause,
}

/// A control action. A distance is carried as the text that goes into the
/// G-code line.
#[derive(Debug)]
pub enum ControlAction {
    Pause,
    Resume,
    Stop,
    ClearError,
    Light { node: LedNode, on: bool },
    Speed(SpeedLevel),
    Gcode(String),
    Home(HomeAxes),
    Move { axis: Axis, delta: String, feedrate: u32 },
    Extrude { delta: String, feedrate: u32 },
    SetTemp { part: TempPart, celsius: u32 },
    Calibrate { bed_level: bool, vibration: bool, motor_noise: bool },
    Ams(AmsControl),
    AmsChange { target: u32, curr_temp: i64, tar_temp: i64 },
    Reboot,
    DisableSteppers,
}

/// A command as the printer takes it.
#[derive(Debug)]
pub enum Command {
    Pause,
    Resume,
    Stop,
    ClearError,
    Led { node: LedNode, on: bool },
    PrintSpeed(SpeedLevel),
    GcodeLine(String),
    Calibration { bed_level: bool, vibration: bool, motor_noise: bool },
    AmsControl(AmsControl),
    AmsChange { target: u32, curr_temp: i64, tar_temp: i64 },
    Reboot,
    ProjectFile(ProjectFile),
    GcodeFile(String),
}

impl Command {
    /// This is the G-code command whose text is `line`.
    pub open spec fn is_gcode(self, line: Seq<char>) -> bool {
        self matches Command::GcodeLine(l) && l@ == line
    }
}

pub open spec fn home_gcode(axes: HomeAxes) -> Seq<char> {
    match axes {
        HomeAxes::All => "G28"@,
        HomeAxes::X => "G28 X"@,
        HomeAxes::Y => "G28 Y"@,
        HomeAxes::Z => "G28 Z"@,
    }
}

/// A relative move, and back to absolute coordinates: a jog never shifts the
/// coordinate frame.
pub open spec fn jog_gcode(axis: Axis, delta: Seq<char>, feedrate: u32) -> Seq<char> {
    "G91\nG1 "@ + axis.letter() + delta + " F"@ + digits(feedrate as nat) + "\nG90"@
}

/// A relative extrusion, and back to absolute mode.
pub open spec fn extrude_gcode(delta: Seq<char>, feedrate: u32) -> Seq<char> {
    "M83\nG1 E"@ + delta + " F"@ + digits(feedrate as nat) + "\nM82"@
}

/// The command that carries an action out.
pub open spec fn carries(c: Command, a: ControlAction) -> bool {
    match a {
        ControlAction::Pause => c == Command::Pause,
        ControlAction::Resume => c == Command::Resume,
        ControlAction::Stop => c == Command::Stop,
        ControlAction::ClearError => c == Command::ClearError,
        ControlAction::Light { node, on } => c == (Command::Led { node, on }),
        ControlAction::Speed(level) => c == Command::PrintSpeed(level),
        ControlAction::Gcode(line) => c.is_gcode(line@),
        ControlAction::Home(axes) => c.is_gcode(home_gcode(axes)),
        ControlAction::Move { axis, delta, feedrate } => c.is_gcode(
            jog_gcode(axis, delta@, feedrate),
        ),
        ControlAction::Extrude { delta, feedrate } => c.is_gcode(extrude_gcode(delta@, feedrate)),
        ControlAction::SetTemp { part, celsius } => c.is_gcode(temp_gcode(part, celsius)),
        ControlAction::Calibrate { bed_level, vibration, motor_noise } => c == (
        Command::Calibration { bed_level, vibration, motor_noise }),
        ControlAction::Ams(action) => c == Command::AmsControl(action),
        ControlAction::AmsChange { target, curr_temp, tar_temp } => c == (Command::AmsChange {
            target,
            curr_temp,
            tar_temp,
        }),
        ControlAction::Reboot => c == Command::Reboot,
        ControlAction::DisableSteppers => c.is_gcode("M84"@),
    }
}

/// How a command is to be sent.
#[derive(Debug)]
pub enum Dispatch {
    /// Send it and wait for its effect.
    Verify(Command),
    /// Send it and wait for nothing.
    Fire(Command),
}

impl ControlAction {
    pub fn into_command(self) -> (r: Command)
        ensures
            carries(r, self),
    {
        match self {
            ControlAction::Pause => Command::Pause,
            ControlAction::Resume => Command::Resume,
            ControlAction::Stop => Command::Stop,
            ControlAction::ClearError => Command::ClearError,
            ControlAction::Light { node, on } => Command::Led { node, on },
            ControlAction::Speed(level) => Command::PrintSpeed(level),
            ControlAction::Gcode(line) => Command::GcodeLine(line),
            ControlAction::Home(axes) => {
                let line = match axes {
                    HomeAxes::All => "G28",
                    HomeAxes::X => "G28 X",
                    HomeAxes::Y => "G28 Y",
                    HomeAxes::Z => "G28 Z",
                };
                Command::GcodeLine(line.to_owned())
            },
            ControlAction::Move { axis, delta, feedrate } => {
                let f = decimal(feedrate as u64);
                let mut line = join5("G91\nG1 ", axis.as_str(), delta.as_str(), " F", f.as_str());
                line.append("\nG90");
                Command::GcodeLine(line)
            },
            ControlAction::Extrude { delta, feedrate } => {
                let f = decimal(feedrate as u64);
                Command::GcodeLine(
                    join5("M83\nG1 E", delta.as_str(), " F", f.as_str(), "\nM82"),
                )
            },
            ControlAction::SetTemp { part, celsius } => Command::GcodeLine(
                temp_line(part, celsius),
            ),
            ControlAction::Calibrate { bed_level, vibration, motor_noise } => Command::Calibration {
                bed_level,
                vibration,
                motor_noise,
            },
            ControlAction::Ams(action) => Command::AmsControl(action),
            ControlAction::AmsChange { target, curr_temp, tar_temp } => Command::AmsChange {
                target,
                curr_temp,
                tar_temp,
            },
            ControlAction::Reboot => Command::Reboot,
            ControlAction::DisableSteppers => Command::GcodeLine("M84".to_owned()),
        }
    }

    /// Whether this action's effect can be read back. A reboot tears down the
    /// connection, so there is nothing to read.
    pub fn needs_verify(&self) -> (r: bool)
        ensures
            r == (*self !is Reboot),
    {
        match self {
            ControlAction::Reboot => false,
            _ => true,
        }
    }

    /// The command that carries this action out, and how to send it.
    pub fn dispatch(self) -> (r: Dispatch)
        ensures
            match r {
                Dispatch::Verify(c) => self !is Reboot && carries(c, self),
                Dispatch::Fire(c) => self is Reboot && carries(c, self),
            },
    {
        let verify: bool = self.needs_verify();
        let c = self.into_command();
        if verify {
            Dispatch::Verify(c)
        } else {
            Dispatch::Fire(c)
        }
    }
}

/// What came of a command that was sent and verified.
pub fn verified_result(res: Result<CommandOutcome, String>) -> (r: Result<
    CommandOutcome,
    ControlError,
>)
    ensures
        match res {
            Ok(o) => r == Ok::<CommandOutcome, ControlError>(o),
            Err(e) => r == Err::<CommandOutcome, ControlError>(ControlError::Transport(e)),
        },
{
    match res {
        Ok(o) => Ok(o),
        Err(e) => Err(ControlError::Transport(e)),
    }
}

/// What came of a command that was sent and not waited for: unverified, never a
/// false success.
pub fn fired_result(res: Result<(), String>) -> (r: Result<CommandOutcome, ControlError>)
    ensures
        match res {
            Ok(_) => r == Ok::<CommandOutcome, ControlError>(
                CommandOutcome::Unverified { stage: VerifyStage::Ack },
            ),
            Err(e) => r == Err::<CommandOutcome, ControlError>(ControlError::Transport(e)),
        },
{
    match res {
        Ok(_) => Ok(CommandOutcome::Unverified { stage: VerifyStage::Ack }),
        Err(e) => Err(ControlError::Transport(e)),
    }
}

// ── Carrying it out ─────────────────────────────────────────────────────────

/// The way to a printer.
pub trait CommandPort {
    /// Send a command and wait for its effect.
    fn send_and_verify(&mut self, c: Command) -> Result<CommandOutcome, String>;

    /// Send a command and wait for nothing.
    fn send_fire(&mut self, c: Command) -> Result<(), String>;
}

/// One command that was sent, and what came of it.
pub enum CommandEvent {
    Verified(Command, Result<CommandOutcome, String>),
    Fired(Command, Result<(), String>),
}

/// A port and the log of what went through it.
pub struct CommandTap<P> {
    port: P,
    events: Ghost<Seq<CommandEvent>>,
}

impl<P: CommandPort> CommandTap<P> {
    /// What went through the port so far.
    pub closed spec fn log(self) -> Seq<CommandEvent> {
        self.events@
    }

    /// The port as it is now.
    pub closed spec fn inner(self) -> P {
        self.port
    }

    pub fn new(port: P) -> (r: CommandTap<P>)
        ensures
            r.inner() == port,
            r.log() == Seq::<CommandEvent>::empty(),
    {
        CommandTap { port, events: Ghost(Seq::empty()) }
    }

    /// The port again.
    pub fn into_port(self) -> (r: P)
        ensures
            r == self.inner(),
    {
        self.port
    }

    fn send_and_verify(&mut self, c: Command) -> (r: Result<CommandOutcome, String>)
        ensures
            final(self).log() == old(self).log().push(CommandEvent::Verified(c, r)),
    {
        let ghost sent = c;
        let r = self.port.send_and_verify(c);
        self.events = Ghost(self.events@.push(CommandEvent::Verified(sent, r)));
        r
    }

    fn send_fire(&mut self, c: Command) -> (r: Result<(), String>)
        ensures
            final(self).log() == old(self).log().push(CommandEvent::Fired(c, r)),
    {
        let ghost sent = c;
        let r = self.port.send_fire(c);
        self.events = Ghost(self.events@.push(CommandEvent::Fired(sent, r)));
        r
    }
}

/// `e` is all that carrying out this action does, and `r` what it comes to. A reboot
/// answers nothing, so it is not waited for and stays unverified.
pub open spec fn executed(
    e: CommandEvent,
    action: ControlAction,
    r: Result<CommandOutcome, ControlError>,
) -> bool {
    match e {
        CommandEvent::Verified(c, res) => {
            &&& action !is Reboot
            &&& carries(c, action)
            &&& match res {
                Ok(o) => r == Ok::<CommandOutcome, ControlError>(o),
                Err(e) => r == Err::<CommandOutcome, ControlError>(ControlError::Transport(e)),
            }
        },
        CommandEvent::Fired(c, res) => {
            &&& action is Reboot
            &&& carries(c, action)
            &&& match res {
                Ok(_) => r == Ok::<CommandOutcome, ControlError>(
                    CommandOutcome::Unverified { stage: VerifyStage::Ack },
                ),
                Err(e) => r == Err::<CommandOutcome, ControlError>(ControlError::Transport(e)),
            }
        },
    }
}

/// Carry out an action: send its one command as it has to be sent, and tell what came
/// of it.
pub fn execute<P: CommandPort>(tap: &mut CommandTap<P>, action: ControlAction) -> (r: Result<
    CommandOutcome,
    ControlError,
>)
    ensures
        final(tap).log().len() == old(tap).log().len() + 1,
        old(tap).log().is_prefix_of(final(tap).log()),
        executed(final(tap).log().last(), action, r),
{
    match action.dispatch() {
        Dispatch::Verify(c) => verified_result(tap.send_and_verify(c)),
        Dispatch::Fire(c) => fired_result(tap.send_fire(c)),
    }
}

/// Executes control actions.
pub trait Controller {
    fn execute(&self, action: ControlAction) -> Result<CommandOutcome, ControlError>;
}

/// A canned controller: every action comes to the same.
pub struct FakeController {
    outcome: Result<CommandOutcome, String>,
}

impl FakeController {
    /// What every action comes to.
    pub closed spec fn canned(self) -> Result<CommandOutcome, Seq<char>> {
        match self.outcome {
            Ok(o) => Ok(o),
            Err(e) => Err(e@),
        }
    }

    /// Always reports the command verified.
    pub fn verified() -> (r: FakeController)
        ensures
            r.canned() == Ok::<CommandOutcome, Seq<char>>(CommandOutcome::Verified),
    {
        FakeController { outcome: Ok(CommandOutcome::Verified) }
    }

    pub fn returning(outcome: CommandOutcome) -> (r: FakeController)
        ensures
            r.canned() == Ok::<CommandOutcome, Seq<char>>(outcome),
    {
        FakeController { outcome: Ok(outcome) }
    }

    pub fn failing() -> (r: FakeController)
        ensures
            r.canned() == Err::<CommandOutcome, Seq<char>>("fake transport failure"@),
    {
        FakeController { outcome: Err("fake transport failure".to_owned()) }
    }
}

impl Controller for FakeController {
    fn execute(&self, action: ControlAction) -> (r: Result<CommandOutcome, ControlError>)
        ensures
            match (r, self.canned()) {
                (Ok(a), Ok(b)) => a.same(b),
                (Err(ControlError::Transport(e)), Err(t)) => e@ == t,
                _ => false,
            },
    {
        match &self.outcome {
            Ok(o) => Ok(o.copy()),
            Err(e) => Err(ControlError::Transport(e.clone())),
        }
    }
}

// ── Laws ────────────────────────────────────────────────────────────────────

/// What is asked for by name is asked of the printer by the same name, with what
/// was said of it and nothing else; a line of G-code goes out as it is.
pub proof fn an_action_keeps_what_was_asked(c: Command, a: ControlAction)
    requires
        carries(c, a),
    ensures
        a is Pause <==> c is Pause,
        a is Resume <==> c is Resume,
        a is Stop <==> c is Stop,
        a is ClearError <==> c is ClearError,
        a is Reboot <==> c is Reboot,
        a matches ControlAction::Light { node, on } ==> (c matches Command::Led { node: n, on: o }
            && n == node && o == on),
        a matches ControlAction::Speed(level) ==> (c matches Command::PrintSpeed(l) && l == level),
        a matches ControlAction::Gcode(line) ==> (c matches Command::GcodeLine(l) && l@ == line@),
        a matches ControlAction::Calibrate { bed_level, vibration, motor_noise } ==> (
        c matches Command::Calibration { bed_level: x, vibration: y, motor_noise: z } && x
            == bed_level && y == vibration && z == motor_noise),
        a matches ControlAction::Ams(what) ==> (c matches Command::AmsControl(w) && w == what),
        a matches ControlAction::AmsChange { target, curr_temp, tar_temp } ==> (
        c matches Command::AmsChange { target: t, curr_temp: x, tar_temp: y } && t == target && x
            == curr_temp && y == tar_temp),
{
}

/// Success is only ever told of an effect that was seen: what the printer answered
/// is told as it is, a reboot is never told as verified, and a command that could
/// not be sent is an error.
pub proof fn no_success_is_made_up(
    e: CommandEvent,
    action: ControlAction,
    r: Result<CommandOutcome, ControlError>,
)
    requires
        executed(e, action, r),
    ensures
        r matches Ok(o) ==> {
            ||| e matches CommandEvent::Verified(_, Ok(seen)) && seen == o
            ||| e matches CommandEvent::Fired(_, Ok(_)) && o is Unverified
        },
        r matches Ok(CommandOutcome::Verified) ==> !(action is Reboot),
        r is Err <==> match e {
            CommandEvent::Verified(_, res) => res is Err,
            CommandEvent::Fired(_, res) => res is Err,
        },
        action is Reboot <==> e is Fired,
        (e matches CommandEvent::Verified(_, Err(why)) ==> r == Err::<CommandOutcome, ControlError>(
            ControlError::Transport(why),
        )),
        (e matches CommandEvent::Fired(_, Err(why)) ==> r == Err::<CommandOutcome, ControlError>(
            ControlError::Transport(why),
        )),
{
}

} // verus!
