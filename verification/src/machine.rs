//! What each control request is answered: the action to carry out, or the first
//! refusal that applies.
use vstd::prelude::*;

use crate::control::{
    temp_gcode, temp_line, AmsControl, Axis, ControlAction, HomeAxes, LedNode, SpeedLevel,
    TempPart,
};
use crate::number::{decimal, digits, signed_decimal, signed_digits};
use crate::reply::{
    bad, bad_request, busy, hooked, is_busy, need_confirm, opt_reply, or_refuse, require_idle,
    require_no_hook, unconfirmed, Machine, Refusal, Reply,
};
use crate::text::{
    debug_text, join2, join3, join5, opt_text, quoted, same_text, trim, trimmed, Strip,
};

verus! {

/// What a check of G-code found.
#[derive(Debug)]
pub enum GcodeVerdict {
    Allow,
    /// Refused, and why.
    Block(String),
}

impl GcodeVerdict {
    /// The reason of a refusal.
    pub open spec fn reason(self) -> Option<Seq<char>> {
        match self {
            GcodeVerdict::Allow => None,
            GcodeVerdict::Block(why) => Some(why@),
        }
    }
}

/// A verdict turned into a refusal that starts with `prefix`.
pub open spec fn blocked(v: GcodeVerdict, prefix: Seq<char>) -> Option<Refusal> {
    match v.reason() {
        Some(why) => Some(bad(prefix + why)),
        None => None,
    }
}

/// A word that names nothing known.
pub open spec fn unknown(what: Seq<char>, word: Seq<char>) -> Refusal {
    bad("unknown "@ + what + " "@ + debug_text(word))
}

fn unknown_word(what: &str, word: &str) -> (r: Reply)
    ensures
        r@ == unknown(what@, word@),
{
    let q = quoted(word);
    let mut m = join3("unknown ", what, " ");
    m.append(q.as_str());
    bad_request(m)
}

/// `r` carries out `a` where nothing is refused, and is the refusal otherwise.
pub open spec fn answers(
    r: Result<ControlAction, Reply>,
    refused: Option<Refusal>,
    a: ControlAction,
) -> bool {
    match r {
        Ok(action) => refused is None && action == a,
        Err(reply) => refused == Some(reply@),
    }
}

// ── The words a request may use ─────────────────────────────────────────────

pub open spec fn led_of(node: Seq<char>) -> Option<LedNode> {
    if node == "chamber"@ {
        Some(LedNode::ChamberLight)
    } else if node == "work"@ {
        Some(LedNode::WorkLight)
    } else {
        None
    }
}

pub open spec fn speed_of(level: Seq<char>) -> Option<SpeedLevel> {
    if level == "silent"@ {
        Some(SpeedLevel::Silent)
    } else if level == "standard"@ {
        Some(SpeedLevel::Standard)
    } else if level == "sport"@ {
        Some(SpeedLevel::Sport)
    } else if level == "ludicrous"@ {
        Some(SpeedLevel::Ludicrous)
    } else {
        None
    }
}

pub open spec fn home_axes_of(axes: Seq<char>) -> Option<HomeAxes> {
    if axes == "all"@ {
        Some(HomeAxes::All)
    } else if axes == "x"@ {
        Some(HomeAxes::X)
    } else if axes == "y"@ {
        Some(HomeAxes::Y)
    } else if axes == "z"@ {
        Some(HomeAxes::Z)
    } else {
        None
    }
}

pub open spec fn axis_of(axis: Seq<char>) -> Option<Axis> {
    if axis == "x"@ {
        Some(Axis::X)
    } else if axis == "y"@ {
        Some(Axis::Y)
    } else if axis == "z"@ {
        Some(Axis::Z)
    } else {
        None
    }
}

pub open spec fn part_of(part: Seq<char>) -> Option<TempPart> {
    if part == "nozzle"@ {
        Some(TempPart::Nozzle)
    } else if part == "bed"@ {
        Some(TempPart::Bed)
    } else {
        None
    }
}

pub open spec fn ams_of(action: Seq<char>) -> Option<AmsControl> {
    if action == "resume"@ {
        Some(AmsControl::Resume)
    } else if action == "reset"@ {
        Some(AmsControl::Reset)
    } else if action == "pause"@ {
        Some(AmsControl::Pause)
    } else {
        None
    }
}

/// The refusal of a word that names nothing known.
pub open spec fn unless_known<T>(
    found: Option<T>,
    what: Seq<char>,
    word: Seq<char>,
) -> Option<Refusal> {
    match found {
        Some(_) => None,
        None => Some(unknown(what, word)),
    }
}

// ── Lights, speed, raw G-code ───────────────────────────────────────────────

/// Switch a light.
pub fn light(node: &str, on: bool) -> (r: Result<ControlAction, Reply>)
    ensures
        answers(
            r,
            unless_known(led_of(node@), "light node"@, node@),
            ControlAction::Light { node: led_of(node@)->0, on },
        ),
{
    if same_text(node, "chamber") {
        Ok(ControlAction::Light { node: LedNode::ChamberLight, on })
    } else if same_text(node, "work") {
        Ok(ControlAction::Light { node: LedNode::WorkLight, on })
    } else {
        Err(unknown_word("light node", node))
    }
}

/// Set the print speed.
pub fn speed(level: &str) -> (r: Result<ControlAction, Reply>)
    ensures
        answers(
            r,
            unless_known(speed_of(level@), "speed level"@, level@),
            ControlAction::Speed(speed_of(level@)->0),
        ),
{
    if same_text(level, "silent") {
        Ok(ControlAction::Speed(SpeedLevel::Silent))
    } else if same_text(level, "standard") {
        Ok(ControlAction::Speed(SpeedLevel::Standard))
    } else if same_text(level, "sport") {
        Ok(ControlAction::Speed(SpeedLevel::Sport))
    } else if same_text(level, "ludicrous") {
        Ok(ControlAction::Speed(SpeedLevel::Ludicrous))
    } else {
        Err(unknown_word("speed level", level))
    }
}

pub open spec fn gcode_refusal(
    line: Seq<char>,
    confirm: bool,
    force: bool,
    verdict: GcodeVerdict,
    hook_running: bool,
) -> Option<Refusal> {
    let empty = if trimmed(line, Strip::Space).len() == 0 {
        Some(bad("empty gcode line"@))
    } else {
        None
    };
    let unsafe_line = if force {
        None
    } else {
        blocked(verdict, "unsafe gcode (use force to override): "@)
    };
    or_refuse(
        or_refuse(or_refuse(empty, unconfirmed(confirm)), unsafe_line),
        hooked(hook_running),
    )
}

/// Send a raw G-code line. It needs confirmation, and a line that the safety
/// check blocks is refused unless `force`.
pub fn gcode(
    line: String,
    confirm: bool,
    force: bool,
    verdict: GcodeVerdict,
    m: &Machine,
) -> (r: Result<ControlAction, Reply>)
    ensures
        answers(
            r,
            gcode_refusal(line@, confirm, force, verdict, m.hook_running),
            ControlAction::Gcode(line),
        ),
{
    if trim(line.as_str(), Strip::Space).as_str().is_empty() {
        return Err(bad_request("empty gcode line".to_owned()));
    }
    if let Some(refused) = need_confirm(confirm) {
        return Err(refused);
    }
    if !force {
        if let GcodeVerdict::Block(why) = &verdict {
            return Err(
                bad_request(join2("unsafe gcode (use force to override): ", why.as_str())),
            );
        }
    }
    if let Some(refused) = require_no_hook(m.hook_running) {
        return Err(refused);
    }
    Ok(ControlAction::Gcode(line))
}

/// A job control that needs nothing but confirmation: pause, resume, stop and
/// clear-error have to work whatever the machine is doing.
pub fn run_confirmed(action: ControlAction, confirm: bool) -> (r: Result<ControlAction, Reply>)
    ensures
        answers(r, unconfirmed(confirm), action),
{
    match need_confirm(confirm) {
        Some(refused) => Err(refused),
        None => Ok(action),
    }
}

// ── Motion ──────────────────────────────────────────────────────────────────

/// The axes homed where a request names none.
pub fn default_axes() -> (r: String)
    ensures
        r@ == "all"@,
{
    "all".to_owned()
}

/// The feedrate of a jog that names none.
pub fn default_move_feedrate() -> (r: u32)
    ensures
        r == 3000,
{
    3000
}

/// The feedrate of an extrusion that names none.
pub fn default_extrude_feedrate() -> (r: u32)
    ensures
        r == 300,
{
    300
}

/// What every motion asks of the machine: idle, and not being driven by the
/// pre-print sequence.
pub open spec fn cannot_move(m: Machine) -> Option<Refusal> {
    or_refuse(busy(opt_text(m.gcode_state)), hooked(m.hook_running))
}

fn motion_refusal(m: &Machine) -> (r: Option<Reply>)
    ensures
        opt_reply(r) == cannot_move(*m),
{
    match require_idle(&m.gcode_state) {
        Some(refused) => Some(refused),
        None => require_no_hook(m.hook_running),
    }
}

pub open spec fn home_refusal(axes: Seq<char>, m: Machine) -> Option<Refusal> {
    or_refuse(unless_known(home_axes_of(axes), "axes"@, axes), cannot_move(m))
}

/// Home one or all axes. Needs an idle machine, and no confirmation.
pub fn home(axes: &str, m: &Machine) -> (r: Result<ControlAction, Reply>)
    ensures
        answers(
            r,
            home_refusal(axes@, *m),
            ControlAction::Home(home_axes_of(axes@)->0),
        ),
{
    let which = if same_text(axes, "all") {
        HomeAxes::All
    } else if same_text(axes, "x") {
        HomeAxes::X
    } else if same_text(axes, "y") {
        HomeAxes::Y
    } else if same_text(axes, "z") {
        HomeAxes::Z
    } else {
        return Err(unknown_word("axes", axes));
    };
    match motion_refusal(m) {
        Some(refused) => Err(refused),
        None => Ok(ControlAction::Home(which)),
    }
}

/// The refusal of a feedrate outside 60 to 6000.
pub open spec fn bad_feedrate(feedrate: u32) -> Option<Refusal> {
    if 60 <= feedrate <= 6000 {
        None
    } else {
        Some(bad("feedrate "@ + digits(feedrate as nat) + " out of range (60..=6000)"@))
    }
}

fn feedrate_refusal(feedrate: u32) -> (r: Option<Reply>)
    ensures
        opt_reply(r) == bad_feedrate(feedrate),
{
    if 60 <= feedrate && feedrate <= 6000 {
        None
    } else {
        let d = decimal(feedrate as u64);
        Some(bad_request(join3("feedrate ", d.as_str(), " out of range (60..=6000)")))
    }
}

pub open spec fn move_refusal(
    axis: Seq<char>,
    verdict: GcodeVerdict,
    feedrate: u32,
    m: Machine,
) -> Option<Refusal> {
    or_refuse(
        or_refuse(
            or_refuse(unless_known(axis_of(axis), "axis"@, axis), blocked(verdict, Seq::empty())),
            bad_feedrate(feedrate),
        ),
        cannot_move(m),
    )
}

/// Jog one axis a relative distance. `verdict` is the check of that distance.
pub fn move_axis(
    axis: &str,
    delta: String,
    feedrate: u32,
    verdict: GcodeVerdict,
    m: &Machine,
) -> (r: Result<ControlAction, Reply>)
    ensures
        answers(
            r,
            move_refusal(axis@, verdict, feedrate, *m),
            ControlAction::Move { axis: axis_of(axis@)->0, delta, feedrate },
        ),
{
    let which = if same_text(axis, "x") {
        Axis::X
    } else if same_text(axis, "y") {
        Axis::Y
    } else if same_text(axis, "z") {
        Axis::Z
    } else {
        return Err(unknown_word("axis", axis));
    };
    if let GcodeVerdict::Block(why) = verdict {
        proof {
            assert(Seq::<char>::empty() + why@ =~= why@);
        }
        return Err(bad_request(why));
    }
    if let Some(refused) = feedrate_refusal(feedrate) {
        return Err(refused);
    }
    match motion_refusal(m) {
        Some(refused) => Err(refused),
        None => Ok(ControlAction::Move { axis: which, delta, feedrate }),
    }
}

pub open spec fn extrude_refusal(
    verdict: GcodeVerdict,
    feedrate: u32,
    m: Machine,
) -> Option<Refusal> {
    or_refuse(
        or_refuse(blocked(verdict, Seq::empty()), bad_feedrate(feedrate)),
        cannot_move(m),
    )
}

/// Extrude or retract filament. `verdict` is the check of the distance against
/// the nozzle's temperature, and nothing overrides it.
pub fn extrude(delta: String, feedrate: u32, verdict: GcodeVerdict, m: &Machine) -> (r: Result<
    ControlAction,
    Reply,
>)
    ensures
        answers(
            r,
            extrude_refusal(verdict, feedrate, *m),
            ControlAction::Extrude { delta, feedrate },
        ),
{
    if let GcodeVerdict::Block(why) = verdict {
        proof {
            assert(Seq::<char>::empty() + why@ =~= why@);
        }
        return Err(bad_request(why));
    }
    if let Some(refused) = feedrate_refusal(feedrate) {
        return Err(refused);
    }
    match motion_refusal(m) {
        Some(refused) => Err(refused),
        None => Ok(ControlAction::Extrude { delta, feedrate }),
    }
}

// ── Heat ────────────────────────────────────────────────────────────────────

pub open spec fn temp_refusal(
    part: Seq<char>,
    celsius: u32,
    confirm: bool,
    force: bool,
    verdict: GcodeVerdict,
) -> Option<Refusal> {
    let too_hot = if force {
        None
    } else {
        blocked(verdict, "unsafe temperature (use force to override): "@)
    };
    let not_confirmed = if celsius > 0 {
        unconfirmed(confirm)
    } else {
        None
    };
    or_refuse(or_refuse(unless_known(part_of(part), "part"@, part), too_hot), not_confirmed)
}

/// The line whose safety decides whether a heater may be set.
pub fn temp_check_line(part: &str, celsius: u32) -> (r: Option<String>)
    ensures
        match r {
            Some(line) => part_of(part@) is Some && line@ == temp_gcode(part_of(part@)->0, celsius),
            None => part_of(part@) is None,
        },
{
    if same_text(part, "nozzle") {
        Some(temp_line(TempPart::Nozzle, celsius))
    } else if same_text(part, "bed") {
        Some(temp_line(TempPart::Bed, celsius))
    } else {
        None
    }
}

/// Set a heater's target. `verdict` is the check of the line that sets it. It is
/// not gated on an idle machine, and a cooldown needs no confirmation: turning
/// the heat off is the way out.
pub fn temp(
    part: &str,
    celsius: u32,
    confirm: bool,
    force: bool,
    verdict: GcodeVerdict,
) -> (r: Result<ControlAction, Reply>)
    ensures
        answers(
            r,
            temp_refusal(part@, celsius, confirm, force, verdict),
            ControlAction::SetTemp { part: part_of(part@)->0, celsius },
        ),
{
    let which = if same_text(part, "nozzle") {
        TempPart::Nozzle
    } else if same_text(part, "bed") {
        TempPart::Bed
    } else {
        return Err(unknown_word("part", part));
    };
    if !force {
        if let GcodeVerdict::Block(why) = &verdict {
            return Err(
                bad_request(
                    join2("unsafe temperature (use force to override): ", why.as_str()),
                ),
            );
        }
    }
    if celsius > 0 {
        if let Some(refused) = need_confirm(confirm) {
            return Err(refused);
        }
    }
    Ok(ControlAction::SetTemp { part: which, celsius })
}

// ── Calibration, filament, the machine as a whole ───────────────────────────

pub open spec fn calibrate_refusal(
    bed_level: bool,
    vibration: bool,
    motor_noise: bool,
    confirm: bool,
    m: Machine,
) -> Option<Refusal> {
    let none = if bed_level || vibration || motor_noise {
        None
    } else {
        Some(bad("select at least one calibration (bed_level/vibration/motor_noise)"@))
    };
    or_refuse(or_refuse(none, unconfirmed(confirm)), cannot_move(m))
}

/// Run one or more calibrations.
pub fn calibrate(
    bed_level: bool,
    vibration: bool,
    motor_noise: bool,
    confirm: bool,
    m: &Machine,
) -> (r: Result<ControlAction, Reply>)
    ensures
        answers(
            r,
            calibrate_refusal(bed_level, vibration, motor_noise, confirm, *m),
            ControlAction::Calibrate { bed_level, vibration, motor_noise },
        ),
{
    if !(bed_level || vibration || motor_noise) {
        return Err(
            bad_request(
                "select at least one calibration (bed_level/vibration/motor_noise)".to_owned(),
            ),
        );
    }
    if let Some(refused) = need_confirm(confirm) {
        return Err(refused);
    }
    match motion_refusal(m) {
        Some(refused) => Err(refused),
        None => Ok(ControlAction::Calibrate { bed_level, vibration, motor_noise }),
    }
}

pub open spec fn ams_refusal(action: Seq<char>, confirm: bool, m: Machine) -> Option<Refusal> {
    let gates = if ams_of(action) == Some(AmsControl::Resume) {
        None
    } else {
        or_refuse(unconfirmed(confirm), busy(opt_text(m.gcode_state)))
    };
    or_refuse(
        or_refuse(unless_known(ams_of(action), "ams action"@, action), gates),
        hooked(m.hook_running),
    )
}

/// Control the filament system. Resuming needs neither confirmation nor an idle
/// machine; resetting and pausing need both.
pub fn ams(action: &str, confirm: bool, m: &Machine) -> (r: Result<ControlAction, Reply>)
    ensures
        answers(r, ams_refusal(action@, confirm, *m), ControlAction::Ams(ams_of(action@)->0)),
{
    let which = if same_text(action, "resume") {
        AmsControl::Resume
    } else if same_text(action, "reset") {
        AmsControl::Reset
    } else if same_text(action, "pause") {
        AmsControl::Pause
    } else {
        return Err(unknown_word("ams action", action));
    };
    if which != AmsControl::Resume {
        if let Some(refused) = need_confirm(confirm) {
            return Err(refused);
        }
        if let Some(refused) = require_idle(&m.gcode_state) {
            return Err(refused);
        }
    }
    match require_no_hook(m.hook_running) {
        Some(refused) => Err(refused),
        None => Ok(ControlAction::Ams(which)),
    }
}

/// A filament change as it was asked for.
pub struct AmsChange {
    /// A tray (0 to 3), 254 for the external spool, or 255 to unload.
    pub target: u32,
    /// The nozzle temperature for the new filament.
    pub tar_temp: i64,
    /// The temperature that softens the current filament for its retraction; the
    /// target temperature where none is given.
    pub curr_temp: Option<i64>,
    pub confirm: bool,
    /// Preview the command and send nothing.
    pub dry_run: bool,
}

impl AmsChange {
    pub open spec fn curr(self) -> i64 {
        match self.curr_temp {
            Some(t) => t,
            None => self.tar_temp,
        }
    }
}

pub open spec fn bad_ams_target(target: u32) -> Option<Refusal> {
    if target <= 3 || target == 254 || target == 255 {
        None
    } else {
        Some(
            bad(
                "target "@ + digits(target as nat)
                    + " invalid (trays 0..3, 254 external spool, or 255 unload)"@,
            ),
        )
    }
}

/// The refusal of a nozzle temperature outside 0 to `max`.
pub open spec fn bad_nozzle_temp(label: Seq<char>, t: i64, max: i64) -> Option<Refusal> {
    if 0 <= t <= max {
        None
    } else {
        Some(
            bad(
                label + " "@ + signed_digits(t as int) + "°C is out of range (0..="@
                    + signed_digits(max as int) + ")"@,
            ),
        )
    }
}

fn nozzle_temp_refusal(label: &str, t: i64, max: i64) -> (r: Option<Reply>)
    ensures
        opt_reply(r) == bad_nozzle_temp(label@, t, max),
{
    if 0 <= t && t <= max {
        None
    } else {
        let d = signed_decimal(t);
        let top = signed_decimal(max);
        let mut m = join5(label, " ", d.as_str(), "°C is out of range (0..=", top.as_str());
        m.append(")");
        Some(bad_request(m))
    }
}

/// What is wrong with a filament change whatever the machine is doing.
pub open spec fn ams_change_invalid(b: AmsChange, max_nozzle: i64) -> Option<Refusal> {
    or_refuse(
        or_refuse(
            bad_ams_target(b.target),
            bad_nozzle_temp("tar_temp"@, b.tar_temp, max_nozzle),
        ),
        bad_nozzle_temp("curr_temp"@, b.curr(), max_nozzle),
    )
}

/// What a filament change is answered.
#[derive(Debug)]
pub enum AmsChangeAnswer {
    /// The command that would be sent.
    Plan { target: u32, curr_temp: i64, tar_temp: i64 },
    /// Send it.
    Run(ControlAction),
    Refused(Reply),
}

/// Change or unload filament. Both temperatures stay within the nozzle's limit,
/// and nothing overrides that; a dry run previews the command even on a busy
/// machine.
pub fn ams_change(b: &AmsChange, max_nozzle: i64, m: &Machine) -> (r: AmsChangeAnswer)
    ensures
        match ams_change_invalid(*b, max_nozzle) {
            Some(refused) => r matches AmsChangeAnswer::Refused(reply) && reply@ == refused,
            None => if b.dry_run {
                r == (AmsChangeAnswer::Plan {
                    target: b.target,
                    curr_temp: b.curr(),
                    tar_temp: b.tar_temp,
                })
            } else {
                match or_refuse(unconfirmed(b.confirm), cannot_move(*m)) {
                    Some(refused) => r matches AmsChangeAnswer::Refused(reply) && reply@
                        == refused,
                    None => r == AmsChangeAnswer::Run(
                        ControlAction::AmsChange {
                            target: b.target,
                            curr_temp: b.curr(),
                            tar_temp: b.tar_temp,
                        },
                    ),
                }
            },
        },
{
    if !(b.target <= 3 || b.target == 254 || b.target == 255) {
        let d = decimal(b.target as u64);
        return AmsChangeAnswer::Refused(
            bad_request(
                join3(
                    "target ",
                    d.as_str(),
                    " invalid (trays 0..3, 254 external spool, or 255 unload)",
                ),
            ),
        );
    }
    let curr_temp: i64 = match b.curr_temp {
        Some(t) => t,
        None => b.tar_temp,
    };
    if let Some(refused) = nozzle_temp_refusal("tar_temp", b.tar_temp, max_nozzle) {
        return AmsChangeAnswer::Refused(refused);
    }
    if let Some(refused) = nozzle_temp_refusal("curr_temp", curr_temp, max_nozzle) {
        return AmsChangeAnswer::Refused(refused);
    }
    if b.dry_run {
        return AmsChangeAnswer::Plan { target: b.target, curr_temp, tar_temp: b.tar_temp };
    }
    if let Some(refused) = need_confirm(b.confirm) {
        return AmsChangeAnswer::Refused(refused);
    }
    match motion_refusal(m) {
        Some(refused) => AmsChangeAnswer::Refused(refused),
        None => AmsChangeAnswer::Run(
            ControlAction::AmsChange { target: b.target, curr_temp, tar_temp: b.tar_temp },
        ),
    }
}

/// Reboot the printer. Confirmed and idle; the pre-print sequence does not hold
/// it up.
pub fn reboot(confirm: bool, m: &Machine) -> (r: Result<ControlAction, Reply>)
    ensures
        answers(
            r,
            or_refuse(unconfirmed(confirm), busy(opt_text(m.gcode_state))),
            ControlAction::Reboot,
        ),
{
    if let Some(refused) = need_confirm(confirm) {
        return Err(refused);
    }
    match require_idle(&m.gcode_state) {
        Some(refused) => Err(refused),
        None => Ok(ControlAction::Reboot),
    }
}

/// Switch the stepper motors off.
pub fn steppers(confirm: bool, m: &Machine) -> (r: Result<ControlAction, Reply>)
    ensures
        answers(r, or_refuse(unconfirmed(confirm), cannot_move(*m)), ControlAction::DisableSteppers),
{
    if let Some(refused) = need_confirm(confirm) {
        return Err(refused);
    }
    match motion_refusal(m) {
        Some(refused) => Err(refused),
        None => Ok(ControlAction::DisableSteppers),
    }
}

// ── Laws ────────────────────────────────────────────────────────────────────

/// While the pre-print sequence drives the machine, nothing else that moves it
/// is carried out: homing, jogging, extruding, calibrating, raw G-code, the
/// filament system and the steppers are all refused, whatever they ask for.
pub proof fn nothing_moves_during_the_hook(
    m: Machine,
    word: Seq<char>,
    verdict: GcodeVerdict,
    feedrate: u32,
    a: bool,
    b: bool,
    c: bool,
    confirm: bool,
    force: bool,
)
    requires
        m.hook_running,
    ensures
        home_refusal(word, m) is Some,
        move_refusal(word, verdict, feedrate, m) is Some,
        extrude_refusal(verdict, feedrate, m) is Some,
        calibrate_refusal(a, b, c, confirm, m) is Some,
        gcode_refusal(word, confirm, force, verdict, m.hook_running) is Some,
        ams_refusal(word, confirm, m) is Some,
        or_refuse(unconfirmed(confirm), cannot_move(m)) is Some,
{
}

/// A busy machine is not homed, jogged, extruded, calibrated or rebooted.
pub proof fn nothing_moves_while_busy(
    m: Machine,
    word: Seq<char>,
    verdict: GcodeVerdict,
    feedrate: u32,
    a: bool,
    b: bool,
    c: bool,
    confirm: bool,
)
    requires
        is_busy(opt_text(m.gcode_state)),
    ensures
        home_refusal(word, m) is Some,
        move_refusal(word, verdict, feedrate, m) is Some,
        extrude_refusal(verdict, feedrate, m) is Some,
        calibrate_refusal(a, b, c, confirm, m) is Some,
        or_refuse(unconfirmed(confirm), cannot_move(m)) is Some,
        or_refuse(unconfirmed(confirm), busy(opt_text(m.gcode_state))) is Some,
{
}

/// The heat can always be turned off: a cooldown that the safety check lets pass
/// is carried out with or without confirmation.
pub proof fn a_cooldown_is_always_allowed(
    part: Seq<char>,
    confirm: bool,
    force: bool,
    verdict: GcodeVerdict,
)
    requires
        part_of(part) is Some,
        verdict is Allow || force,
    ensures
        temp_refusal(part, 0, confirm, force, verdict) is None,
{
}

/// Heating needs confirmation, forced or not.
pub proof fn heating_needs_confirmation(
    part: Seq<char>,
    celsius: u32,
    force: bool,
    verdict: GcodeVerdict,
)
    requires
        celsius > 0,
    ensures
        temp_refusal(part, celsius, false, force, verdict) is Some,
{
}

/// A refusal for what a request says does not depend on the machine: such a
/// request is refused the same way whatever the machine is doing.
pub proof fn validation_comes_before_the_machine(
    axes: Seq<char>,
    axis: Seq<char>,
    verdict: GcodeVerdict,
    feedrate: u32,
    m1: Machine,
    m2: Machine,
)
    ensures
        home_axes_of(axes) is None ==> home_refusal(axes, m1) == home_refusal(axes, m2),
        axis_of(axis) is None || verdict is Block || bad_feedrate(feedrate) is Some
            ==> move_refusal(axis, verdict, feedrate, m1) == move_refusal(
            axis,
            verdict,
            feedrate,
            m2,
        ),
{
}

/// Each word stands for what it says and for nothing else.
pub proof fn a_word_stands_for_what_it_says(s: Seq<char>)
    ensures
        led_of(s) == Some(LedNode::ChamberLight) <==> s == "chamber"@,
        led_of(s) == Some(LedNode::WorkLight) <==> s == "work"@,
        speed_of(s) == Some(SpeedLevel::Silent) <==> s == "silent"@,
        speed_of(s) == Some(SpeedLevel::Standard) <==> s == "standard"@,
        speed_of(s) == Some(SpeedLevel::Sport) <==> s == "sport"@,
        speed_of(s) == Some(SpeedLevel::Ludicrous) <==> s == "ludicrous"@,
        home_axes_of(s) == Some(HomeAxes::All) <==> s == "all"@,
        home_axes_of(s) == Some(HomeAxes::X) <==> s == "x"@,
        home_axes_of(s) == Some(HomeAxes::Y) <==> s == "y"@,
        home_axes_of(s) == Some(HomeAxes::Z) <==> s == "z"@,
        axis_of(s) == Some(Axis::X) <==> s == "x"@,
        axis_of(s) == Some(Axis::Y) <==> s == "y"@,
        axis_of(s) == Some(Axis::Z) <==> s == "z"@,
        part_of(s) == Some(TempPart::Nozzle) <==> s == "nozzle"@,
        part_of(s) == Some(TempPart::Bed) <==> s == "bed"@,
        ams_of(s) == Some(AmsControl::Resume) <==> s == "resume"@,
        ams_of(s) == Some(AmsControl::Reset) <==> s == "reset"@,
        ams_of(s) == Some(AmsControl::Pause) <==> s == "pause"@,
{
    reveal_strlit("chamber");
    reveal_strlit("work");
    reveal_strlit("silent");
    reveal_strlit("standard");
    reveal_strlit("sport");
    reveal_strlit("ludicrous");
    reveal_strlit("all");
    reveal_strlit("x");
    reveal_strlit("y");
    reveal_strlit("z");
    reveal_strlit("nozzle");
    reveal_strlit("bed");
    reveal_strlit("resume");
    reveal_strlit("reset");
    reveal_strlit("pause");
    assert("x"@[0] == 'x' && "y"@[0] == 'y' && "z"@[0] == 'z');
    assert("chamber"@.len() == 7 && "work"@.len() == 4);
    assert("nozzle"@.len() == 6 && "bed"@.len() == 3);
    assert("silent"@.len() == 6 && "standard"@.len() == 8 && "sport"@.len() == 5
        && "ludicrous"@.len() == 9);
    assert("resume"@.len() == 6);
    assert("reset"@.len() == 5 && "reset"@[0] == 'r');
    assert("pause"@.len() == 5 && "pause"@[0] == 'p');
}

/// The machine is free: in none of the four states in which it works, and not being
/// driven by the pre-print sequence.
pub open spec fn free_to_move(m: Machine) -> bool {
    !m.hook_running && busy(opt_text(m.gcode_state)) is None
}

/// What moves the machine is carried out exactly where the request is sound and the
/// machine is free; nothing else holds it up.
pub proof fn a_sound_motion_is_carried_out(
    word: Seq<char>,
    verdict: GcodeVerdict,
    feedrate: u32,
    m: Machine,
)
    ensures
        home_refusal(word, m) is None <==> (word == "all"@ || word == "x"@ || word == "y"@ || word
            == "z"@) && free_to_move(m),
        move_refusal(word, verdict, feedrate, m) is None <==> (word == "x"@ || word == "y"@ || word
            == "z"@) && verdict is Allow && 60 <= feedrate <= 6000 && free_to_move(m),
        extrude_refusal(verdict, feedrate, m) is None <==> verdict is Allow && 60 <= feedrate
            <= 6000 && free_to_move(m),
{
    a_word_stands_for_what_it_says(word);
}

/// A line of G-code is sent where it says something, was confirmed, was found safe
/// or forced, and no sequence runs. A calibration needs a choice, confirmation and a
/// free machine. The filament system resumes at any time but during the sequence.
pub proof fn a_sound_request_is_carried_out(
    line: Seq<char>,
    confirm: bool,
    force: bool,
    verdict: GcodeVerdict,
    m: Machine,
    a: bool,
    b: bool,
    c: bool,
)
    ensures
        gcode_refusal(line, confirm, force, verdict, m.hook_running) is None <==> trimmed(
            line,
            Strip::Space,
        ).len() > 0 && confirm && (force || verdict is Allow) && !m.hook_running,
        calibrate_refusal(a, b, c, confirm, m) is None <==> (a || b || c) && confirm
            && free_to_move(m),
        ams_refusal("resume"@, confirm, m) is None <==> !m.hook_running,
        ams_refusal("reset"@, confirm, m) is None <==> confirm && free_to_move(m),
        ams_refusal("pause"@, confirm, m) is None <==> confirm && free_to_move(m),
{
    a_word_stands_for_what_it_says("resume"@);
    a_word_stands_for_what_it_says("reset"@);
    a_word_stands_for_what_it_says("pause"@);
    reveal_strlit("resume");
    reveal_strlit("reset");
    reveal_strlit("pause");
    assert("resume"@.len() == 6 && "reset"@.len() == 5 && "pause"@.len() == 5);
    assert("reset"@[0] == 'r' && "pause"@[0] == 'p');
}

/// A heater is set where its part is known, the temperature was found safe or
/// forced, and heating was confirmed.
pub proof fn a_sound_temperature_is_set(
    part: Seq<char>,
    celsius: u32,
    confirm: bool,
    force: bool,
    verdict: GcodeVerdict,
)
    ensures
        temp_refusal(part, celsius, confirm, force, verdict) is None <==> (part == "nozzle"@ || part
            == "bed"@) && (force || verdict is Allow) && (celsius == 0 || confirm),
{
    a_word_stands_for_what_it_says(part);
}

/// A filament change is sound exactly where it goes to a tray, to the spool beside
/// the machine or to none, and keeps both of its temperatures within the nozzle's
/// limit. A temperature for the filament that leaves is that of the new one unless
/// it is given.
pub proof fn a_sound_filament_change_is_let_pass(b: AmsChange, max: i64)
    ensures
        ams_change_invalid(b, max) is None <==> {
            &&& b.target <= 3 || b.target == 254 || b.target == 255
            &&& 0 <= b.tar_temp <= max
            &&& b.curr_temp matches Some(t) ==> 0 <= t <= max
        },
        b.curr() == match b.curr_temp {
            Some(t) => t,
            None => b.tar_temp,
        },
{
}

/// A request is carried out as it was understood if and only if nothing was refused, and
/// a refusal is given as it is.
pub proof fn a_request_is_carried_out_or_refused(
    r: Result<ControlAction, Reply>,
    refused: Option<Refusal>,
    a: ControlAction,
)
    requires
        answers(r, refused, a),
    ensures
        r is Ok <==> refused is None,
        r matches Ok(x) ==> x == a,
        r matches Err(e) ==> refused == Some(e@),
{
}

} // verus!
