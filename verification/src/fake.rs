//! A printer that is not there: the status it reports while it goes through a
//! print, cools down and starts again. Temperatures are whole degrees.
use vstd::prelude::*;

use crate::text::join2;

verus! {

/// One spool of the material system.
#[derive(Debug)]
pub struct AmsTray {
    pub id: String,
    pub material: String,
    pub name: String,
    pub color: String,
    /// What is left, in percent; less than nothing where that is not known.
    pub remain: i64,
    pub state: i64,
    /// What a tag says it is, and which one it is.
    pub id_name: String,
    pub uuid: String,
    pub nozzle_temp_min: i64,
    pub nozzle_temp_max: i64,
    pub is_active: bool,
    pub is_target: bool,
}

/// The material system: one unit and its four spools.
#[derive(Debug)]
pub struct Ams {
    pub unit_id: String,
    pub humidity: i64,
    pub humidity_raw: i64,
    pub temp: i64,
    pub trays: Vec<AmsTray>,
    pub active_tray: String,
    pub target_tray: String,
    pub previous_tray: String,
    pub ams_exist_bits: String,
    pub tray_exist_bits: String,
    pub tray_is_bbl_bits: String,
}

/// `t` is a spool with a tag that was read.
pub open spec fn is_spool(
    t: AmsTray,
    id: Seq<char>,
    material: Seq<char>,
    name: Seq<char>,
    color: Seq<char>,
    active: bool,
) -> bool {
    &&& t.id@ == id
    &&& t.material@ == material
    &&& t.name@ == name
    &&& t.color@ == color
    &&& t.remain == -1
    &&& t.state == 3
    &&& t.id_name@ == "A01-R"@ + id
    &&& t.uuid@ == "FACADE0000000000000000000000000"@ + id
    &&& t.nozzle_temp_min == (if material == "PETG"@ {
        230int
    } else {
        190int
    })
    &&& t.nozzle_temp_max == (if material == "PETG"@ {
        260int
    } else {
        230int
    })
    &&& t.is_active == active
    &&& t.is_target == active
}

fn spool(id: &str, material: &str, name: &str, color: &str, active: bool) -> (r: AmsTray)
    ensures
        is_spool(r, id@, material@, name@, color@, active),
{
    let petg: bool = crate::text::same_text(material, "PETG");
    AmsTray {
        id: id.to_owned(),
        material: material.to_owned(),
        name: name.to_owned(),
        color: color.to_owned(),
        remain: -1,
        state: 3,
        id_name: join2("A01-R", id),
        uuid: join2("FACADE0000000000000000000000000", id),
        nozzle_temp_min: if petg {
            230
        } else {
            190
        },
        nozzle_temp_max: if petg {
            260
        } else {
            230
        },
        is_active: active,
        is_target: active,
    }
}

/// `a` holds four spools, of which the first is in use.
pub open spec fn is_fake_ams(a: Ams) -> bool {
    &&& a.unit_id@ == "0"@
    &&& a.humidity == 5
    &&& a.humidity_raw == 28
    &&& a.temp == 0
    &&& a.trays@.len() == 4
    &&& is_spool(a.trays@[0], "0"@, "PLA"@, "PLA Matte Red"@, "DE4343FF"@, true)
    &&& is_spool(a.trays@[1], "1"@, "PLA"@, "PLA Basic Black"@, "000000FF"@, false)
    &&& is_spool(a.trays@[2], "2"@, "PETG"@, "PETG Translucent"@, "D6ABFF80"@, false)
    &&& is_spool(a.trays@[3], "3"@, "PLA"@, "PLA Wood"@, "918669FF"@, false)
    &&& a.active_tray@ == "0"@
    &&& a.target_tray@ == "0"@
    &&& a.previous_tray@ == "255"@
    &&& a.ams_exist_bits@ == "1"@
    &&& a.tray_exist_bits@ == "f"@
    &&& a.tray_is_bbl_bits@ == "f"@
}

/// A loaded material system.
pub fn fake_ams() -> (r: Ams)
    ensures
        is_fake_ams(r),
{
    let trays: Vec<AmsTray> = vec![
        spool("0", "PLA", "PLA Matte Red", "DE4343FF", true),
        spool("1", "PLA", "PLA Basic Black", "000000FF", false),
        spool("2", "PETG", "PETG Translucent", "D6ABFF80", false),
        spool("3", "PLA", "PLA Wood", "918669FF", false),
    ];
    Ams {
        unit_id: "0".to_owned(),
        humidity: 5,
        humidity_raw: 28,
        temp: 0,
        trays,
        active_tray: "0".to_owned(),
        target_tray: "0".to_owned(),
        previous_tray: "255".to_owned(),
        ams_exist_bits: "1".to_owned(),
        tray_exist_bits: "f".to_owned(),
        tray_is_bbl_bits: "f".to_owned(),
    }
}

/// What a printer reports, as far as it is made up.
#[derive(Debug)]
pub struct FakeStatus {
    pub gcode_state: String,
    pub print_error: i64,
    pub print: Option<FakePrint>,
}

/// What a printer reports of a print.
#[derive(Debug)]
pub struct FakePrint {
    pub subtask_name: String,
    pub gcode_file: String,
    pub print_type: String,
    pub nozzle_target: i64,
    pub bed_target: i64,
    pub nozzle_temper: i64,
    pub bed_temper: i64,
    pub mc_percent: i64,
    pub layer_num: i64,
    pub total_layer_num: i64,
    pub remaining_time_min: i64,
    pub spd_lvl: i64,
    pub spd_mag: i64,
    pub cooling_fan_speed: i64,
    pub big_fan1_speed: i64,
    pub heatbreak_fan_speed: i64,
    pub nozzle_diameter: String,
    pub nozzle_type: String,
    pub sdcard: bool,
    pub wifi_signal: String,
    /// An A1 mini reports these two as false, whether or not its reader works.
    pub online_ahb: bool,
    pub online_rfid: bool,
    pub online_version: i64,
    pub filament_location: String,
    pub filament_material: String,
    pub filament_name: String,
    pub filament_color: String,
    pub ams: Ams,
    pub light_node: String,
    pub light_mode: String,
}

/// What of a print never changes.
pub open spec fn is_the_print(p: FakePrint) -> bool {
    &&& p.subtask_name@ == "benchy_2c.3mf"@
    &&& p.gcode_file@ == "benchy_2c.3mf"@
    &&& p.print_type@ == "local"@
    &&& p.nozzle_target == 220
    &&& p.bed_target == 60
    &&& p.total_layer_num == 200
    &&& p.spd_lvl == 2
    &&& p.spd_mag == 100
    &&& p.big_fan1_speed == 0
    &&& p.heatbreak_fan_speed == 7000
    &&& p.nozzle_diameter@ == "0.4"@
    &&& p.nozzle_type@ == "stainless_steel"@
    &&& p.sdcard
    &&& p.wifi_signal@ == "-58dBm"@
    &&& !p.online_ahb
    &&& !p.online_rfid
    &&& p.online_version == 1
    &&& p.filament_location@ == "ams0"@
    &&& p.filament_material@ == "PLA"@
    &&& p.filament_name@ == "PLA Matte"@
    &&& p.filament_color@ == "DE4343FF"@
    &&& is_fake_ams(p.ams)
    &&& p.light_node@ == "chamber_light"@
    &&& p.light_mode@ == "off"@
}

/// A value on its way to another, by at most `step`.
pub open spec fn nearer(current: int, target: int, step: int) -> int {
    if current < target {
        if current + step < target {
            current + step
        } else {
            target
        }
    } else {
        if current - step > target {
            current - step
        } else {
            target
        }
    }
}

/// Move a value toward another by at most `step`.
pub fn approach(current: i64, target: i64, step: i64) -> (r: i64)
    requires
        0 <= step,
        i64::MIN <= current - step,
        current + step <= i64::MAX,
    ensures
        r == nearer(current as int, target as int, step as int),
{
    if current < target {
        if current + step < target {
            current + step
        } else {
            target
        }
    } else if current - step > target {
        current - step
    } else {
        target
    }
}

/// How many ticks a round takes: 100 of printing and 15 of cooling down.
pub const CYCLE: u64 = 115;

/// The ticks of a round in which it prints.
pub const PRINT: u64 = 100;

/// How hot the nozzle is at each tick of a round.
pub open spec fn nozzle_at(p: int) -> int {
    if p <= PRINT {
        if 25 + 8 * p < 220 {
            25 + 8 * p
        } else {
            220
        }
    } else {
        if 220 - 12 * (p - PRINT) > 30 {
            220 - 12 * (p - PRINT)
        } else {
            30
        }
    }
}

/// How hot the bed is at each tick of a round.
pub open spec fn bed_at(p: int) -> int {
    if p <= PRINT {
        if 25 + 4 * p < 60 {
            25 + 4 * p
        } else {
            60
        }
    } else {
        if 60 - 6 * (p - PRINT) > 30 {
            60 - 6 * (p - PRINT)
        } else {
            30
        }
    }
}

/// The tick of the round that counts as its last comes out as its first: the
/// state there is that of 15 ticks of cooling.
pub open spec fn in_round(phase: u64) -> int {
    if phase == 0 {
        CYCLE as int
    } else {
        phase as int
    }
}

/// The status at a tick of a round, once a print has begun.
pub open spec fn status_at(s: FakeStatus, phase: u64) -> bool {
    &&& s.print_error == 0
    &&& s.print matches Some(p)
    &&& is_the_print(p)
    &&& p.nozzle_temper == nozzle_at(in_round(phase))
    &&& p.bed_temper == bed_at(in_round(phase))
    &&& if 1 <= phase <= PRINT {
        &&& s.gcode_state@ == "RUNNING"@
        &&& p.mc_percent == phase
        &&& p.layer_num == phase
        &&& p.remaining_time_min == (PRINT - phase) * 72 / 100
        &&& p.cooling_fan_speed == (if p.nozzle_temper >= 200 {
            100int
        } else {
            0int
        })
    } else {
        &&& s.gcode_state@ == "FINISH"@
        &&& p.mc_percent == 100
        &&& p.layer_num == 200
        &&& p.remaining_time_min == 0
        &&& p.cooling_fan_speed == 0
    }
}

/// The status before the first tick.
pub open spec fn status_at_start(s: FakeStatus) -> bool {
    &&& s.gcode_state@ == "RUNNING"@
    &&& s.print_error == 0
    &&& s.print matches Some(p)
    &&& is_the_print(p)
    &&& p.nozzle_temper == 25
    &&& p.bed_temper == 25
    &&& p.mc_percent == 0
    &&& p.layer_num == 0
    &&& p.remaining_time_min == 72
    &&& p.cooling_fan_speed == 0
}

/// A made-up source of status.
#[derive(Debug)]
pub struct FakeSource {
    status: FakeStatus,
    phase: u64,
}

impl FakeSource {
    pub closed spec fn shows(self) -> FakeStatus {
        self.status
    }

    /// The tick of the round.
    pub closed spec fn at(self) -> u64 {
        self.phase
    }

    /// It goes through prints.
    pub open spec fn ramps(self) -> bool {
        &&& self.at() < CYCLE
        &&& status_at(self.shows(), self.at()) || self.at() == 0 && status_at_start(self.shows())
    }

    /// A printer that is idle and without a fault, and stays so.
    pub fn idle() -> (r: FakeSource)
        ensures
            r.shows().gcode_state@ == "IDLE"@,
            r.shows().print_error == 0,
            r.shows().print is None,
    {
        FakeSource {
            status: FakeStatus { gcode_state: "IDLE".to_owned(), print_error: 0, print: None },
            phase: 0,
        }
    }

    /// A printer that prints in two colours, one layer a tick, over and over.
    pub fn ramping() -> (r: FakeSource)
        ensures
            r.ramps(),
            r.at() == 0,
            status_at_start(r.shows()),
    {
        let print = FakePrint {
            subtask_name: "benchy_2c.3mf".to_owned(),
            gcode_file: "benchy_2c.3mf".to_owned(),
            print_type: "local".to_owned(),
            nozzle_target: 220,
            bed_target: 60,
            nozzle_temper: 25,
            bed_temper: 25,
            mc_percent: 0,
            layer_num: 0,
            total_layer_num: 200,
            remaining_time_min: 72,
            spd_lvl: 2,
            spd_mag: 100,
            cooling_fan_speed: 0,
            big_fan1_speed: 0,
            heatbreak_fan_speed: 7000,
            nozzle_diameter: "0.4".to_owned(),
            nozzle_type: "stainless_steel".to_owned(),
            sdcard: true,
            wifi_signal: "-58dBm".to_owned(),
            online_ahb: false,
            online_rfid: false,
            online_version: 1,
            filament_location: "ams0".to_owned(),
            filament_material: "PLA".to_owned(),
            filament_name: "PLA Matte".to_owned(),
            filament_color: "DE4343FF".to_owned(),
            ams: fake_ams(),
            light_node: "chamber_light".to_owned(),
            light_mode: "off".to_owned(),
        };
        FakeSource {
            status: FakeStatus {
                gcode_state: "RUNNING".to_owned(),
                print_error: 0,
                print: Some(print),
            },
            phase: 0,
        }
    }

    /// What the printer reports now.
    pub fn current(&self) -> (r: &FakeStatus)
        ensures
            *r == self.shows(),
    {
        &self.status
    }

    /// Let a tick pass. It heats up and prints, then cools down, and starts cold
    /// again.
    pub fn tick(&mut self)
        requires
            old(self).ramps(),
        ensures
            final(self).ramps(),
            final(self).at() == (old(self).at() + 1) % CYCLE as int,
            status_at(final(self).shows(), final(self).at()),
    {
        let p: u64 = if self.phase + 1 == CYCLE {
            0
        } else {
            self.phase + 1
        };
        let mut s = match self.status.print.take() {
            Some(s) => s,
            None => {
                return;
            },
        };
        if p == 1 {
            s.nozzle_temper = 25;
            s.bed_temper = 25;
        }
        if 1 <= p && p <= PRINT {
            self.status.gcode_state = "RUNNING".to_owned();
            s.nozzle_temper = approach(s.nozzle_temper, 220, 8);
            s.bed_temper = approach(s.bed_temper, 60, 4);
            s.cooling_fan_speed = if s.nozzle_temper >= 200 {
                100
            } else {
                0
            };
            s.mc_percent = p as i64;
            s.layer_num = p as i64;
            s.remaining_time_min = (100 - p as i64) * 72 / 100;
        } else {
            self.status.gcode_state = "FINISH".to_owned();
            s.mc_percent = 100;
            s.layer_num = 200;
            s.remaining_time_min = 0;
            s.cooling_fan_speed = 0;
            s.nozzle_temper = approach(s.nozzle_temper, 30, 12);
            s.bed_temper = approach(s.bed_temper, 30, 6);
        }
        self.status.print = Some(s);
        self.phase = p;
    }
}

/// Every round is like the one before: the status depends on the tick of the
/// round alone, and stays within what the printer can report.
pub proof fn a_round_repeats(a: FakeSource, b: FakeSource)
    requires
        status_at(a.shows(), a.at()),
        status_at(b.shows(), b.at()),
        a.at() == b.at(),
        a.at() < CYCLE,
    ensures
        a.shows().gcode_state@ == b.shows().gcode_state@,
        a.shows().print matches Some(p) && (b.shows().print matches Some(q) && p.nozzle_temper
            == q.nozzle_temper && p.bed_temper == q.bed_temper && p.mc_percent == q.mc_percent
            && p.layer_num == q.layer_num),
        a.shows().print matches Some(p) && 0 <= p.mc_percent <= 100 && 0 <= p.layer_num
            <= p.total_layer_num && 25 <= p.nozzle_temper <= p.nozzle_target,
{
}

/// A value on its way moves toward where it goes and never past it, by a whole step
/// where there is that much left.
pub proof fn a_value_nears_its_target(current: int, target: int, step: int)
    requires
        step >= 0,
    ensures
        current <= target ==> current <= nearer(current, target, step) <= target,
        current >= target ==> target <= nearer(current, target, step) <= current,
        current + step <= target ==> nearer(current, target, step) == current + step,
        current - step >= target ==> nearer(current, target, step) == current - step,
        -step <= target - current <= step ==> nearer(current, target, step) == target,
{
}

/// The printer starts cold, heats up to what is asked for while it prints and cools down
/// when it is done, a little with each tick.
pub proof fn the_printer_heats_up_and_cools_down(p: int)
    ensures
        nozzle_at(0) == 25 && bed_at(0) == 25,
        0 <= p < 100 ==> nozzle_at(p + 1) == nearer(nozzle_at(p), 220, 8),
        100 <= p < 115 ==> nozzle_at(p + 1) == nearer(nozzle_at(p), 30, 12),
        0 <= p < 100 ==> bed_at(p + 1) == nearer(bed_at(p), 60, 4),
        100 <= p < 115 ==> bed_at(p + 1) == nearer(bed_at(p), 30, 6),
{
}

/// It prints one layer a tick for a hundred ticks, in percent as in layers, with less
/// and less time left, and is then done until the round is over.
pub proof fn a_print_goes_on_by_a_layer(s: FakeStatus, phase: u64)
    requires
        status_at(s, phase),
        phase < 115,
    ensures
        s.print matches Some(p) && {
            &&& 1 <= phase <= 100 ==> s.gcode_state@ == "RUNNING"@ && p.layer_num == phase
                && p.mc_percent == phase
            &&& phase == 100 ==> p.remaining_time_min == 0
            &&& phase == 1 ==> p.remaining_time_min == 71
            &&& phase == 0 || phase > 100 ==> s.gcode_state@ == "FINISH"@ && p.mc_percent == 100
                && p.layer_num == p.total_layer_num && p.remaining_time_min == 0
            &&& 0 < phase <= 100 && p.nozzle_temper >= 200 ==> p.cooling_fan_speed == 100
            &&& p.nozzle_temper < 200 ==> p.cooling_fan_speed == 0
        },
{
}

} // verus!
