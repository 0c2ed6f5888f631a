//! A printer that is not there, for clients of the emulated one: what it reports,
//! how it answers, and the files it holds.
use vstd::prelude::*;

use crate::json::{first_key, json_first_key, json_string_at, json_text, string_at, to_json};
use crate::number::{decimal, digits};
use crate::text::{join3, join5, opt_text, same_text};

verus! {

// ── Reports ─────────────────────────────────────────────────────────────────

/// A printer that goes through layer after layer. Temperatures are whole degrees.
#[derive(Clone, Copy, Debug, PartialEq, Eq, Structural)]
pub struct SyntheticPrinter {
    pub layer: u64,
    pub percent: u64,
    pub nozzle: u64,
    pub bed: u64,
}

/// The whole state, as a report in JSON.
pub open spec fn snapshot_text(p: SyntheticPrinter) -> Seq<char> {
    "{\"print\":{\"bed_target_temper\":60.0,\"bed_temper\":"@ + digits(p.bed as nat)
        + ".0,\"chamber_temper\":5,\"command\":\"push_status\",\"cooling_fan_speed\":\"100\",\"gcode_file\":\"synthetic.gcode.3mf\",\"gcode_state\":\"RUNNING\",\"hms\":[],\"home_flag\":0,\"ipcam\":{\"ipcam_dev\":\"0\",\"ipcam_record\":\"enable\",\"mode_bits\":3,\"resolution\":\"1080p\",\"timelapse\":\"disable\",\"tutk_server\":\"disable\"},\"layer_num\":"@
        + digits(p.layer as nat)
        + ",\"lights_report\":[{\"mode\":\"on\",\"node\":\"chamber_light\"}],\"mc_percent\":"@
        + digits(p.percent as nat) + ",\"mc_remaining_time\":"@ + digits(
        (100 - p.percent) as nat,
    ) + ",\"msg\":0,\"nozzle_target_temper\":220.0,\"nozzle_temper\":"@ + digits(p.nozzle as nat)
        + ".0,\"print_error\":0,\"sequence_id\":\"1000\",\"spd_lvl\":2,\"stg_cur\":0,\"subtask_name\":\"synthetic.gcode.3mf\",\"total_layer_num\":100}}"@
}

/// What changed, as a report in JSON.
pub open spec fn delta_text(p: SyntheticPrinter) -> Seq<char> {
    "{\"print\":{\"bed_temper\":"@ + digits(p.bed as nat)
        + ".0,\"command\":\"push_status\",\"layer_num\":"@ + digits(p.layer as nat)
        + ",\"mc_percent\":"@ + digits(p.percent as nat) + ",\"msg\":1,\"nozzle_temper\":"@ + digits(
        p.nozzle as nat,
    ) + ".0,\"sequence_id\":\"1001\"}}"@
}

/// What a request is answered with, in JSON; none where it is not answered.
pub open spec fn reply_text(
    p: SyntheticPrinter,
    category: Option<Seq<char>>,
    command: Option<Seq<char>>,
    seq: Option<Seq<char>>,
) -> Option<Seq<char>> {
    match category {
        None => None,
        Some(c) => if command == Some("pushall"@) {
            Some(snapshot_text(p))
        } else {
            match seq {
                None => None,
                Some(s) => Some(
                    "{"@ + json_text(c)
                        + ":{\"reason\":\"success\",\"result\":\"success\",\"sequence_id\":"@
                        + json_text(s) + "}}"@,
                ),
            }
        },
    }
}

impl SyntheticPrinter {
    /// Within what a print goes through.
    pub open spec fn wf(self) -> bool {
        &&& self.layer <= 100
        &&& self.percent == self.layer
        &&& 25 <= self.nozzle <= 220
        &&& 25 <= self.bed <= 60
    }

    /// Cold, before the first layer.
    pub fn start() -> (r: SyntheticPrinter)
        ensures
            r.wf(),
            r == (SyntheticPrinter { layer: 0, percent: 0, nozzle: 25, bed: 25 }),
    {
        SyntheticPrinter { layer: 0, percent: 0, nozzle: 25, bed: 25 }
    }

    /// The whole state, as a report.
    pub fn snapshot(&self) -> (r: String)
        requires
            self.wf(),
        ensures
            r@ == snapshot_text(*self),
    {
        let bed = decimal(self.bed);
        let layer = decimal(self.layer);
        let percent = decimal(self.percent);
        let left = decimal(100 - self.percent);
        let nozzle = decimal(self.nozzle);
        let a = join3(
            "{\"print\":{\"bed_target_temper\":60.0,\"bed_temper\":",
            bed.as_str(),
            ".0,\"chamber_temper\":5,\"command\":\"push_status\",\"cooling_fan_speed\":\"100\",\"gcode_file\":\"synthetic.gcode.3mf\",\"gcode_state\":\"RUNNING\",\"hms\":[],\"home_flag\":0,\"ipcam\":{\"ipcam_dev\":\"0\",\"ipcam_record\":\"enable\",\"mode_bits\":3,\"resolution\":\"1080p\",\"timelapse\":\"disable\",\"tutk_server\":\"disable\"},\"layer_num\":",
        );
        let b = join5(
            a.as_str(),
            layer.as_str(),
            ",\"lights_report\":[{\"mode\":\"on\",\"node\":\"chamber_light\"}],\"mc_percent\":",
            percent.as_str(),
            ",\"mc_remaining_time\":",
        );
        let c = join3(
            b.as_str(),
            left.as_str(),
            ",\"msg\":0,\"nozzle_target_temper\":220.0,\"nozzle_temper\":",
        );
        join3(
            c.as_str(),
            nozzle.as_str(),
            ".0,\"print_error\":0,\"sequence_id\":\"1000\",\"spd_lvl\":2,\"stg_cur\":0,\"subtask_name\":\"synthetic.gcode.3mf\",\"total_layer_num\":100}}",
        )
    }

    /// Go on by a layer and heat up a little; what changed, as a report.
    pub fn advance(&mut self) -> (r: String)
        requires
            old(self).wf(),
        ensures
            final(self).wf(),
            final(self).layer == (old(self).layer + 1) % 101,
            final(self).nozzle == (if old(self).nozzle + 8 < 220 {
                old(self).nozzle + 8
            } else {
                220int
            }),
            final(self).bed == (if old(self).bed + 3 < 60 {
                old(self).bed + 3
            } else {
                60int
            }),
            r@ == delta_text(*final(self)),
    {
        self.layer = (self.layer + 1) % 101;
        self.percent = self.layer;
        self.nozzle = if self.nozzle + 8 < 220 {
            self.nozzle + 8
        } else {
            220
        };
        self.bed = if self.bed + 3 < 60 {
            self.bed + 3
        } else {
            60
        };
        let bed = decimal(self.bed);
        let layer = decimal(self.layer);
        let percent = decimal(self.percent);
        let nozzle = decimal(self.nozzle);
        let a = join5(
            "{\"print\":{\"bed_temper\":",
            bed.as_str(),
            ".0,\"command\":\"push_status\",\"layer_num\":",
            layer.as_str(),
            ",\"mc_percent\":",
        );
        join5(
            a.as_str(),
            percent.as_str(),
            ",\"msg\":1,\"nozzle_temper\":",
            nozzle.as_str(),
            ".0,\"sequence_id\":\"1001\"}}",
        )
    }

    /// Answer a request of which these parts were read: the whole state where that
    /// is asked for, else that it was done, under the number it came with.
    pub fn reply(&self, category: &Option<String>, command: &Option<String>, seq: &Option<String>)
        -> (r: Option<String>)
        requires
            self.wf(),
        ensures
            opt_text(r) == reply_text(
                *self,
                opt_text(*category),
                opt_text(*command),
                opt_text(*seq),
            ),
    {
        let c = match category {
            Some(c) => c,
            None => {
                return None;
            },
        };
        if let Some(cmd) = command {
            if same_text(cmd.as_str(), "pushall") {
                return Some(self.snapshot());
            }
        }
        let s = match seq {
            Some(s) => s,
            None => {
                return None;
            },
        };
        match (to_json(c.as_str()), to_json(s.as_str())) {
            (Ok(cj), Ok(sj)) => Some(
                join5(
                    "{",
                    cj.as_str(),
                    ":{\"reason\":\"success\",\"result\":\"success\",\"sequence_id\":",
                    sj.as_str(),
                    "}}",
                ),
            ),
            _ => None,
        }
    }

    /// Answer a request in JSON.
    pub fn send(&self, payload: &str) -> (r: Option<String>)
        requires
            self.wf(),
        ensures
            opt_text(r) == reply_text(
                *self,
                json_first_key(payload@),
                match json_first_key(payload@) {
                    Some(c) => json_string_at(payload@, "/"@ + c + "/command"@),
                    None => None,
                },
                match json_first_key(payload@) {
                    Some(c) => json_string_at(payload@, "/"@ + c + "/sequence_id"@),
                    None => None,
                },
            ),
    {
        let category = first_key(payload);
        let (command, seq): (Option<String>, Option<String>) = match &category {
            Some(c) => {
                let at_command = join3("/", c.as_str(), "/command");
                let at_seq = join3("/", c.as_str(), "/sequence_id");
                (string_at(payload, at_command.as_str()), string_at(payload, at_seq.as_str()))
            },
            None => (None, None),
        };
        self.reply(&category, &command, &seq)
    }
}

/// Both reports tell the state that the printer is in.
pub proof fn a_report_tells_the_state(p: SyntheticPrinter)
    requires
        p.wf(),
    ensures
        crate::text::has_text(delta_text(p), "\"layer_num\":"@ + digits(p.layer as nat) + ","@),
        crate::text::has_text(delta_text(p), "\"mc_percent\":"@ + digits(p.percent as nat) + ","@),
        crate::text::has_text(delta_text(p), "\"nozzle_temper\":"@ + digits(p.nozzle as nat) + "."@),
        crate::text::has_text(delta_text(p), "\"bed_temper\":"@ + digits(p.bed as nat) + "."@),
{
    reveal_strlit("{\"print\":{\"bed_temper\":");
    reveal_strlit(".0,\"command\":\"push_status\",\"layer_num\":");
    reveal_strlit(",\"mc_percent\":");
    reveal_strlit(",\"msg\":1,\"nozzle_temper\":");
    reveal_strlit(".0,\"sequence_id\":\"1001\"}}");
    reveal_strlit("\"layer_num\":");
    reveal_strlit("\"mc_percent\":");
    reveal_strlit("\"nozzle_temper\":");
    reveal_strlit("\"bed_temper\":");
    reveal_strlit(",");
    reveal_strlit(".");
    let t = delta_text(p);
    let bed = digits(p.bed as nat);
    let layer = digits(p.layer as nat);
    let percent = digits(p.percent as nat);
    let nozzle = digits(p.nozzle as nat);
    let a = "\"bed_temper\":"@ + bed + "."@;
    let b = "\"layer_num\":"@ + layer + ","@;
    let c = "\"mc_percent\":"@ + percent + ","@;
    let d = "\"nozzle_temper\":"@ + nozzle + "."@;
    assert(t.subrange(10, 10 + a.len() as int) =~= a);
    assert(crate::text::text_at(t, a, 10));
    let i: int = "{\"print\":{\"bed_temper\":"@.len() as int + bed.len() + 27;
    assert(t.subrange(i, i + b.len()) =~= b);
    assert(crate::text::text_at(t, b, i));
    let j: int = i + b.len();
    assert(t.subrange(j, j + c.len()) =~= c);
    assert(crate::text::text_at(t, c, j));
    let k: int = j + c.len() + 8;
    assert(t.subrange(k, k + d.len()) =~= d);
    assert(crate::text::text_at(t, d, k));
}

/// A request for everything is answered with everything; any other is answered under
/// its own kind and number, and one without a number not at all.
pub proof fn a_request_is_answered_under_its_number(
    p: SyntheticPrinter,
    category: Seq<char>,
    command: Option<Seq<char>>,
    seq: Seq<char>,
)
    ensures
        reply_text(p, Some(category), Some("pushall"@), Some(seq)) == Some(snapshot_text(p)),
        reply_text(p, Some(category), Some("pushall"@), None) == Some(snapshot_text(p)),
        reply_text(p, None, command, Some(seq)) is None,
        command != Some("pushall"@) ==> reply_text(p, Some(category), command, None) is None,
        command != Some("pushall"@) ==> (reply_text(p, Some(category), command, Some(seq)) matches Some(
            t,
        ) && crate::text::has_text(t, "{"@ + json_text(category) + ":{"@)
            && crate::text::has_text(t, "\"sequence_id\":"@ + json_text(seq) + "}"@)
            && crate::text::has_text(t, "\"result\":\"success\""@)),
{
    if command != Some("pushall"@) {
        reveal_strlit("{");
        reveal_strlit(":{");
        reveal_strlit(":{\"reason\":\"success\",\"result\":\"success\",\"sequence_id\":");
        reveal_strlit("\"sequence_id\":");
        reveal_strlit("\"result\":\"success\"");
        reveal_strlit("}}");
        reveal_strlit("}");
        let t = reply_text(p, Some(category), command, Some(seq))->0;
        let a = "{"@ + json_text(category) + ":{"@;
        assert(t.subrange(0, a.len() as int) =~= a);
        assert(crate::text::text_at(t, a, 0));
        let m = ":{\"reason\":\"success\",\"result\":\"success\",\"sequence_id\":"@;
        let b = "\"sequence_id\":"@ + json_text(seq) + "}"@;
        let i: int = 1 + json_text(category).len() + m.len() - "\"sequence_id\":"@.len();
        assert(t.subrange(i, i + b.len()) =~= b);
        assert(crate::text::text_at(t, b, i));
        let c = "\"result\":\"success\""@;
        let j: int = 1int + json_text(category).len() + 21;
        assert(t.subrange(j, j + c.len()) =~= c);
        assert(crate::text::text_at(t, c, j));
    }
}

} // verus!
