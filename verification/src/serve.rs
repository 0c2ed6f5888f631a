//! What a server is to serve: which printers, under which names, with what.
use vstd::prelude::*;

use crate::hook::PrePrint;
use crate::ids::{derived_id, printer_id, printer_id_key};
use crate::net::{is_loopback, loopback};
use crate::text::{debug_text, join3, join5, lower, opt_text, quoted, same_text};

verus! {

/// A printer to serve, under the profile it is configured as.
#[derive(Debug)]
pub struct ServeTarget {
    pub name: String,
    pub serial: String,
    pub ip: String,
    pub model: String,
    /// Its pre-print sequence.
    pub hook: Option<PrePrint>,
}

/// What decides what is served.
#[derive(Clone, Copy, Debug)]
pub struct ServeOpts {
    /// Serve made-up data.
    pub fake: bool,
    /// Present the printer to LAN clients as well.
    pub emulate: bool,
}

/// Where a printer's status comes from.
#[derive(Clone, Copy, Debug, PartialEq, Eq, Structural)]
pub enum SourceKind {
    /// Values that ramp up and down.
    Ramping,
    /// The reports of a synthetic printer that is presented to clients.
    Synthetic,
    /// The printer itself.
    Live,
}

/// One printer that is served.
#[derive(Debug)]
pub struct PrinterPlan {
    pub name: String,
    pub id: String,
    pub model: Option<String>,
    /// It answers for the runs from before captures were kept by printer.
    pub legacy_captures: bool,
    /// It starts with the cameras that were given at launch.
    pub seeded_cameras: bool,
    pub source: SourceKind,
    /// Which of the targets it is; none where it is made up.
    pub target: Option<usize>,
}

/// All that is served.
#[derive(Debug)]
pub struct ServePlan {
    pub printers: Vec<PrinterPlan>,
    /// The printer that the unprefixed paths speak of.
    pub default: String,
    /// Nothing was configured, so made-up data is served.
    pub unasked_fake: bool,
}

// ── Targets that may not be served together ─────────────────────────────────

/// The first two of `keys` that are alike: `j` is the first that repeats one, and
/// `i` is what it repeats.
pub open spec fn first_repeat(keys: Seq<Seq<char>>, i: int, j: int) -> bool {
    &&& 0 <= i < j < keys.len()
    &&& keys[i] == keys[j]
    &&& all_differ(keys.take(j))
}

/// No two of `keys` are alike.
pub open spec fn all_differ(keys: Seq<Seq<char>>) -> bool {
    forall|i: int, j: int| 0 <= i < j < keys.len() ==> #[trigger] keys[i] != #[trigger] keys[j]
}

/// The first key that is repeated and where, if any.
fn find_repeat(keys: &Vec<String>) -> (r: Option<(usize, usize)>)
    ensures
        match r {
            Some((i, j)) => first_repeat(crate::text::texts(keys@), i as int, j as int),
            None => all_differ(crate::text::texts(keys@)),
        },
{
    let ghost ks = crate::text::texts(keys@);
    let mut j: usize = 0;
    while j < keys.len()
        invariant
            j <= keys@.len(),
            ks == crate::text::texts(keys@),
            all_differ(ks.take(j as int)),
        decreases keys@.len() - j,
    {
        let mut i: usize = 0;
        while i < j
            invariant
                i <= j < keys@.len(),
                ks == crate::text::texts(keys@),
                all_differ(ks.take(j as int)),
                forall|k: int| 0 <= k < i ==> #[trigger] ks[k] != ks[j as int],
            decreases j - i,
        {
            if same_text(keys[i].as_str(), keys[j].as_str()) {
                return Some((i, j));
            }
            proof {
                assert(ks[i as int] == keys@[i as int]@);
            }
            i += 1;
        }
        proof {
            let t = ks.take(j + 1);
            assert forall|a: int, b: int| 0 <= a < b < t.len() implies #[trigger] t[a]
                != #[trigger] t[b] by {
                if b < j {
                    assert(ks.take(j as int)[a] == t[a]);
                    assert(ks.take(j as int)[b] == t[b]);
                }
            }
        }
        j += 1;
    }
    proof {
        assert(ks.take(keys@.len() as int) =~= ks);
    }
    None
}

pub open spec fn serials(targets: Seq<ServeTarget>) -> Seq<Seq<char>> {
    targets.map_values(|t: ServeTarget| t.serial@)
}

pub open spec fn addresses(targets: Seq<ServeTarget>) -> Seq<Seq<char>> {
    targets.map_values(|t: ServeTarget| t.ip@)
}

/// What tells the targets' routes and directories apart, where the disk does not
/// tell case apart.
pub open spec fn id_keys(targets: Seq<ServeTarget>) -> Seq<Seq<char>> {
    targets.map_values(|t: ServeTarget| lower(derived_id(t.name@)))
}

pub open spec fn same_machine(a: ServeTarget, b: ServeTarget, what: Seq<char>, key: Seq<char>) -> Seq<
    char,
> {
    "profiles "@ + debug_text(a.name@) + " and "@ + debug_text(b.name@)
        + " are the same printer (same "@ + what + " "@ + key
        + "); serving both would open two connections to it, which on an A1 disconnects them both"@
}

pub open spec fn same_directory(a: ServeTarget, b: ServeTarget) -> Seq<char> {
    "profiles "@ + debug_text(a.name@) + " and "@ + debug_text(b.name@) + " are addressed as "@
        + debug_text(derived_id(a.name@)) + " and "@ + debug_text(derived_id(b.name@))
        + ", which name the same capture directory on a case-insensitive filesystem; rename one"@
}

pub open spec fn needs_a_printer() -> Seq<char> {
    "--emulate needs a printer to present: configure one, or pass --fake with --serial/--access-code to relay a synthetic one"@
}

pub open spec fn one_printer_only() -> Seq<char> {
    "--emulate serves one printer; run a second `bambu serve --printer <name> --emulate` bound to another address on this host (--emulate-host)"@
}

/// `why` is why these targets may not be served: with emulation there has to be
/// one printer; two profiles of one machine would disconnect each other; and two
/// that share a directory would mix their captures. The first that applies.
pub open spec fn unservable(targets: Seq<ServeTarget>, emulate: bool, why: Seq<char>) -> bool {
    if emulate && targets.len() == 0 {
        why == needs_a_printer()
    } else if emulate && targets.len() > 1 {
        why == one_printer_only()
    } else if !all_differ(serials(targets)) {
        exists|i: int, j: int| #[trigger]
            first_repeat(serials(targets), i, j) && why == same_machine(
                targets[i],
                targets[j],
                "serial"@,
                targets[j].serial@,
            )
    } else if !all_differ(addresses(targets)) {
        exists|i: int, j: int| #[trigger]
            first_repeat(addresses(targets), i, j) && why == same_machine(
                targets[i],
                targets[j],
                "address"@,
                targets[j].ip@,
            )
    } else {
        exists|i: int, j: int| #[trigger]
            first_repeat(id_keys(targets), i, j) && why == same_directory(targets[i], targets[j])
    }
}

/// These targets may be served.
pub open spec fn servable(targets: Seq<ServeTarget>, emulate: bool) -> bool {
    &&& emulate ==> targets.len() == 1
    &&& all_differ(serials(targets))
    &&& all_differ(addresses(targets))
    &&& all_differ(id_keys(targets))
}

fn same_machine_text(a: &ServeTarget, b: &ServeTarget, what: &str, key: &str) -> (r: String)
    ensures
        r@ == same_machine(*a, *b, what@, key@),
{
    let first = quoted(a.name.as_str());
    let second = quoted(b.name.as_str());
    let head = join5(
        "profiles ",
        first.as_str(),
        " and ",
        second.as_str(),
        " are the same printer (same ",
    );
    join5(
        head.as_str(),
        what,
        " ",
        key,
        "); serving both would open two connections to it, which on an A1 disconnects them both",
    )
}

fn same_directory_text(a: &ServeTarget, b: &ServeTarget) -> (r: String)
    ensures
        r@ == same_directory(*a, *b),
{
    let first = quoted(a.name.as_str());
    let second = quoted(b.name.as_str());
    let first_id = printer_id(a.name.as_str());
    let second_id = printer_id(b.name.as_str());
    let q1 = quoted(first_id.as_str());
    let q2 = quoted(second_id.as_str());
    let head = join5(
        "profiles ",
        first.as_str(),
        " and ",
        second.as_str(),
        " are addressed as ",
    );
    join5(
        head.as_str(),
        q1.as_str(),
        " and ",
        q2.as_str(),
        ", which name the same capture directory on a case-insensitive filesystem; rename one",
    )
}

/// Whether these targets may be served, and why not.
pub fn target_refusal(targets: &Vec<ServeTarget>, emulate: bool) -> (r: Option<String>)
    ensures
        match r {
            None => servable(targets@, emulate),
            Some(why) => !servable(targets@, emulate) && unservable(targets@, emulate, why@),
        },
{
    if emulate && targets.len() == 0 {
        return Some(
            "--emulate needs a printer to present: configure one, or pass --fake with --serial/--access-code to relay a synthetic one".to_owned(),
        );
    }
    if emulate && targets.len() > 1 {
        return Some(
            "--emulate serves one printer; run a second `bambu serve --printer <name> --emulate` bound to another address on this host (--emulate-host)".to_owned(),
        );
    }
    let mut by_serial: Vec<String> = Vec::new();
    let mut by_ip: Vec<String> = Vec::new();
    let mut by_id: Vec<String> = Vec::new();
    let mut i: usize = 0;
    while i < targets.len()
        invariant
            i <= targets@.len(),
            by_serial@.len() == i,
            by_ip@.len() == i,
            by_id@.len() == i,
            forall|k: int| 0 <= k < i ==> (#[trigger] by_serial@[k])@ == targets@[k].serial@,
            forall|k: int| 0 <= k < i ==> (#[trigger] by_ip@[k])@ == targets@[k].ip@,
            forall|k: int|
                0 <= k < i ==> (#[trigger] by_id@[k])@ == lower(derived_id(targets@[k].name@)),
        decreases targets@.len() - i,
    {
        by_serial.push(targets[i].serial.clone());
        by_ip.push(targets[i].ip.clone());
        let id = printer_id(targets[i].name.as_str());
        by_id.push(printer_id_key(id.as_str()));
        i += 1;
    }
    proof {
        assert(crate::text::texts(by_serial@) =~= serials(targets@));
        assert(crate::text::texts(by_ip@) =~= addresses(targets@));
        assert(crate::text::texts(by_id@) =~= id_keys(targets@));
    }
    if let Some((a, b)) = find_repeat(&by_serial) {
        proof {
            let ks = serials(targets@);
            assert(ks[a as int] == ks[b as int]);
        }
        return Some(
            same_machine_text(&targets[a], &targets[b], "serial", targets[b].serial.as_str()),
        );
    }
    if let Some((a, b)) = find_repeat(&by_ip) {
        proof {
            let ks = addresses(targets@);
            assert(ks[a as int] == ks[b as int]);
        }
        return Some(same_machine_text(&targets[a], &targets[b], "address", targets[b].ip.as_str()));
    }
    if let Some((a, b)) = find_repeat(&by_id) {
        proof {
            let ks = id_keys(targets@);
            assert(ks[a as int] == ks[b as int]);
        }
        return Some(same_directory_text(&targets[a], &targets[b]));
    }
    None
}

// ── The plan ────────────────────────────────────────────────────────────────

/// What the made-up printer is called.
pub open spec fn fake_name(targets: Seq<ServeTarget>) -> Seq<char> {
    if targets.len() > 0 {
        targets[0].name@
    } else {
        "fake"@
    }
}

/// `p` serves the made-up printer.
pub open spec fn plans_fake(p: PrinterPlan, targets: Seq<ServeTarget>, emulate: bool) -> bool {
    &&& p.name@ == fake_name(targets)
    &&& p.id@ == derived_id(fake_name(targets))
    &&& p.model is None
    &&& p.legacy_captures
    &&& p.seeded_cameras
    &&& p.source == (if emulate && targets.len() > 0 {
        SourceKind::Synthetic
    } else {
        SourceKind::Ramping
    })
    &&& p.target is None
}

/// `p` serves the target at `i`. The first is the default: it inherits the runs
/// from before captures were kept by printer, and the cameras given at launch.
pub open spec fn plans_live(p: PrinterPlan, targets: Seq<ServeTarget>, i: int) -> bool {
    &&& p.name@ == targets[i].name@
    &&& p.id@ == derived_id(targets[i].name@)
    &&& opt_text(p.model) == Some(targets[i].model@)
    &&& p.legacy_captures == (i == 0)
    &&& p.seeded_cameras == (i == 0)
    &&& p.source is Live
    &&& p.target == Some(i as usize)
}

/// `plan` serves these targets.
pub open spec fn serves(plan: ServePlan, targets: Seq<ServeTarget>, opts: ServeOpts) -> bool {
    if targets.len() == 0 || opts.fake {
        &&& plan.printers@.len() == 1
        &&& plans_fake(plan.printers@[0], targets, opts.emulate)
        &&& plan.default@ == plan.printers@[0].id@
        &&& plan.unasked_fake == !opts.fake
    } else {
        &&& plan.printers@.len() == targets.len()
        &&& forall|i: int|
            0 <= i < targets.len() ==> plans_live(#[trigger] plan.printers@[i], targets, i)
        &&& plan.default@ == plan.printers@[0].id@
        &&& !plan.unasked_fake
    }
}

/// What is served for these targets, or why they may not be.
pub fn serve_plan(targets: &Vec<ServeTarget>, opts: ServeOpts) -> (r: Result<ServePlan, String>)
    ensures
        match r {
            Ok(plan) => servable(targets@, opts.emulate) && serves(plan, targets@, opts),
            Err(why) => !servable(targets@, opts.emulate) && unservable(
                targets@,
                opts.emulate,
                why@,
            ),
        },
{
    if let Some(why) = target_refusal(targets, opts.emulate) {
        return Err(why);
    }
    let mut printers: Vec<PrinterPlan> = Vec::new();
    if targets.len() == 0 || opts.fake {
        let name = if targets.len() > 0 {
            targets[0].name.clone()
        } else {
            "fake".to_owned()
        };
        let id = printer_id(name.as_str());
        let default = id.clone();
        let source = if opts.emulate && targets.len() > 0 {
            SourceKind::Synthetic
        } else {
            SourceKind::Ramping
        };
        printers.push(
            PrinterPlan {
                name,
                id,
                model: None,
                legacy_captures: true,
                seeded_cameras: true,
                source,
                target: None,
            },
        );
        return Ok(ServePlan { printers, default, unasked_fake: !opts.fake });
    }
    let mut i: usize = 0;
    while i < targets.len()
        invariant
            i <= targets@.len(),
            printers@.len() == i,
            forall|k: int| 0 <= k < i ==> plans_live(#[trigger] printers@[k], targets@, k),
        decreases targets@.len() - i,
    {
        let name = targets[i].name.clone();
        let id = printer_id(name.as_str());
        printers.push(
            PrinterPlan {
                name,
                id,
                model: Some(targets[i].model.clone()),
                legacy_captures: i == 0,
                seeded_cameras: i == 0,
                source: SourceKind::Live,
                target: Some(i),
            },
        );
        i += 1;
    }
    let default = printers[0].id.clone();
    Ok(ServePlan { printers, default, unasked_fake: false })
}

/// A printer as the list of them shows it.
#[derive(Debug)]
pub struct PrinterInfo {
    pub name: String,
    pub id: String,
    pub model: Option<String>,
    /// The unprefixed paths speak of it.
    pub default: bool,
}

/// `i` tells of `p`.
pub open spec fn tells_of(i: PrinterInfo, p: PrinterPlan, default: Seq<char>) -> bool {
    &&& i.name@ == p.name@
    &&& i.id@ == p.id@
    &&& opt_text(i.model) == opt_text(p.model)
    &&& i.default == (p.id@ == default)
}

/// The printers that are served, in the order in which they are configured.
pub fn printers_list(plan: &ServePlan) -> (r: Vec<PrinterInfo>)
    ensures
        r@.len() == plan.printers@.len(),
        forall|i: int|
            0 <= i < r@.len() ==> tells_of(
                #[trigger] r@[i],
                plan.printers@[i],
                plan.default@,
            ),
{
    let mut out: Vec<PrinterInfo> = Vec::new();
    let mut i: usize = 0;
    while i < plan.printers.len()
        invariant
            i <= plan.printers@.len(),
            out@.len() == i,
            forall|k: int|
                0 <= k < i ==> tells_of(#[trigger] out@[k], plan.printers@[k], plan.default@),
        decreases plan.printers@.len() - i,
    {
        let p = &plan.printers[i];
        out.push(
            PrinterInfo {
                name: p.name.clone(),
                id: p.id.clone(),
                model: crate::text::copied(&p.model),
                default: same_text(p.id.as_str(), plan.default.as_str()),
            },
        );
        i += 1;
    }
    out
}

// ── What is said of it ──────────────────────────────────────────────────────

/// How often a printer is asked for its whole state, in milliseconds. Presented to
/// clients it is asked at least every 20 s: they are answered from what is kept,
/// and nothing else would mend a report that was lost.
pub fn refresh_interval(interval_ms: Option<u64>, emulate: bool) -> (r: Option<u64>)
    ensures
        r == (match interval_ms {
            Some(ms) => Some(ms),
            None => if emulate {
                Some(20_000u64)
            } else {
                None
            },
        }),
{
    match interval_ms {
        Some(ms) => Some(ms),
        None => if emulate {
            Some(20_000)
        } else {
            None
        },
    }
}

/// How often made-up data changes, in milliseconds.
pub fn fake_tick(interval_ms: Option<u64>) -> (r: u64)
    ensures
        r == (match interval_ms {
            Some(ms) => ms,
            None => 1000u64,
        }),
{
    match interval_ms {
        Some(ms) => ms,
        None => 1000,
    }
}

/// The warning on serving beyond this machine.
pub open spec fn exposure(host: Seq<char>, addr: Seq<char>, password: bool) -> Option<Seq<char>> {
    if loopback(host) {
        None
    } else if password {
        Some(
            "warning: serving on non-loopback "@ + addr
                + "; control requires the password, reads are open."@,
        )
    } else {
        Some(
            "warning: serving on non-loopback "@ + addr
                + " with no --password — control (pause/stop/light/speed) is OPEN to anyone who can reach this address."@,
        )
    }
}

pub fn exposure_warning(host: &str, addr: &str, password: bool) -> (r: Option<String>)
    ensures
        opt_text(r) == exposure(host@, addr@, password),
{
    if is_loopback(host) {
        None
    } else if password {
        Some(
            join3(
                "warning: serving on non-loopback ",
                addr,
                "; control requires the password, reads are open.",
            ),
        )
    } else {
        Some(
            join3(
                "warning: serving on non-loopback ",
                addr,
                " with no --password — control (pause/stop/light/speed) is OPEN to anyone who can reach this address.",
            ),
        )
    }
}

// ── Laws ────────────────────────────────────────────────────────────────────

/// No two printers that are served share a route or a capture directory, on any
/// disk; and the runs from before captures were kept by printer have one heir,
/// which is the default.
pub proof fn served_printers_never_meet(
    plan: ServePlan,
    targets: Seq<ServeTarget>,
    opts: ServeOpts,
    i: int,
    j: int,
)
    requires
        servable(targets, opts.emulate),
        serves(plan, targets, opts),
        0 <= i < j < plan.printers@.len(),
    ensures
        lower(plan.printers@[i].id@) != lower(plan.printers@[j].id@),
        !plan.printers@[j].legacy_captures,
        plan.printers@[0].legacy_captures,
        plan.default@ == plan.printers@[0].id@,
{
    assert(id_keys(targets)[i] != id_keys(targets)[j]);
}

/// No machine is connected to twice.
pub proof fn no_machine_is_served_twice(
    plan: ServePlan,
    targets: Seq<ServeTarget>,
    opts: ServeOpts,
    i: int,
    j: int,
)
    requires
        servable(targets, opts.emulate),
        serves(plan, targets, opts),
        0 <= i < j < plan.printers@.len(),
    ensures
        targets[i].serial@ != targets[j].serial@,
        targets[i].ip@ != targets[j].ip@,
{
    assert(serials(targets)[i] != serials(targets)[j]);
    assert(addresses(targets)[i] != addresses(targets)[j]);
}

/// A printer that is served is served as itself: under its own name, its own model and
/// the identifier of its name, from its own reports, in the order in which they are
/// configured. The cameras given at launch are the first one's.
pub proof fn a_printer_is_served_as_itself(
    plan: ServePlan,
    targets: Seq<ServeTarget>,
    opts: ServeOpts,
    i: int,
)
    requires
        serves(plan, targets, opts),
        !opts.fake,
        0 <= i < targets.len(),
        targets.len() <= usize::MAX,
    ensures
        plan.printers@.len() == targets.len(),
        plan.printers@[i].name@ == targets[i].name@,
        plan.printers@[i].id@ == derived_id(targets[i].name@),
        plan.printers@[i].model matches Some(m) && m@ == targets[i].model@,
        plan.printers@[i].source is Live,
        plan.printers@[i].target matches Some(t) && t == i,
        plan.printers@[i].seeded_cameras <==> i == 0,
        plan.printers@[i].legacy_captures <==> i == 0,
        plan.default@ == derived_id(targets[0].name@),
        !plan.unasked_fake,
{
    assert(plans_live(plan.printers@[i], targets, i));
    assert(plans_live(plan.printers@[0], targets, 0));
}

/// Made-up data is served where it was asked for, and where there is nothing else to
/// serve, which is said; it never stands for a printer that could be reached, and is
/// one printer that has the default paths.
pub proof fn made_up_data_is_told_as_such(
    plan: ServePlan,
    targets: Seq<ServeTarget>,
    opts: ServeOpts,
)
    requires
        serves(plan, targets, opts),
    ensures
        plan.unasked_fake <==> targets.len() == 0 && !opts.fake,
        opts.fake || targets.len() == 0 ==> plan.printers@.len() == 1 && !(
        plan.printers@[0].source is Live) && plan.printers@[0].target is None
            && plan.printers@[0].model is None && plan.default@ == plan.printers@[0].id@,
        opts.fake && opts.emulate && targets.len() > 0 ==> plan.printers@[0].source is Synthetic,
        opts.fake && !opts.emulate ==> plan.printers@[0].source is Ramping,
        opts.fake && targets.len() > 0 ==> plan.printers@[0].name@ == targets[0].name@,
{
}

/// Printers that differ in serial, address and directory are served together; to
/// clients on the LAN exactly one is presented.
pub proof fn printers_that_differ_are_served(targets: Seq<ServeTarget>, emulate: bool)
    requires
        forall|i: int, j: int|
            0 <= i < j < targets.len() ==> (#[trigger] targets[i]).serial@ != (
            #[trigger] targets[j]).serial@ && targets[i].ip@ != targets[j].ip@ && lower(
                derived_id(targets[i].name@),
            ) != lower(derived_id(targets[j].name@)),
    ensures
        servable(targets, emulate) <==> (emulate ==> targets.len() == 1),
{
    assert forall|i: int, j: int| 0 <= i < j < targets.len() implies #[trigger] serials(targets)[i]
        != #[trigger] serials(targets)[j] by {
        assert(targets[i].serial@ != targets[j].serial@);
    }
    assert forall|i: int, j: int| 0 <= i < j < targets.len() implies #[trigger] addresses(
        targets,
    )[i] != #[trigger] addresses(targets)[j] by {
        assert(targets[i].ip@ != targets[j].ip@);
    }
    assert forall|i: int, j: int| 0 <= i < j < targets.len() implies #[trigger] id_keys(targets)[i]
        != #[trigger] id_keys(targets)[j] by {
        assert(lower(derived_id(targets[i].name@)) != lower(derived_id(targets[j].name@)));
    }
}

/// A refusal for what two printers share names both of them, and they do share it.
pub proof fn a_refusal_names_the_two(targets: Seq<ServeTarget>, why: Seq<char>)
    requires
        unservable(targets, false, why),
    ensures
        exists|i: int, j: int|
            0 <= i < j < targets.len() && ((#[trigger] targets[i]).serial@ == (
            #[trigger] targets[j]).serial@ || targets[i].ip@ == targets[j].ip@ || lower(
                derived_id(targets[i].name@),
            ) == lower(derived_id(targets[j].name@))) && crate::text::has_text(
                why,
                "profiles "@ + debug_text(targets[i].name@) + " and "@ + debug_text(
                    targets[j].name@,
                ),
            ),
{
    let keys = if !all_differ(serials(targets)) {
        serials(targets)
    } else if !all_differ(addresses(targets)) {
        addresses(targets)
    } else {
        id_keys(targets)
    };
    let what = if !all_differ(serials(targets)) {
        "serial"@
    } else {
        "address"@
    };
    if !all_differ(serials(targets)) || !all_differ(addresses(targets)) {
        let (i, j) = choose|i: int, j: int| #[trigger]
            first_repeat(keys, i, j) && why == same_machine(
                targets[i],
                targets[j],
                what,
                if !all_differ(serials(targets)) {
                    targets[j].serial@
                } else {
                    targets[j].ip@
                },
            );
        let head = "profiles "@ + debug_text(targets[i].name@) + " and "@ + debug_text(
            targets[j].name@,
        );
        assert(why.subrange(0, head.len() as int) =~= head);
        assert(crate::text::text_at(why, head, 0));
        assert(keys[i] == keys[j]);
    } else {
        let (i, j) = choose|i: int, j: int| #[trigger]
            first_repeat(keys, i, j) && why == same_directory(targets[i], targets[j]);
        let head = "profiles "@ + debug_text(targets[i].name@) + " and "@ + debug_text(
            targets[j].name@,
        );
        assert(why.subrange(0, head.len() as int) =~= head);
        assert(crate::text::text_at(why, head, 0));
        assert(keys[i] == keys[j]);
    }
}

/// What is listed of a printer is its own, and exactly those with the default
/// identifier are the default.
pub proof fn a_printer_is_listed_as_itself(i: PrinterInfo, p: PrinterPlan, default: Seq<char>)
    requires
        tells_of(i, p, default),
    ensures
        i.name@ == p.name@,
        i.id@ == p.id@,
        i.model is Some <==> p.model is Some,
        p.model matches Some(m) ==> (i.model matches Some(n) && m@ == n@),
        i.default <==> p.id@ == default,
{
}

/// Serving beyond this machine is always warned of, with the address; and without a
/// password the warning is another than with one.
pub proof fn serving_beyond_this_machine_is_warned_of(
    host: Seq<char>,
    addr: Seq<char>,
    password: bool,
)
    ensures
        exposure(host, addr, password) is None <==> loopback(host),
        exposure(host, addr, password) matches Some(w) ==> crate::text::has_text(w, addr),
        !loopback(host) ==> crate::text::has_text(exposure(host, addr, false)->0, "OPEN"@),
        !loopback(host) ==> crate::text::has_text(
            exposure(host, addr, true)->0,
            "control requires the password"@,
        ),
{
    let a = "warning: serving on non-loopback "@;
    let b = "; control requires the password, reads are open."@;
    let c = " with no --password — control (pause/stop/light/speed) is OPEN to anyone who can reach this address."@;
    crate::text::lemma_stands_between(a, addr, b);
    crate::text::lemma_stands_between(a, addr, c);
    if !loopback(host) {
        reveal_strlit("OPEN");
        reveal_strlit("control requires the password");
        reveal_strlit("; control requires the password, reads are open.");
        reveal_strlit(" with no --password — control (pause/stop/light/speed) is OPEN to anyone who can reach this address.");
        let open = a + addr + c;
        let at = a.len() + addr.len() + 58;
        assert(open.subrange(at as int, at as int + 4) =~= "OPEN"@);
        assert(crate::text::text_at(open, "OPEN"@, at as int));
        let closed = a + addr + b;
        let from = a.len() + addr.len() + 2;
        let p = "control requires the password"@;
        assert(closed.subrange(from as int, (from + p.len()) as int) =~= p);
        assert(crate::text::text_at(closed, p, from as int));
    }
}

} // verus!
