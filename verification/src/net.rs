//! Addresses and ports: reading them, showing them, and choosing the one that
//! clients are told.
use vstd::prelude::*;

use crate::auth::{split_at_first, split_once};
use crate::number::{all_digits, decimal, digits, digits_read_back, parse_up_to, parsed};
use crate::text::{
    contains_char, debug_text, join2, join3, join4, join5, lemma_before_first, quoted, same_text,
    starts_with, trim, trimmed, Strip,
};

verus! {

/// A port as it is read off a text, with space around it.
pub open spec fn port_in(s: Seq<char>) -> Option<nat> {
    parsed(trimmed(s, Strip::Space), 65535)
}

/// A range of passive ports as it is read off a text: `first-last`, or why it is
/// none.
pub open spec fn pasv_range(spec_text: Seq<char>) -> Result<(nat, nat), Seq<char>> {
    match split_at_first(spec_text, '-') {
        None => Err(
            "passive port range must look like 50000-50100, got "@ + debug_text(spec_text),
        ),
        Some((a, b)) => match port_in(a) {
            None => Err(debug_text(a) + " is not a port number"@),
            Some(first) => match port_in(b) {
                None => Err(debug_text(b) + " is not a port number"@),
                Some(last) => if first == 0 || last < first {
                    Err(
                        "passive port range "@ + digits(first) + "-"@ + digits(last)
                            + " is empty or starts at zero"@,
                    )
                } else {
                    Ok((first, last))
                },
            },
        },
    }
}

fn parse_port(s: &str) -> (r: Result<u16, String>)
    ensures
        match r {
            Ok(p) => port_in(s@) == Some(p as nat),
            Err(e) => port_in(s@) is None && e@ == debug_text(s@) + " is not a port number"@,
        },
{
    let t = trim(s, Strip::Space);
    match parse_up_to(t.as_str(), 65535) {
        Some(n) => Ok(n as u16),
        None => {
            let q = quoted(s);
            Err(join2(q.as_str(), " is not a port number"))
        },
    }
}

/// Parse a range of passive ports: its first and its last. Whoever gives one is
/// working round a firewall, so a slip is an error and not passed over.
pub fn parse_pasv_ports(spec_text: &str) -> (r: Result<(u16, u16), String>)
    ensures
        match pasv_range(spec_text@) {
            Ok((first, last)) => r matches Ok(p) && p.0 == first && p.1 == last,
            Err(e) => r matches Err(x) && x@ == e,
        },
{
    let (a, b) = match split_once(spec_text, '-') {
        Some(p) => p,
        None => {
            let q = quoted(spec_text);
            return Err(join2("passive port range must look like 50000-50100, got ", q.as_str()));
        },
    };
    let first: u16 = match parse_port(a.as_str()) {
        Ok(p) => p,
        Err(e) => {
            return Err(e);
        },
    };
    let last: u16 = match parse_port(b.as_str()) {
        Ok(p) => p,
        Err(e) => {
            return Err(e);
        },
    };
    if first == 0 || last < first {
        let f = decimal(first as u64);
        let l = decimal(last as u64);
        return Err(
            join5(
                "passive port range ",
                f.as_str(),
                "-",
                l.as_str(),
                " is empty or starts at zero",
            ),
        );
    }
    Ok((first, last))
}

/// A range that was read holds at least one port, and not port zero.
pub proof fn a_range_holds_a_port(spec_text: Seq<char>)
    ensures
        pasv_range(spec_text) matches Ok((first, last)) ==> 0 < first <= last <= 65535,
{
}

/// A host and a port for a reader: an IPv6 address in brackets.
pub open spec fn shown_addr(host: Seq<char>, port: u16) -> Seq<char> {
    if host.contains(':') {
        "["@ + host + "]:"@ + digits(port as nat)
    } else {
        host + ":"@ + digits(port as nat)
    }
}

pub fn show_addr(host: &str, port: u16) -> (r: String)
    ensures
        r@ == shown_addr(host@, port),
{
    let p = decimal(port as u64);
    if contains_char(host, ':') {
        join4("[", host, "]:", p.as_str())
    } else {
        join3(host, ":", p.as_str())
    }
}

/// A host that only this machine can reach.
pub open spec fn loopback(host: Seq<char>) -> bool {
    "127."@.is_prefix_of(host) || host == "localhost"@ || host == "::1"@
}

pub fn is_loopback(host: &str) -> (r: bool)
    ensures
        r == loopback(host@),
{
    starts_with(host, "127.") || same_text(host, "localhost") || same_text(host, "::1")
}

// ── IPv4 ────────────────────────────────────────────────────────────────────

/// An address as it is written.
pub open spec fn quad_text(a: u8, b: u8, c: u8, d: u8) -> Seq<char> {
    digits(a as nat) + "."@ + digits(b as nat) + "."@ + digits(c as nat) + "."@ + digits(d as nat)
}

/// How an address is written.
pub fn show_quad(q: (u8, u8, u8, u8)) -> (r: String)
    ensures
        r@ == quad_text(q.0, q.1, q.2, q.3),
{
    let a = decimal(q.0 as u64);
    let b = decimal(q.1 as u64);
    let c = decimal(q.2 as u64);
    let d = decimal(q.3 as u64);
    let ab = join4(a.as_str(), ".", b.as_str(), ".");
    let abc = join3(ab.as_str(), c.as_str(), ".");
    join2(abc.as_str(), d.as_str())
}

proof fn lemma_digits_have_no_dot(n: nat, j: int)
    requires
        0 <= j < digits(n).len(),
    ensures
        digits(n)[j] != '.',
{
    digits_read_back(n);
}

/// A number before a dot is what stands before the first dot.
proof fn lemma_head_number(s: Seq<char>, n: nat, rest: Seq<char>)
    requires
        s == digits(n) + "."@ + rest,
    ensures
        split_at_first(s, '.') == Some((digits(n), rest)),
{
    reveal_strlit(".");
    let k = digits(n).len() as int;
    assert forall|j: int| 0 <= j < k implies s[j] != '.' by {
        assert(s[j] == digits(n)[j]);
        lemma_digits_have_no_dot(n, j);
    }
    assert(s[k] == '.');
    assert(s.contains('.'));
    lemma_before_first(s, '.', k);
    assert(s.take(k) =~= digits(n));
    assert(s.skip(k + 1) =~= rest);
}

proof fn lemma_byte_reads_back(n: u8)
    ensures
        parsed(digits(n as nat), 255) == Some(n as nat),
{
    digits_read_back(n as nat);
    let s = digits(n as nat);
    assert(s[0] != '+') by {
        assert(all_digits(s));
    }
}

/// The address that a text is, in dotted decimals without leading zeros.
pub fn parse_ipv4(s: &str) -> (r: Option<(u8, u8, u8, u8)>)
    ensures
        match r {
            Some(q) => s@ == quad_text(q.0, q.1, q.2, q.3),
            None => forall|a: u8, b: u8, c: u8, d: u8| s@ != #[trigger] quad_text(a, b, c, d),
        },
{
    let r = parse_quad(s);
    proof {
        if r is None {
            assert forall|a: u8, b: u8, c: u8, d: u8| s@ != #[trigger] quad_text(a, b, c, d) by {
                if s@ == quad_text(a, b, c, d) {
                    lemma_quad(s@, a, b, c, d);
                }
            }
        }
    }
    r
}

/// The four numbers of a text in four parts.
pub open spec fn quad_parts(s: Seq<char>) -> Option<(nat, nat, nat, nat)> {
    match split_at_first(s, '.') {
        Some((a, r1)) => match split_at_first(r1, '.') {
            Some((b, r2)) => match split_at_first(r2, '.') {
                Some((c, d)) => match (
                    parsed(a, 255),
                    parsed(b, 255),
                    parsed(c, 255),
                    parsed(d, 255),
                ) {
                    (Some(w), Some(x), Some(y), Some(z)) => Some((w, x, y, z)),
                    _ => None,
                },
                None => None,
            },
            None => None,
        },
        None => None,
    }
}

proof fn lemma_quad(s: Seq<char>, a: u8, b: u8, c: u8, d: u8)
    requires
        s == quad_text(a, b, c, d),
    ensures
        quad_parts(s) == Some((a as nat, b as nat, c as nat, d as nat)),
{
    let r2 = digits(c as nat) + "."@ + digits(d as nat);
    let r1 = digits(b as nat) + "."@ + r2;
    assert(s =~= digits(a as nat) + "."@ + r1);
    lemma_head_number(s, a as nat, r1);
    lemma_head_number(r1, b as nat, r2);
    lemma_head_number(r2, c as nat, digits(d as nat));
    lemma_byte_reads_back(a);
    lemma_byte_reads_back(b);
    lemma_byte_reads_back(c);
    lemma_byte_reads_back(d);
}

fn parse_quad(s: &str) -> (r: Option<(u8, u8, u8, u8)>)
    ensures
        match r {
            Some(q) => s@ == quad_text(q.0, q.1, q.2, q.3),
            None => match quad_parts(s@) {
                Some((a, b, c, d)) => s@ != quad_text(a as u8, b as u8, c as u8, d as u8),
                None => true,
            },
        },
{
    let (a, r1) = match split_once(s, '.') {
        Some(p) => p,
        None => {
            return None;
        },
    };
    let (b, r2) = match split_once(r1.as_str(), '.') {
        Some(p) => p,
        None => {
            return None;
        },
    };
    let (c, d) = match split_once(r2.as_str(), '.') {
        Some(p) => p,
        None => {
            return None;
        },
    };
    match (
        parse_up_to(a.as_str(), 255),
        parse_up_to(b.as_str(), 255),
        parse_up_to(c.as_str(), 255),
        parse_up_to(d.as_str(), 255),
    ) {
        (Some(w), Some(x), Some(y), Some(z)) => {
            let q: (u8, u8, u8, u8) = (w as u8, x as u8, y as u8, z as u8);
            let shown = show_quad(q);
            if same_text(shown.as_str(), s) {
                Some(q)
            } else {
                None
            }
        },
        _ => None,
    }
}

/// The host names an address that clients can use.
pub open spec fn names_address(host: Seq<char>, q: (u8, u8, u8, u8)) -> bool {
    host == quad_text(q.0, q.1, q.2, q.3) && q != (0u8, 0u8, 0u8, 0u8)
}

pub open spec fn names_none(host: Seq<char>) -> Seq<char> {
    "--emulate-host "@ + host
        + " does not name an address clients can use, and the printer's report tells them where to find it — without --emulate-advertise <IP> they would take the camera and file transfers straight to the printer, past this relay"@
}

/// The address to tell clients the printer is at: the one that was given, or the
/// host where it names one. `0.0.0.0` names none, and no guess is made for it.
pub fn advertised_address(advertise: Option<(u8, u8, u8, u8)>, host: &str) -> (r: Result<
    (u8, u8, u8, u8),
    String,
>)
    ensures
        match advertise {
            Some(q) => r == Ok::<(u8, u8, u8, u8), String>(q),
            None => match r {
                Ok(q) => names_address(host@, q),
                Err(e) => e@ == names_none(host@) && forall|q: (u8, u8, u8, u8)|
                    !#[trigger] names_address(host@, q),
            },
        },
{
    if let Some(q) = advertise {
        return Ok(q);
    }
    let found = parse_ipv4(host);
    if let Some(q) = found {
        if !(q.0 == 0 && q.1 == 0 && q.2 == 0 && q.3 == 0) {
            return Ok(q);
        }
    }
    proof {
        assert forall|q: (u8, u8, u8, u8)| !#[trigger] names_address(host@, q) by {
            if names_address(host@, q) {
                lemma_quad(host@, q.0, q.1, q.2, q.3);
                if found is Some {
                    let z = found->0;
                    lemma_quad(host@, z.0, z.1, z.2, z.3);
                }
            }
        }
    }
    Err(
        join3(
            "--emulate-host ",
            host,
            " does not name an address clients can use, and the printer's report tells them where to find it — without --emulate-advertise <IP> they would take the camera and file transfers straight to the printer, past this relay",
        ),
    )
}

proof fn lemma_port_reads_back(n: nat)
    requires
        n <= 65535,
    ensures
        port_in(digits(n)) == Some(n),
{
    digits_read_back(n);
    let s = digits(n);
    assert(crate::text::is_digit(s[0]));
    assert(crate::text::is_digit(s[s.len() - 1]));
    crate::text::lemma_trimmed_fixed(s, Strip::Space);
}

/// A range of ports is read as it is written, where it holds any: from its first to
/// its last.
pub proof fn a_range_is_read_as_written(first: nat, last: nat)
    requires
        first <= 65535,
        last <= 65535,
    ensures
        0 < first <= last ==> pasv_range(digits(first) + "-"@ + digits(last)) == Ok::<
            (nat, nat),
            Seq<char>,
        >((first, last)),
        first == 0 || last < first ==> pasv_range(digits(first) + "-"@ + digits(last)) is Err,
{
    reveal_strlit("-");
    let s = digits(first) + "-"@ + digits(last);
    let k = digits(first).len() as int;
    digits_read_back(first);
    assert forall|j: int| 0 <= j < k implies s[j] != '-' by {
        assert(s[j] == digits(first)[j]);
        assert(crate::text::is_digit(digits(first)[j]));
    }
    assert(s[k] == '-');
    assert(s.contains('-'));
    lemma_before_first(s, '-', k);
    assert(s.take(k) =~= digits(first));
    assert(s.skip(k + 1) =~= digits(last));
    lemma_port_reads_back(first);
    lemma_port_reads_back(last);
}

/// An address names its host and its port, and the host stands in brackets exactly
/// where a colon in it could be taken for the one before the port.
pub proof fn an_address_names_its_port(host: Seq<char>, port: u16)
    ensures
        (seq![':'] + digits(port as nat)).is_suffix_of(shown_addr(host, port)),
        !host.contains(':') ==> host.is_prefix_of(shown_addr(host, port)) && shown_addr(
            host,
            port,
        ).len() == host.len() + 1 + digits(port as nat).len(),
        host.contains(':') ==> (seq!['['] + host + seq![']']).is_prefix_of(
            shown_addr(host, port),
        ),
{
    reveal_strlit("[");
    reveal_strlit("]:");
    reveal_strlit(":");
    let s = shown_addr(host, port);
    let d = seq![':'] + digits(port as nat);
    assert(s.subrange(s.len() - d.len(), s.len() as int) =~= d);
    if host.contains(':') {
        let b = seq!['['] + host + seq![']'];
        assert(s.subrange(0, b.len() as int) =~= b);
    } else {
        assert(s.subrange(0, host.len() as int) =~= host);
    }
}

/// Only this machine reaches the addresses that begin with 127, `localhost` and `::1`,
/// and those it does.
pub proof fn only_local_hosts_are_loopback(host: Seq<char>, a: u8, b: u8, c: u8, d: u8)
    ensures
        loopback(host) ==> (host.len() >= 4 && host[0] == '1' && host[1] == '2' && host[2] == '7'
            && host[3] == '.') || host == "localhost"@ || host == "::1"@,
        loopback("localhost"@),
        loopback("::1"@),
        host.len() >= 4 && host[0] == '1' && host[1] == '2' && host[2] == '7' && host[3] == '.'
            ==> loopback(host),
        !loopback(quad_text(0, b, c, d)),
{
    reveal_strlit("127.");
    reveal_strlit("localhost");
    reveal_strlit("::1");
    if "127."@.is_prefix_of(host) {
        assert("127."@[0] == host[0] && "127."@[1] == host[1] && "127."@[2] == host[2] && "127."@[3]
            == host[3]);
    }
    if host.len() >= 4 && host[0] == '1' && host[1] == '2' && host[2] == '7' && host[3] == '.' {
        assert("127."@ =~= host.subrange(0, 4));
    }
    let z = quad_text(0, b, c, d);
    digits_read_back(0);
    assert(digits(0)[0] == '0');
    assert(z[0] == digits(0)[0]);
    if "127."@.is_prefix_of(z) {
        assert("127."@[0] == z[0]);
    }
    assert("localhost"@[0] == 'l' && "::1"@[0] == ':');
}

} // verus!
