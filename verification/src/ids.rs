//! The identifier a printer is addressed by: its route segment and the name of
//! its capture directory.
use vstd::prelude::*;

use crate::text::{
    before_first, char_is_alnum, chars_of, head_before, is_alnum, lemma_trimmed_ends,
    lemma_trimmed_fixed, lower, lower_char, same_text, to_lower, to_upper, trim, trimmed, upper,
    upper_char, Strip,
};

verus! {

/// The characters an identifier may hold.
pub open spec fn is_id_char(c: char) -> bool {
    is_alnum(c) || c == '-' || c == '_' || c == '.'
}

/// The part of a name before its first dot, in capitals.
pub open spec fn device_stem(s: Seq<char>) -> Seq<char> {
    upper(before_first(s, '.'))
}

/// `CON`, `PRN`, `AUX`, `NUL`, `COM`, `LPT`, and `COM`/`LPT` with a digit from
/// 1 to 9, in any case and whatever follows the first dot.
pub open spec fn windows_device_name(s: Seq<char>) -> bool {
    let stem = device_stem(s);
    ||| stem == "CON"@
    ||| stem == "PRN"@
    ||| stem == "AUX"@
    ||| stem == "NUL"@
    ||| stem == "COM"@
    ||| stem == "LPT"@
    ||| stem.len() == 4 && (stem.take(3) == "COM"@ || stem.take(3) == "LPT"@) && '1' <= stem[3]
        <= '9'
}

/// Usable as one URL path segment and as one directory name.
pub open spec fn safe_printer_id(s: Seq<char>) -> bool {
    &&& 0 < s.len() <= 64
    &&& s[0] != '.'
    &&& s.last() != '.'
    &&& !windows_device_name(s)
    &&& forall|i: int| 0 <= i < s.len() ==> is_id_char(#[trigger] s[i])
}

/// A name with every character that an identifier cannot hold turned into `-`.
pub open spec fn id_chars(name: Seq<char>) -> Seq<char> {
    name.map_values(|c: char| if is_id_char(c) { c } else { '-' })
}

pub open spec fn cut(s: Seq<char>, n: nat) -> Seq<char> {
    if s.len() <= n {
        s
    } else {
        s.take(n as int)
    }
}

/// A name mapped to identifier characters, trimmed of dashes and dots, and cut
/// to 64 characters that end in neither.
pub open spec fn id_candidate(name: Seq<char>) -> Seq<char> {
    trimmed(cut(trimmed(id_chars(name), Strip::DashDot), 64), Strip::DashDot)
}

/// The identifier derived from a printer's profile name.
pub open spec fn derived_id(name: Seq<char>) -> Seq<char> {
    let id = id_candidate(name);
    if safe_printer_id(id) {
        id
    } else if windows_device_name(id) && safe_printer_id(id.push('_')) {
        id.push('_')
    } else {
        "printer"@
    }
}

/// Whether Windows reserves this as a device rather than a name.
///
/// The reservation applies to the stem, so `CON.txt` is taken too.
pub fn is_windows_device_name(s: &str) -> (r: bool)
    ensures
        r == windows_device_name(s@),
{
    let head = head_before(s, '.');
    let stem = to_upper(head.as_str());
    let stem = stem.as_str();
    if same_text(stem, "CON") || same_text(stem, "PRN") || same_text(stem, "AUX") || same_text(
        stem,
        "NUL",
    ) || same_text(stem, "COM") || same_text(stem, "LPT") {
        return true;
    }
    let cs = chars_of(stem);
    if cs.len() != 4 {
        return false;
    }
    let front = stem.substring_char(0, 3);
    proof {
        assert(stem@.subrange(0, 3) =~= stem@.take(3));
    }
    (same_text(front, "COM") || same_text(front, "LPT")) && '1' <= cs[3] && cs[3] <= '9'
}

/// Safe to use as both one URL path segment and one directory name.
pub fn is_safe_printer_id(s: &str) -> (r: bool)
    ensures
        r == safe_printer_id(s@),
{
    let cs = chars_of(s);
    if cs.len() == 0 || cs.len() > 64 || cs[0] == '.' || cs[cs.len() - 1] == '.' {
        return false;
    }
    if is_windows_device_name(s) {
        return false;
    }
    let mut i: usize = 0;
    while i < cs.len()
        invariant
            i <= cs.len(),
            cs@ == s@,
            forall|j: int| 0 <= j < i ==> is_id_char(#[trigger] s@[j]),
        decreases cs.len() - i,
    {
        let c: char = cs[i];
        if !(char_is_alnum(c) || c == '-' || c == '_' || c == '.') {
            return false;
        }
        i += 1;
    }
    true
}

fn map_id_chars(name: &str) -> (r: String)
    ensures
        r@ == id_chars(name@),
{
    let cs = chars_of(name);
    let mut r: String = String::new();
    let mut i: usize = 0;
    while i < cs.len()
        invariant
            i <= cs.len(),
            cs@ == name@,
            r@ == id_chars(name@).take(i as int),
        decreases cs.len() - i,
    {
        let c: char = cs[i];
        if char_is_alnum(c) || c == '-' || c == '_' || c == '.' {
            r.push(c);
        } else {
            r.push('-');
        }
        i += 1;
        proof {
            assert(r@ =~= id_chars(name@).take(i as int));
        }
    }
    proof {
        assert(id_chars(name@).take(i as int) =~= id_chars(name@));
    }
    r
}

/// The identifier a printer is addressed by, derived from its profile name.
///
/// An ordinary name passes through unchanged. The result is safe because it is
/// checked: a reserved device name gets an underscore, and where nothing usable
/// survives the identifier is `printer`.
pub fn printer_id(name: &str) -> (r: String)
    ensures
        r@ == derived_id(name@),
        safe_printer_id(r@),
{
    let mapped = map_id_chars(name);
    let first = trim(mapped.as_str(), Strip::DashDot);
    let cs = chars_of(first.as_str());
    let short: String = if cs.len() <= 64 {
        first
    } else {
        let t = first.as_str().substring_char(0, 64).to_owned();
        proof {
            assert(t@ =~= first@.take(64));
        }
        t
    };
    let id = trim(short.as_str(), Strip::DashDot);
    proof {
        derived_id_is_safe(name@);
    }
    if is_safe_printer_id(id.as_str()) {
        return id;
    }
    if is_windows_device_name(id.as_str()) {
        let mut escaped = id.clone();
        escaped.push('_');
        if is_safe_printer_id(escaped.as_str()) {
            return escaped;
        }
    }
    "printer".to_owned()
}

/// The key two identifiers must not share: on some systems `captures/A1` and
/// `captures/a1` are one directory.
pub fn printer_id_key(id: &str) -> (r: String)
    ensures
        r@ == lower(id@),
{
    to_lower(id)
}

// ── Laws ────────────────────────────────────────────────────────────────────

/// No profile name can produce an unsafe identifier.
pub proof fn derived_id_is_safe(name: Seq<char>)
    ensures
        safe_printer_id(derived_id(name)),
{
    reveal_strlit("printer");
    reveal_strlit("CON");
    reveal_strlit("PRN");
    reveal_strlit("AUX");
    reveal_strlit("NUL");
    reveal_strlit("COM");
    reveal_strlit("LPT");
    let p = "printer"@;
    crate::text::lemma_before_first(p, '.', 7);
    assert(p.take(7) =~= p);
    assert(device_stem(p).len() == 7);
}

/// A name that is already safe, and neither begins nor ends with a dash, is its
/// own identifier.
pub proof fn an_ordinary_name_is_its_own_id(name: Seq<char>)
    requires
        safe_printer_id(name),
        name[0] != '-',
        name.last() != '-',
    ensures
        derived_id(name) == name,
{
    assert(id_chars(name) =~= name) by {
        assert forall|i: int| 0 <= i < name.len() implies id_chars(name)[i] == name[i] by {
            assert(is_id_char(name[i]));
        }
    }
    lemma_trimmed_fixed(name, Strip::DashDot);
}

/// Deriving an identifier from an identifier changes nothing.
pub proof fn deriving_twice_is_deriving_once(name: Seq<char>)
    ensures
        derived_id(derived_id(name)) == derived_id(name),
{
    derived_id_is_safe(name);
    reveal_strlit("printer");
    let c = cut(trimmed(id_chars(name), Strip::DashDot), 64);
    lemma_trimmed_ends(c, Strip::DashDot);
    let id = id_candidate(name);
    if windows_device_name(id) && safe_printer_id(id.push('_')) && !safe_printer_id(id) {
        if id.len() == 0 {
            assert(id.push('_')[0] == '_');
        } else {
            assert(id.push('_')[0] == id[0]);
        }
    }
    an_ordinary_name_is_its_own_id(derived_id(name));
}

/// A safe identifier holds nothing that a path or a route gives a meaning to,
/// and is no traversal.
pub proof fn a_safe_id_is_one_plain_segment(id: Seq<char>)
    requires
        safe_printer_id(id),
    ensures
        !id.contains('/'),
        !id.contains('\\'),
        !id.contains(':'),
        !id.contains('{'),
        !id.contains('}'),
        !id.contains('*'),
        id != "."@,
        id != ".."@,
        crate::paths::safe_segment(id),
{
    reveal_strlit(".");
    reveal_strlit("..");
    assert forall|i: int| 0 <= i < id.len() implies is_id_char(#[trigger] id[i]) by {}
    vstd::utf8::is_ascii_chars_encode_utf8(id);
    assert(vstd::utf8::is_ascii_chars(id)) by {
        assert forall|i: int| 0 <= i < id.len() implies (#[trigger] id[i]) as nat <= 127 by {
            assert(is_id_char(id[i]));
        }
    }
}

/// Identifiers share one key exactly where they differ only in the case of their
/// letters.
pub proof fn ids_that_differ_in_case_share_a_key(a: Seq<char>, b: Seq<char>)
    ensures
        lower(a) == lower(b) <==> upper(a) == upper(b),
{
    assert(a.len() == upper(a).len() && b.len() == upper(b).len());
    assert(a.len() == lower(a).len() && b.len() == lower(b).len());
    if upper(a) == upper(b) {
        assert forall|i: int| 0 <= i < a.len() implies lower(a)[i] == lower(b)[i] by {
            assert(upper(a)[i] == upper_char(a[i]));
            assert(upper(b)[i] == upper_char(b[i]));
            lemma_case(a[i], b[i]);
        }
        assert(lower(a) =~= lower(b));
    }
    if lower(a) == lower(b) {
        assert forall|i: int| 0 <= i < a.len() implies upper(a)[i] == upper(b)[i] by {
            assert(lower(a)[i] == lower_char(a[i]));
            assert(lower(b)[i] == lower_char(b[i]));
            lemma_case(a[i], b[i]);
        }
        assert(upper(a) =~= upper(b));
    }
}

proof fn lemma_case(a: char, b: char)
    ensures
        upper_char(a) == upper_char(b) <==> lower_char(a) == lower_char(b),
{
}

/// The key of a key is that key.
pub proof fn a_key_is_its_own_key(id: Seq<char>)
    ensures
        lower(lower(id)) == lower(id),
{
    assert(lower(lower(id)) =~= lower(id));
}

} // verus!
