//! Paths: on the printer, and under the directory that captures are kept in.
use vstd::prelude::*;
use vstd::utf8::encode_utf8;

use crate::ids::safe_printer_id;
use crate::number::{decimal, digits, parse_up_to, parsed};
use crate::text::{
    after_last, before_first, char_is_alnum, chars_of, contains_char, contains_text, has_text,
    head_before, is_alnum, join2, join3, join5, lemma_trimmed_ends, same_text, tail_after,
    text_at, trim, trim_back, trim_end, trimmed, Strip,
};

verus! {

// ── On the printer ──────────────────────────────────────────────────────────

/// An absolute path on the printer: no traversal, no scheme.
pub open spec fn safe_remote_path(p: Seq<char>) -> bool {
    &&& p.len() > 1
    &&& p[0] == '/'
    &&& !has_text(p, ".."@)
    &&& !has_text(p, "//"@)
    &&& !p.contains('\\')
    &&& !p.contains(':')
}

/// A single file name.
pub open spec fn safe_file_name(name: Seq<char>) -> bool {
    &&& name.len() > 0
    &&& !name.contains('/')
    &&& !name.contains('\\')
    &&& !has_text(name, ".."@)
}

/// A directory to upload into: the root, or a safe path.
pub open spec fn safe_upload_dir(dir: Seq<char>) -> bool {
    dir == "/"@ || safe_remote_path(dir)
}

/// The path of `name` in `dir`.
pub open spec fn remote_path(dir: Seq<char>, name: Seq<char>) -> Seq<char> {
    trim_back(dir, Strip::Slash) + "/"@ + name
}

/// `name` as a path from the root.
pub open spec fn rooted(name: Seq<char>) -> Seq<char> {
    if name.len() > 0 && name[0] == '/' {
        name
    } else {
        "/"@ + name
    }
}

/// A safe absolute path on the printer.
pub fn is_safe_remote_path(p: &str) -> (r: bool)
    ensures
        r == safe_remote_path(p@),
{
    let cs = chars_of(p);
    cs.len() > 1 && cs[0] == '/' && !contains_text(p, "..") && !contains_text(p, "//")
        && !contains_char(p, '\\') && !contains_char(p, ':')
}

pub fn is_safe_file_name(name: &str) -> (r: bool)
    ensures
        r == safe_file_name(name@),
{
    !name.is_empty() && !contains_char(name, '/') && !contains_char(name, '\\') && !contains_text(
        name,
        "..",
    )
}

pub fn is_safe_upload_dir(dir: &str) -> (r: bool)
    ensures
        r == safe_upload_dir(dir@),
{
    same_text(dir, "/") || is_safe_remote_path(dir)
}

/// The path of `name` in `dir` on the printer.
pub fn remote_in(dir: &str, name: &str) -> (r: String)
    ensures
        r@ == remote_path(dir@, name@),
{
    let d = trim_end(dir, Strip::Slash);
    join3(d.as_str(), "/", name)
}

/// `name` as a path from the printer's root.
pub fn from_root(name: &str) -> (r: String)
    ensures
        r@ == rooted(name@),
{
    let cs = chars_of(name);
    if cs.len() > 0 && cs[0] == '/' {
        name.to_owned()
    } else {
        join2("/", name)
    }
}

// ── Captures ────────────────────────────────────────────────────────────────

/// One path segment: no traversal, no separators, no leading dot, and no more
/// than 128 bytes.
pub open spec fn safe_segment(s: Seq<char>) -> bool {
    &&& s.len() > 0
    &&& encode_utf8(s).len() <= 128
    &&& s[0] != '.'
    &&& !s.contains('/')
    &&& !s.contains('\\')
}

/// A path segment that is safe to join under the captures root.
pub fn is_safe_segment(s: &str) -> (r: bool)
    ensures
        r == safe_segment(s@),
{
    let cs = chars_of(s);
    let bytes: usize = s.as_bytes().len();
    cs.len() > 0 && bytes <= 128 && cs[0] != '.' && !contains_char(s, '/') && !contains_char(
        s,
        '\\',
    )
}

/// The characters kept in a run's name.
pub open spec fn is_hint_char(c: char) -> bool {
    is_alnum(c) || c == '-' || c == '_'
}

pub open spec fn hint_chars(s: Seq<char>) -> Seq<char> {
    s.map_values(|c: char| if is_hint_char(c) { c } else { '_' })
}

/// A print's name made fit for a directory: other characters turned into `_`,
/// cut to 40, trimmed of `_`; `print` where nothing is left.
pub open spec fn hint_of(s: Seq<char>) -> Seq<char> {
    let t = trimmed(crate::ids::cut(hint_chars(s), 40), Strip::Underscore);
    if t.len() == 0 {
        "print"@
    } else {
        t
    }
}

/// A print's name made fit for the suffix of a run's directory.
pub fn sanitize_hint(s: &str) -> (r: String)
    ensures
        r@ == hint_of(s@),
{
    let cs = chars_of(s);
    let mut cleaned: String = String::new();
    let mut i: usize = 0;
    while i < cs.len() && i < 40
        invariant
            i <= cs.len(),
            i <= 40,
            cs@ == s@,
            cleaned@ == hint_chars(s@).take(i as int),
        decreases cs.len() - i,
    {
        let c: char = cs[i];
        if char_is_alnum(c) || c == '-' || c == '_' {
            cleaned.push(c);
        } else {
            cleaned.push('_');
        }
        i += 1;
        proof {
            assert(cleaned@ =~= hint_chars(s@).take(i as int));
        }
    }
    proof {
        assert(cleaned@ =~= crate::ids::cut(hint_chars(s@), 40));
    }
    let t = trim(cleaned.as_str(), Strip::Underscore);
    if t.as_str().is_empty() {
        "print".to_owned()
    } else {
        t
    }
}

/// The directory of one printer's captures.
pub open spec fn captures_dir(id: Seq<char>) -> Seq<char> {
    "captures/"@ + id
}

/// Where a printer's capture runs are kept: a directory of its own, so that two
/// printers never write into one run or list each other's.
pub fn captures_root(id: &str) -> (r: String)
    ensures
        r@ == captures_dir(id@),
{
    join2("captures/", id)
}

/// Where runs were kept before each printer had a directory of its own. They
/// are still listed for one printer; nothing new is written there.
pub fn legacy_captures_root() -> (r: String)
    ensures
        r@ == "captures"@,
{
    "captures".to_owned()
}

/// The directory of one run of a printer.
pub open spec fn run_dir(id: Seq<char>, run: Seq<char>) -> Seq<char> {
    captures_dir(id) + "/"@ + run
}

/// Where to look for a run: in the printer's own directory where it is there, or
/// where the printer does not own the older runs; else among those.
pub fn capture_run_dir(id: &str, legacy_captures: bool, run: &str, own_exists: bool) -> (r: String)
    ensures
        r@ == if own_exists || !legacy_captures {
            run_dir(id@, run@)
        } else {
            "captures"@ + "/"@ + run@
        },
{
    if own_exists || !legacy_captures {
        let root = captures_root(id);
        join3(root.as_str(), "/", run)
    } else {
        let root = legacy_captures_root();
        join3(root.as_str(), "/", run)
    }
}

/// The directory a new run is written to, one for each mode: the second it
/// started, the print's name made fit, and the mode.
pub open spec fn run_out_path(
    id: Seq<char>,
    epoch: u64,
    subtask_name: Option<Seq<char>>,
    mode: Seq<char>,
) -> Seq<char> {
    let name = match subtask_name {
        Some(s) => s,
        None => "print"@,
    };
    run_dir(id, digits(epoch as nat) + "_"@ + hint_of(name) + "_"@ + mode)
}

/// The directory a new run is written to.
pub fn run_out_dir(id: &str, epoch: u64, subtask_name: &Option<String>, mode: &str) -> (r: String)
    ensures
        r@ == run_out_path(id@, epoch, crate::text::opt_text(*subtask_name), mode@),
{
    let hint = match subtask_name {
        Some(s) => sanitize_hint(s.as_str()),
        None => sanitize_hint("print"),
    };
    let e = decimal(epoch);
    let run = join5(e.as_str(), "_", hint.as_str(), "_", mode);
    let root = captures_root(id);
    join3(root.as_str(), "/", run.as_str())
}

/// A path without the separators and the `.` components at its end.
pub open spec fn without_trailing_dots(s: Seq<char>) -> Seq<char>
    decreases s.len(),
{
    if s.len() > 0 && s.last() == '/' {
        without_trailing_dots(s.drop_last())
    } else if s.len() > 1 && s.last() == '.' && s[s.len() - 2] == '/' {
        without_trailing_dots(s.drop_last().drop_last())
    } else {
        s
    }
}

/// The last component of a path.
pub open spec fn last_component(s: Seq<char>) -> Seq<char> {
    after_last(without_trailing_dots(s), '/')
}

/// The second a run started, read off its directory's name; 0 where there is
/// none to read.
pub open spec fn epoch_of(dir: Seq<char>) -> u64 {
    match parsed(before_first(last_component(dir), '_'), u64::MAX as nat) {
        Some(n) => n as u64,
        None => 0,
    }
}

pub fn strip_trailing_dots(s: &str) -> (r: String)
    ensures
        r@ == without_trailing_dots(s@),
{
    let cs = chars_of(s);
    let mut e: usize = cs.len();
    proof {
        assert(s@.take(e as int) =~= s@);
    }
    while e > 0 && (cs[e - 1] == '/' || (e > 1 && cs[e - 1] == '.' && cs[e - 2] == '/'))
        invariant
            e <= cs.len(),
            cs@ == s@,
            without_trailing_dots(s@.take(e as int)) == without_trailing_dots(s@),
        decreases e,
    {
        let ghost t = s@.take(e as int);
        proof {
            assert(t.last() == s@[e - 1]);
        }
        if cs[e - 1] == '/' {
            e -= 1;
            proof {
                assert(t.drop_last() =~= s@.take(e as int));
            }
        } else {
            e -= 2;
            proof {
                assert(t.drop_last().drop_last() =~= s@.take(e as int));
            }
        }
    }
    proof {
        assert(s@.take(e as int) =~= s@.subrange(0, e as int));
        let t = s@.take(e as int);
        assert(without_trailing_dots(t) == t);
    }
    s.substring_char(0, e).to_owned()
}

/// How recent a run is, read off its directory: the second it started. A
/// directory that names none sorts oldest.
pub fn run_dir_epoch(dir: &str) -> (r: u64)
    ensures
        r == epoch_of(dir@),
{
    let clean = strip_trailing_dots(dir);
    let name = tail_after(clean.as_str(), '/');
    let head = head_before(name.as_str(), '_');
    match parse_up_to(head.as_str(), u64::MAX) {
        Some(n) => n,
        None => 0,
    }
}

// ── Laws ────────────────────────────────────────────────────────────────────

/// Two characters stand side by side somewhere in `s`.
pub open spec fn has_pair(s: Seq<char>, a: char, b: char) -> bool {
    exists|i: int| #![trigger s[i]] 0 <= i < s.len() - 1 && s[i] == a && s[i + 1] == b
}

proof fn lemma_pair(s: Seq<char>, p: Seq<char>)
    requires
        p.len() == 2,
    ensures
        has_text(s, p) == has_pair(s, p[0], p[1]),
{
    if has_text(s, p) {
        let i = choose|i: int| text_at(s, p, i);
        assert(s.subrange(i, i + 2)[0] == s[i]);
        assert(s.subrange(i, i + 2)[1] == s[i + 1]);
    }
    if has_pair(s, p[0], p[1]) {
        let i = choose|i: int|
            #![trigger s[i]]
            0 <= i < s.len() - 1 && s[i] == p[0] && s[i + 1] == p[1];
        assert(s.subrange(i, i + 2) =~= p);
        assert(text_at(s, p, i));
    }
}

/// A safe file name in a safe directory is a safe path on the printer, as long
/// as the name holds no colon.
pub proof fn a_safe_name_in_a_safe_dir_is_a_safe_path(dir: Seq<char>, name: Seq<char>)
    requires
        safe_upload_dir(dir),
        safe_file_name(name),
        !name.contains(':'),
    ensures
        safe_remote_path(remote_path(dir, name)),
{
    reveal_strlit("/");
    reveal_strlit("..");
    reveal_strlit("//");
    let d = trim_back(dir, Strip::Slash);
    let p = remote_path(dir, name);
    lemma_trim_back_prefix(dir);
    lemma_pair(p, ".."@);
    lemma_pair(p, "//"@);
    lemma_pair(name, ".."@);
    lemma_pair(dir, ".."@);
    lemma_pair(dir, "//"@);
    assert(p.len() == d.len() + 1 + name.len());
    assert(forall|i: int| 0 <= i < d.len() ==> #[trigger] p[i] == d[i] && p[i] == dir[i]);
    assert(p[d.len() as int] == '/');
    assert(forall|i: int|
        0 <= i < name.len() ==> name[i] == #[trigger] p[d.len() + 1 + i]);
    if dir == "/"@ {
        assert(d.len() == 0);
    } else {
        assert(d.len() > 0) by {
            if d.len() == 0 {
                lemma_trimmed_away(dir);
                assert(dir[0] == '/' && dir[1] == '/');
                assert(has_pair(dir, '/', '/'));
            }
        }
    }
    assert(p[0] == '/');
    assert forall|i: int| 0 <= i < name.len() implies name[i] != '/' && name[i] != '\\' && name[i]
        != ':' by {
        assert(name.contains(name[i]));
    }
    assert forall|i: int| 0 <= i < d.len() implies d[i] != '\\' && d[i] != ':' by {
        if dir != "/"@ {
            assert(dir.contains(dir[i]));
        }
    }
    if has_pair(p, '.', '.') {
        let i = choose|i: int| #![trigger p[i]] 0 <= i < p.len() - 1 && p[i] == '.' && p[i + 1] == '.';
        if i + 1 < d.len() {
            assert(dir[i] == '.' && dir[i + 1] == '.');
            assert(has_pair(dir, '.', '.'));
        } else {
            assert(i > d.len());
            let k = i - d.len() - 1;
            assert(p[d.len() + 1 + k] == name[k] && p[d.len() + 1 + (k + 1)] == name[k + 1]);
            assert(has_pair(name, '.', '.'));
        }
    }
    if has_pair(p, '/', '/') {
        let i = choose|i: int| #![trigger p[i]] 0 <= i < p.len() - 1 && p[i] == '/' && p[i + 1] == '/';
        if i + 1 < d.len() {
            assert(dir[i] == '/' && dir[i + 1] == '/');
            assert(has_pair(dir, '/', '/'));
        } else if i + 1 == d.len() {
            assert(d.last() == '/');
        } else {
            let k = i - d.len();
            assert(p[d.len() + 1 + k] == name[k]);
        }
    }
    if p.contains('\\') {
        let i = choose|i: int| 0 <= i < p.len() && p[i] == '\\';
        if i > d.len() {
            assert(p[d.len() + 1 + (i - d.len() - 1)] == name[i - d.len() - 1]);
        }
    }
    if p.contains(':') {
        let i = choose|i: int| 0 <= i < p.len() && p[i] == ':';
        if i > d.len() {
            assert(p[d.len() + 1 + (i - d.len() - 1)] == name[i - d.len() - 1]);
        }
    }
}

proof fn lemma_trim_back_prefix(s: Seq<char>)
    ensures
        trim_back(s, Strip::Slash).len() <= s.len(),
        forall|i: int|
            0 <= i < trim_back(s, Strip::Slash).len() ==> #[trigger] trim_back(s, Strip::Slash)[i]
                == s[i],
        trim_back(s, Strip::Slash).len() > 0 ==> trim_back(s, Strip::Slash).last() != '/',
    decreases s.len(),
{
    if s.len() > 0 && s.last() == '/' {
        lemma_trim_back_prefix(s.drop_last());
    }
}

proof fn lemma_trimmed_away(s: Seq<char>)
    requires
        trim_back(s, Strip::Slash).len() == 0,
    ensures
        forall|i: int| 0 <= i < s.len() ==> s[i] == '/',
    decreases s.len(),
{
    if s.len() > 0 {
        assert(s.last() == '/');
        lemma_trimmed_away(s.drop_last());
        assert forall|i: int| 0 <= i < s.len() implies s[i] == '/' by {
            if i < s.len() - 1 {
                assert(s.drop_last()[i] == s[i]);
            }
        }
    }
}

/// A run's name is one safe segment whatever the print was called: it holds
/// letters, digits, `-` and `_` alone, and neither begins nor ends with `_`.
pub proof fn a_hint_is_plain(s: Seq<char>)
    ensures
        0 < hint_of(s).len() <= 40,
        forall|i: int| 0 <= i < hint_of(s).len() ==> is_hint_char(#[trigger] hint_of(s)[i]),
        hint_of(s)[0] != '_',
        hint_of(s).last() != '_',
{
    reveal_strlit("print");
    let c = crate::ids::cut(hint_chars(s), 40);
    lemma_trimmed_ends(c, Strip::Underscore);
    let t = trimmed(c, Strip::Underscore);
    assert forall|i: int| 0 <= i < t.len() implies is_hint_char(#[trigger] t[i]) by {
        assert(c.contains(t[i]));
        let j = choose|j: int| 0 <= j < c.len() && c[j] == t[i];
        assert(hint_chars(s)[j] == c[j]);
    }
}

/// A printer writes its runs into a directory of its own: two printers' runs
/// never share a path, since an identifier holds no separator.
pub proof fn runs_of_two_printers_never_meet(
    a: Seq<char>,
    b: Seq<char>,
    run_a: Seq<char>,
    run_b: Seq<char>,
)
    requires
        safe_printer_id(a),
        safe_printer_id(b),
        a != b,
    ensures
        run_dir(a, run_a) != run_dir(b, run_b),
{
    reveal_strlit("/");
    reveal_strlit("captures/");
    let x = run_dir(a, run_a);
    let y = run_dir(b, run_b);
    if x == y {
        assert(forall|i: int| 0 <= i < a.len() ==> x[9 + i] == #[trigger] a[i]);
        assert(forall|i: int| 0 <= i < b.len() ==> y[9 + i] == #[trigger] b[i]);
        assert(x[9 + a.len() as int] == '/');
        assert(y[9 + b.len() as int] == '/');
        if a.len() < b.len() {
            assert(b[a.len() as int] == '/');
        } else if b.len() < a.len() {
            assert(a[b.len() as int] == '/');
        } else {
            assert(a =~= b);
        }
    }
}

/// The second a run started can be read back off its directory.
pub proof fn a_run_dir_tells_its_epoch(
    id: Seq<char>,
    epoch: u64,
    subtask_name: Option<Seq<char>>,
    mode: Seq<char>,
)
    requires
        !mode.contains('/'),
        mode.len() > 0,
        mode.last() != '.',
    ensures
        epoch_of(run_out_path(id, epoch, subtask_name, mode)) == epoch,
{
    reveal_strlit("_");
    reveal_strlit("/");
    let name = match subtask_name {
        Some(s) => s,
        None => "print"@,
    };
    let d = digits(epoch as nat);
    let h = hint_of(name);
    let run = d + "_"@ + h + "_"@ + mode;
    let p = run_out_path(id, epoch, subtask_name, mode);
    let start = captures_dir(id).len() + 1;
    crate::number::digits_read_back(epoch as nat);
    a_hint_is_plain(name);
    assert(p == captures_dir(id) + "/"@ + run);
    assert(p.last() == mode.last());
    assert(mode.last() != '/') by {
        assert(mode.contains(mode.last()));
    }
    assert(without_trailing_dots(p) == p);
    assert forall|j: int| 0 <= j < run.len() implies run[j] != '/' by {
        if j < d.len() {
            assert(run[j] == d[j]);
            assert(crate::text::is_digit(d[j]));
        } else if j == d.len() {
            assert(run[j] == '_');
        } else if j < d.len() + 1 + h.len() {
            assert(run[j] == h[j - d.len() - 1]);
            assert(is_hint_char(h[j - d.len() - 1]));
        } else if j == d.len() + 1 + h.len() {
            assert(run[j] == '_');
        } else {
            let k = j - d.len() - h.len() - 2;
            assert(run[j] == mode[k]);
            assert(mode.contains(mode[k]));
        }
    }
    assert forall|j: int| start <= j < p.len() implies p[j] != '/' by {
        assert(p[j] == run[j - start]);
    }
    assert(p[start - 1] == '/');
    crate::text::lemma_after_last(p, '/', start as int);
    assert(p.skip(start as int) =~= run);
    assert forall|j: int| 0 <= j < d.len() implies run[j] != '_' by {
        assert(run[j] == d[j]);
        assert(crate::text::is_digit(d[j]));
    }
    assert(run[d.len() as int] == '_');
    crate::text::lemma_before_first(run, '_', d.len() as int);
    assert(run.take(d.len() as int) =~= d);
    assert(crate::text::is_digit(d[0]));
    assert(crate::number::unsigned_part(d) == d);
}

/// The path of a file in a directory ends in the file's name, and what comes before
/// it is the directory.
pub proof fn a_remote_path_ends_in_its_name(dir: Seq<char>, name: Seq<char>)
    ensures
        ("/"@ + name).is_suffix_of(remote_path(dir, name)),
        !name.contains('/') ==> after_last(remote_path(dir, name), '/') == name,
        remote_path(dir, name).take(remote_path(dir, name).len() - name.len() - 1).is_prefix_of(dir),
        forall|i: int|
            remote_path(dir, name).len() - name.len() - 1 <= i < dir.len() ==> dir[i] == '/',
{
    reveal_strlit("/");
    let p = remote_path(dir, name);
    let d = trim_back(dir, Strip::Slash);
    lemma_trim_back_prefix(dir);
    assert(p.take(p.len() - name.len() - 1) =~= d);
    assert(d =~= dir.subrange(0, d.len() as int));
    assert(p.subrange(p.len() - name.len() - 1, p.len() as int) =~= "/"@ + name);
    if !name.contains('/') {
        assert forall|j: int| d.len() + 1 <= j < p.len() implies p[j] != '/' by {
            assert(p[j] == name[j - d.len() - 1]);
        }
        crate::text::lemma_after_last(p, '/', d.len() as int + 1);
        assert(p.skip(d.len() as int + 1) =~= name);
    }
    lemma_trimmed_slashes(dir);
}

proof fn lemma_trimmed_slashes(dir: Seq<char>)
    ensures
        trim_back(dir, Strip::Slash).len() <= dir.len(),
        forall|i: int| trim_back(dir, Strip::Slash).len() <= i < dir.len() ==> dir[i] == '/',
    decreases dir.len(),
{
    if dir.len() > 0 && dir.last() == '/' {
        lemma_trimmed_slashes(dir.drop_last());
        assert forall|i: int| trim_back(dir, Strip::Slash).len() <= i < dir.len() implies dir[i]
            == '/' by {
            if i < dir.len() - 1 {
                assert(dir.drop_last()[i] == dir[i]);
            }
        }
    }
}

/// A path that counts as safe starts at the root and never climbs: it has no two
/// dots or slashes in a row, and no scheme.
pub proof fn a_safe_path_never_climbs(p: Seq<char>, i: int)
    requires
        safe_remote_path(p),
        0 <= i < p.len(),
    ensures
        p[0] == '/' && p.len() > 1,
        i + 1 < p.len() ==> !(p[i] == '.' && p[i + 1] == '.') && !(p[i] == '/' && p[i + 1] == '/'),
        p[i] != '\\' && p[i] != ':',
{
    reveal_strlit("..");
    reveal_strlit("//");
    lemma_pair(p, ".."@);
    lemma_pair(p, "//"@);
    assert(p.contains(p[i]));
}

/// A file name that counts as safe names one file in its directory.
pub proof fn a_safe_name_stays_in_its_directory(name: Seq<char>, i: int)
    requires
        safe_file_name(name),
        0 <= i < name.len(),
    ensures
        name[i] != '/' && name[i] != '\\',
        i + 1 < name.len() ==> !(name[i] == '.' && name[i + 1] == '.'),
{
    reveal_strlit("..");
    lemma_pair(name, ".."@);
    assert(name.contains(name[i]));
}

} // verus!
