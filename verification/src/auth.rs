//! Who may write: an optional password on every request that is not a read.
use vstd::prelude::*;
use vstd::utf8::encode_utf8;

use crate::reply::{reply, Reply};
use crate::text::{
    before_first, chars_of, lemma_before_first, lower, opt_text, position, same_text, to_lower,
    trim, trimmed, Strip,
};

verus! {

/// Byte equality that looks at every byte of two rows of one length, whatever
/// the bytes are.
pub fn constant_time_eq(a: &[u8], b: &[u8]) -> (r: bool)
    ensures
        r == (a@ == b@),
{
    if a.len() != b.len() {
        return false;
    }
    let mut acc: u8 = 0;
    let mut i: usize = 0;
    while i < a.len()
        invariant
            i <= a.len(),
            a.len() == b.len(),
            (acc == 0) <==> (forall|j: int| 0 <= j < i ==> a@[j] == b@[j]),
        decreases a.len() - i,
    {
        let x: u8 = a[i];
        let y: u8 = b[i];
        let next: u8 = acc | (x ^ y);
        proof {
            assert((acc | (x ^ y)) == 0 <==> (acc == 0 && x == y)) by (bit_vector);
            if next == 0 {
                assert forall|j: int| 0 <= j < i + 1 implies a@[j] == b@[j] by {}
            } else if acc == 0 {
                assert(a@[i as int] != b@[i as int]);
            } else {
                let j = choose|j: int| 0 <= j < i && a@[j] != b@[j];
                assert(0 <= j < i + 1 && a@[j] != b@[j]);
            }
        }
        acc = next;
        i += 1;
    }
    proof {
        if acc == 0 {
            assert(a@ =~= b@);
        }
    }
    acc == 0
}

/// The two sides of the first `c` in a text.
pub open spec fn split_at_first(s: Seq<char>, c: char) -> Option<(Seq<char>, Seq<char>)> {
    if s.contains(c) {
        let head = before_first(s, c);
        Some((head, s.skip(head.len() as int + 1)))
    } else {
        None
    }
}

/// The two sides of the first `c` in a text.
pub fn split_once(s: &str, c: char) -> (r: Option<(String, String)>)
    ensures
        match r {
            Some(p) => split_at_first(s@, c) == Some((p.0@, p.1@)),
            None => split_at_first(s@, c) is None,
        },
{
    let cs = chars_of(s);
    let n: usize = cs.len();
    match position(cs.as_slice(), c) {
        Some(i) => {
            proof {
                assert(s@[i as int] == c);
                lemma_before_first(s@, c, i as int);
                assert(s@.subrange(i + 1, s@.len() as int) =~= s@.skip(i + 1));
                assert(s@.subrange(0, i as int) =~= s@.take(i as int));
            }
            Some((s.substring_char(0, i).to_owned(), s.substring_char(i + 1, n).to_owned()))
        },
        None => None,
    }
}

/// The token of an `Authorization` header that offers one: what follows the
/// scheme `Bearer`, in any case, without the space around it.
pub open spec fn bearer_token(header: Seq<char>) -> Option<Seq<char>> {
    match split_at_first(header, ' ') {
        Some((scheme, token)) => if lower(scheme) == "bearer"@ {
            Some(trimmed(token, Strip::Space))
        } else {
            None
        },
        None => None,
    }
}

/// A write is let through where no password is set, and else where the header
/// offers that password.
pub open spec fn admitted(password: Option<Seq<char>>, header: Option<Seq<char>>) -> bool {
    match password {
        None => true,
        Some(pw) => match header {
            Some(h) => bearer_token(h) == Some(pw),
            None => false,
        },
    }
}

proof fn lemma_bytes_tell_texts_apart(a: Seq<char>, b: Seq<char>)
    ensures
        (encode_utf8(a) == encode_utf8(b)) == (a == b),
{
    vstd::utf8::encode_utf8_decode_utf8(a);
    vstd::utf8::encode_utf8_decode_utf8(b);
}

/// Gate a write on the password. `header` is the request's `Authorization`.
pub fn require_password(password: &Option<String>, header: &Option<String>) -> (r: Option<Reply>)
    ensures
        match r {
            None => admitted(opt_text(*password), opt_text(*header)),
            Some(refused) => !admitted(opt_text(*password), opt_text(*header)) && refused@ == (
                401u16,
                "password required"@,
            ),
        },
{
    let pw = match password {
        Some(pw) => pw,
        None => return None,
    };
    if let Some(h) = header {
        if let Some((scheme, rest)) = split_once(h.as_str(), ' ') {
            let name = to_lower(scheme.as_str());
            if same_text(name.as_str(), "bearer") {
                let token = trim(rest.as_str(), Strip::Space);
                proof {
                    lemma_bytes_tell_texts_apart(token@, pw@);
                }
                if constant_time_eq(token.as_str().as_bytes(), pw.as_str().as_bytes()) {
                    return None;
                }
            }
        }
    }
    Some(reply(401, "password required".to_owned()))
}

// ── The routes ──────────────────────────────────────────────────────────────

/// How a route is called.
#[derive(Clone, Copy, Debug, PartialEq, Eq, Structural)]
pub enum Method {
    Get,
    Post,
}

/// One route of a printer's API, and whether it asks for the password.
#[derive(Clone, Copy, Debug)]
pub struct Route {
    pub method: Method,
    /// The path behind the printer's prefix.
    pub path: &'static str,
    pub gated: bool,
}

/// A read that asks for the password: what it shows is the caller's own, or names
/// addresses that are kept from open reads.
pub open spec fn gated_read(path: Seq<char>) -> bool {
    path == "/camera/config"@ || path == "/slice/result"@
}

/// Every write is gated; a read is gated in two places alone.
pub open spec fn gated_rightly(r: Route) -> bool {
    r.gated == (r.method == Method::Post || gated_read(r.path@))
}

fn open_read(path: &'static str) -> (r: Route)
    requires
        !gated_read(path@),
    ensures
        gated_rightly(r),
        r.method == Method::Get,
        r.path@ == path@,
{
    Route { method: Method::Get, path, gated: false }
}

fn write(path: &'static str) -> (r: Route)
    ensures
        gated_rightly(r),
        r.method == Method::Post,
        r.path@ == path@,
{
    Route { method: Method::Post, path, gated: true }
}

fn closed_read(path: &'static str) -> (r: Route)
    requires
        gated_read(path@),
    ensures
        gated_rightly(r),
        r.method == Method::Get,
        r.path@ == path@,
{
    Route { method: Method::Get, path, gated: true }
}

/// The paths that are read without a password.
pub open spec fn open_paths() -> Seq<Seq<char>> {
    seq![
        "/status"@,
        "/ws"@,
        "/file"@,
        "/file/thumbnail"@,
        "/file/raw"@,
        "/file/gcode"@,
        "/file/inspect"@,
        "/file/mesh"@,
        "/camera"@,
        "/camera/{id}/snapshot"@,
        "/camera/{id}/stream"@,
        "/camera/{id}/park"@,
        "/camera/{id}/park/{n}"@,
        "/timelapse"@,
        "/slice"@,
        "/capture"@,
        "/capture/{run}/{cam}/video.mp4"@,
        "/capture/{run}/{cam}/thumb.jpg"@,
    ]
}

/// The paths that are written to.
pub open spec fn write_paths() -> Seq<Seq<char>> {
    seq![
        "/job/pause"@,
        "/job/resume"@,
        "/job/stop"@,
        "/job/clear-error"@,
        "/job/start"@,
        "/light"@,
        "/speed"@,
        "/gcode"@,
        "/home"@,
        "/move"@,
        "/extrude"@,
        "/temp"@,
        "/calibrate"@,
        "/ams"@,
        "/ams/change"@,
        "/reboot"@,
        "/steppers"@,
        "/camera/config"@,
        "/timelapse/start"@,
        "/timelapse/stop"@,
        "/file/upload"@,
        "/job/upload-start"@,
        "/slice"@,
        "/slice/print"@,
    ]
}

/// The paths that are read behind the password.
pub open spec fn closed_paths() -> Seq<Seq<char>> {
    seq!["/camera/config"@, "/slice/result"@]
}

/// The paths of some routes.
pub open spec fn paths_of(rs: Seq<Route>) -> Seq<Seq<char>> {
    rs.map_values(|r: Route| r.path@)
}

fn reads() -> (r: Vec<Route>)
    ensures
        paths_of(r@) == open_paths(),
        forall|i: int|
            0 <= i < r@.len() ==> gated_rightly(#[trigger] r@[i]) && r@[i].method
                == Method::Get && !r@[i].gated,
{
    proof {
        lemma_open_reads_are_open();
    }
    let r: Vec<Route> = vec![
        open_read("/status"),
        open_read("/ws"),
        open_read("/file"),
        open_read("/file/thumbnail"),
        open_read("/file/raw"),
        open_read("/file/gcode"),
        open_read("/file/inspect"),
        open_read("/file/mesh"),
        open_read("/camera"),
        open_read("/camera/{id}/snapshot"),
        open_read("/camera/{id}/stream"),
        open_read("/camera/{id}/park"),
        open_read("/camera/{id}/park/{n}"),
        open_read("/timelapse"),
        open_read("/slice"),
        open_read("/capture"),
        open_read("/capture/{run}/{cam}/video.mp4"),
        open_read("/capture/{run}/{cam}/thumb.jpg"),
    ];
    proof {
        assert(paths_of(r@) =~= open_paths());
    }
    r
}

fn writes() -> (r: Vec<Route>)
    ensures
        paths_of(r@) == write_paths(),
        forall|i: int|
            0 <= i < r@.len() ==> gated_rightly(#[trigger] r@[i]) && r@[i].method
                == Method::Post && r@[i].gated,
{
    let r: Vec<Route> = vec![
        write("/job/pause"),
        write("/job/resume"),
        write("/job/stop"),
        write("/job/clear-error"),
        write("/job/start"),
        write("/light"),
        write("/speed"),
        write("/gcode"),
        write("/home"),
        write("/move"),
        write("/extrude"),
        write("/temp"),
        write("/calibrate"),
        write("/ams"),
        write("/ams/change"),
        write("/reboot"),
        write("/steppers"),
        write("/camera/config"),
        write("/timelapse/start"),
        write("/timelapse/stop"),
        write("/file/upload"),
        write("/job/upload-start"),
        write("/slice"),
        write("/slice/print"),
    ];
    proof {
        assert(paths_of(r@) =~= write_paths());
    }
    r
}

/// The routes of one printer: the open reads, the writes, and the two reads
/// behind the password.
pub fn printer_routes() -> (r: Vec<Route>)
    ensures
        paths_of(r@) == open_paths() + write_paths() + closed_paths(),
        forall|i: int| 0 <= i < r@.len() ==> gated_rightly(#[trigger] r@[i]),
        forall|i: int|
            0 <= i < r@.len() ==> (#[trigger] r@[i]).method == if open_paths().len() <= i
                < open_paths().len() + write_paths().len() {
                Method::Post
            } else {
                Method::Get
            },
{
    let mut r = reads();
    let ghost a = r@;
    let mut w = writes();
    let ghost b = w@;
    r.append(&mut w);
    r.push(closed_read("/camera/config"));
    r.push(closed_read("/slice/result"));
    proof {
        assert(a.len() == paths_of(a).len() && b.len() == paths_of(b).len());
        assert forall|i: int| 0 <= i < r@.len() implies gated_rightly(#[trigger] r@[i])
            && r@[i].method == (if open_paths().len() <= i < open_paths().len()
            + write_paths().len() {
            Method::Post
        } else {
            Method::Get
        }) by {
            if i < a.len() {
                assert(r@[i] == a[i]);
            } else if i < a.len() + b.len() {
                assert(r@[i] == b[i - a.len()]);
            }
        }
        assert(paths_of(r@) =~= open_paths() + write_paths() + closed_paths()) by {
            let want = open_paths() + write_paths() + closed_paths();
            assert forall|i: int| 0 <= i < want.len() implies paths_of(r@)[i] == want[i] by {
                if i < a.len() {
                    assert(paths_of(a)[i] == a[i].path@);
                } else if i < a.len() + b.len() {
                    assert(paths_of(b)[i - a.len()] == b[i - a.len()].path@);
                }
            }
        }
    }
    r
}

proof fn lemma_open_reads_are_open()
    ensures
        !gated_read("/status"@),
        !gated_read("/ws"@),
        !gated_read("/file"@),
        !gated_read("/file/thumbnail"@),
        !gated_read("/file/raw"@),
        !gated_read("/file/gcode"@),
        !gated_read("/file/inspect"@),
        !gated_read("/file/mesh"@),
        !gated_read("/camera"@),
        !gated_read("/camera/{id}/snapshot"@),
        !gated_read("/camera/{id}/stream"@),
        !gated_read("/camera/{id}/park"@),
        !gated_read("/camera/{id}/park/{n}"@),
        !gated_read("/timelapse"@),
        !gated_read("/slice"@),
        !gated_read("/capture"@),
        !gated_read("/capture/{run}/{cam}/video.mp4"@),
        !gated_read("/capture/{run}/{cam}/thumb.jpg"@),
{
    reveal_strlit("/status");
    reveal_strlit("/ws");
    reveal_strlit("/file");
    reveal_strlit("/file/thumbnail");
    reveal_strlit("/file/raw");
    reveal_strlit("/file/gcode");
    reveal_strlit("/file/inspect");
    reveal_strlit("/file/mesh");
    reveal_strlit("/camera");
    reveal_strlit("/camera/{id}/snapshot");
    reveal_strlit("/camera/{id}/stream");
    reveal_strlit("/camera/{id}/park");
    reveal_strlit("/camera/{id}/park/{n}");
    reveal_strlit("/timelapse");
    reveal_strlit("/slice");
    reveal_strlit("/capture");
    reveal_strlit("/capture/{run}/{cam}/video.mp4");
    reveal_strlit("/capture/{run}/{cam}/thumb.jpg");
    reveal_strlit("/camera/config");
    reveal_strlit("/slice/result");
    assert("/camera/config"@.len() == 14 && "/camera/config"@[8] == 'c');
    assert("/slice/result"@.len() == 13 && "/slice/result"@[1] == 's');
    assert("/file/inspect"@[1] == 'f');
}

// ── Laws ────────────────────────────────────────────────────────────────────

/// Without a password every write is let through.
pub proof fn no_password_leaves_control_open(header: Option<Seq<char>>)
    ensures
        admitted(None, header),
{
}

/// With a password set, a write without a header, with another scheme or with
/// another token is refused.
pub proof fn a_password_is_demanded(pw: Seq<char>, header: Seq<char>)
    ensures
        !admitted(Some(pw), None),
        bearer_token(header) != Some(pw) ==> !admitted(Some(pw), Some(header)),
{
}

/// A password that neither begins nor ends with space is let through in the
/// header that offers it.
pub proof fn the_password_itself_is_accepted(pw: Seq<char>)
    requires
        pw.len() > 0 ==> !crate::text::is_space(pw[0]) && !crate::text::is_space(pw.last()),
    ensures
        admitted(Some(pw), Some("Bearer "@ + pw)),
{
    reveal_strlit("Bearer ");
    reveal_strlit("bearer");
    let h = "Bearer "@ + pw;
    assert(h[6] == ' ');
    assert(h.contains(' '));
    lemma_before_first(h, ' ', 6);
    assert(lower(h.take(6)) =~= "bearer"@);
    assert(h.skip(7) =~= pw);
    crate::text::lemma_trimmed_fixed(pw, Strip::Space);
}

/// What is offered is what follows the scheme, without the space around it; another
/// scheme, or none, offers nothing.
pub proof fn a_token_is_what_follows_the_scheme(scheme: Seq<char>, token: Seq<char>)
    requires
        !scheme.contains(' '),
        token.len() > 0 ==> !crate::text::is_space(token[0]) && !crate::text::is_space(
            token.last(),
        ),
    ensures
        lower(scheme) == "bearer"@ ==> bearer_token(scheme + seq![' '] + token) == Some(token),
        lower(scheme) != "bearer"@ ==> bearer_token(scheme + seq![' '] + token) is None,
        bearer_token(scheme) is None,
{
    let h = scheme + seq![' '] + token;
    let k = scheme.len() as int;
    assert(h[k] == ' ');
    assert(h.contains(' '));
    assert forall|j: int| 0 <= j < k implies h[j] != ' ' by {
        assert(scheme[j] == h[j]);
        assert(scheme.contains(scheme[j]));
    }
    lemma_before_first(h, ' ', k);
    assert(h.take(k) =~= scheme);
    assert(h.skip(k + 1) =~= token);
    crate::text::lemma_trimmed_fixed(token, Strip::Space);
}

/// With a password set, a header in its plain form is let through if and only if it
/// offers this very password.
pub proof fn only_the_password_is_accepted(pw: Seq<char>, token: Seq<char>)
    requires
        token.len() > 0 ==> !crate::text::is_space(token[0]) && !crate::text::is_space(
            token.last(),
        ),
    ensures
        admitted(Some(pw), Some("Bearer "@ + token)) <==> token == pw,
        !admitted(Some(pw), Some("Basic "@ + token)),
        !admitted(Some(pw), None),
{
    reveal_strlit("Bearer ");
    reveal_strlit("Basic ");
    reveal_strlit("bearer");
    let s = "Bearer "@.take(6);
    let b = "Basic "@.take(5);
    assert forall|j: int| 0 <= j < 6 implies s[j] != ' ' by {}
    assert forall|j: int| 0 <= j < 5 implies b[j] != ' ' by {}
    assert(!s.contains(' '));
    assert(!b.contains(' '));
    assert(lower(s) =~= "bearer"@);
    assert(lower(b).len() == 5);
    assert("Bearer "@ + token =~= s + seq![' '] + token);
    assert("Basic "@ + token =~= b + seq![' '] + token);
    a_token_is_what_follows_the_scheme(s, token);
    a_token_is_what_follows_the_scheme(b, token);
}

/// No write is open, the camera's configuration and a slice are not read without the
/// password, and every other read is.
pub proof fn what_is_gated_is_known(r: Route)
    requires
        gated_rightly(r),
    ensures
        r.method == Method::Post ==> r.gated,
        r.method == Method::Get ==> (r.gated <==> r.path@ == "/camera/config"@ || r.path@
            == "/slice/result"@),
{
}

} // verus!
