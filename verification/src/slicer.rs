//! A slicer that is installed here: finding it, reading its profiles, running it
//! and holding what it made to proof.
use vstd::prelude::*;

use crate::paths::{last_component, strip_trailing_dots, without_trailing_dots};
use crate::slice::SlicerInfo;
use crate::text::{
    after_last, chars_of, join2, join3, join4, opt_text, same_text, starts_with, tail_after, texts,
};

verus! {

// ── Paths ───────────────────────────────────────────────────────────────────

/// `name` inside the directory `dir`.
pub open spec fn inside(dir: Seq<char>, name: Seq<char>) -> Seq<char> {
    if dir.len() == 0 {
        name
    } else if dir.last() == '/' {
        dir + name
    } else {
        dir + "/"@ + name
    }
}

pub fn join_path(dir: &str, name: &str) -> (r: String)
    ensures
        r@ == inside(dir@, name@),
{
    let cs = chars_of(dir);
    if cs.len() == 0 {
        name.to_owned()
    } else if cs[cs.len() - 1] == '/' {
        join2(dir, name)
    } else {
        join3(dir, "/", name)
    }
}

/// The path without its last component: none where it has none.
pub open spec fn parent(p: Seq<char>) -> Option<Seq<char>> {
    let s = without_trailing_dots(p);
    if s.len() == 0 {
        None
    } else {
        let head = s.take(s.len() - after_last(s, '/').len());
        let dir = without_trailing_dots(head);
        if dir.len() == 0 && head.len() > 0 {
            Some("/"@)
        } else {
            Some(dir)
        }
    }
}

fn parent_path(p: &str) -> (r: Option<String>)
    ensures
        opt_text(r) == parent(p@),
{
    let s = strip_trailing_dots(p);
    let cs = chars_of(s.as_str());
    if cs.len() == 0 {
        return None;
    }
    let tail = tail_after(s.as_str(), '/');
    let ts = chars_of(tail.as_str());
    proof {
        lemma_tail_is_short(s@, '/');
    }
    let k: usize = cs.len() - ts.len();
    let head = s.as_str().substring_char(0, k).to_owned();
    proof {
        assert(head@ =~= s@.take(k as int));
    }
    let dir = strip_trailing_dots(head.as_str());
    let ds = chars_of(dir.as_str());
    if ds.len() == 0 && k > 0 {
        Some("/".to_owned())
    } else {
        Some(dir)
    }
}

proof fn lemma_tail_is_short(s: Seq<char>, c: char)
    ensures
        after_last(s, c).len() <= s.len(),
    decreases s.len(),
{
    if s.len() > 0 && s.last() != c {
        lemma_tail_is_short(s.drop_last(), c);
    }
}

/// The components of a path, from the root on where it starts there: separators
/// that repeat or trail make no difference, nor does a `.` but at the start.
pub open spec fn components(p: Seq<char>) -> Seq<Seq<char>>
    decreases p.len(),
{
    if p.len() == 0 {
        Seq::empty()
    } else if p.last() == '/' {
        if p.len() == 1 {
            seq![p]
        } else {
            components(p.drop_last())
        }
    } else {
        let name = after_last(p, '/');
        let head = p.take(p.len() - name.len());
        if head.len() >= p.len() {
            Seq::empty()
        } else if name == "."@ && head.len() > 0 {
            components(head)
        } else {
            components(head).push(name)
        }
    }
}

/// Two paths that lead to one place by their components.
pub open spec fn same_path(a: Seq<char>, b: Seq<char>) -> bool {
    components(a) == components(b)
}

fn parts_of(p: &str) -> (r: Vec<String>)
    ensures
        texts(r@) == components(p@),
    decreases p@.len(),
{
    let cs = chars_of(p);
    let n: usize = cs.len();
    proof {
        lemma_tail_is_short(p@, '/');
    }
    if n == 0 {
        let none: Vec<String> = Vec::new();
        proof {
            assert(texts(none@) =~= components(p@));
        }
        return none;
    }
    if cs[n - 1] == '/' {
        if n == 1 {
            let mut root: Vec<String> = Vec::new();
            root.push(p.to_owned());
            proof {
                assert(texts(root@) =~= components(p@));
            }
            return root;
        }
        let less = p.substring_char(0, n - 1);
        proof {
            assert(less@ =~= p@.drop_last());
        }
        return parts_of(less);
    }
    let name = tail_after(p, '/');
    let k: usize = chars_of(name.as_str()).len();
    proof {
        lemma_tail_is_there(p@, '/');
    }
    let head = p.substring_char(0, n - k);
    proof {
        assert(head@ =~= p@.take(n - k));
    }
    let mut parts = parts_of(head);
    if n > k && same_text(name.as_str(), ".") {
        return parts;
    }
    let ghost before = texts(parts@);
    parts.push(name);
    proof {
        assert(texts(parts@) =~= before.push(name@));
    }
    parts
}

proof fn lemma_tail_is_there(s: Seq<char>, c: char)
    requires
        s.len() > 0,
        s.last() != c,
    ensures
        after_last(s, c).len() > 0,
{
}

fn is_same_path(a: &str, b: &str) -> (r: bool)
    ensures
        r == same_path(a@, b@),
{
    let x = parts_of(a);
    let y = parts_of(b);
    let ghost xs = texts(x@);
    let ghost ys = texts(y@);
    if x.len() != y.len() {
        proof {
            assert(xs.len() != ys.len());
        }
        return false;
    }
    let mut i: usize = 0;
    while i < x.len()
        invariant
            i <= x@.len(),
            x@.len() == y@.len(),
            xs == texts(x@),
            ys == texts(y@),
            xs == components(a@),
            ys == components(b@),
            forall|k: int| 0 <= k < i ==> #[trigger] xs[k] == ys[k],
        decreases x@.len() - i,
    {
        if !same_text(x[i].as_str(), y[i].as_str()) {
            proof {
                assert(xs[i as int] != ys[i as int]);
            }
            return false;
        }
        i += 1;
    }
    proof {
        assert(xs =~= ys);
    }
    true
}

// ── Finding it ──────────────────────────────────────────────────────────────

/// What to tell someone who has no slicer.
pub open spec fn no_slicer() -> Seq<char> {
    "no slicer found: install orca-slicer (with its /opt/orca-slicer/resources/profiles/BBL bundle) or Bambu Studio at /opt/bambustudio-bin, or point `bambu serve` at one with --slicer-bin and --slicer-profiles"@
}

/// What there is on this machine, as far as it was looked at.
#[derive(Debug)]
pub struct Host {
    /// The first `orca-slicer` on the search path that can be run.
    pub orca: Option<String>,
    /// A virtual display can be had.
    pub xvfb: bool,
    /// Files that can be run.
    pub executables: Vec<String>,
    pub directories: Vec<String>,
}

/// `p` is among these.
pub open spec fn among(v: Seq<String>, p: Seq<char>) -> bool {
    exists|i: int| 0 <= i < v.len() && (#[trigger] v[i])@ == p
}

fn is_among(v: &Vec<String>, p: &str) -> (r: bool)
    ensures
        r == among(v@, p@),
{
    let mut i: usize = 0;
    while i < v.len()
        invariant
            i <= v@.len(),
            forall|j: int| 0 <= j < i ==> (#[trigger] v@[j])@ != p@,
        decreases v@.len() - i,
    {
        if same_text(v[i].as_str(), p) {
            return true;
        }
        i += 1;
    }
    false
}

impl Host {
    pub open spec fn runs(self, p: Seq<char>) -> bool {
        among(self.executables@, p)
    }

    pub open spec fn has_dir(self, p: Seq<char>) -> bool {
        among(self.directories@, p)
    }
}

pub open spec fn orca_profiles() -> Seq<char> {
    "/opt/orca-slicer/resources/profiles/BBL"@
}

pub open spec fn studio_bin() -> Seq<char> {
    "/opt/bambustudio-bin/bin/bambu-studio"@
}

pub open spec fn studio_profiles() -> Seq<char> {
    "/opt/bambustudio-bin/resources/profiles/BBL"@
}

/// The first slicer and its profiles that are installed.
pub open spec fn detected(h: Host) -> Option<(Seq<char>, Seq<char>)> {
    if h.orca is Some && h.runs(h.orca->0@) && h.has_dir(orca_profiles()) {
        Some((h.orca->0@, orca_profiles()))
    } else if h.runs(studio_bin()) && h.has_dir(studio_profiles()) {
        Some((studio_bin(), studio_profiles()))
    } else {
        None
    }
}

pub open spec fn pair_view(p: Option<(String, String)>) -> Option<(Seq<char>, Seq<char>)> {
    match p {
        Some((a, b)) => Some((a@, b@)),
        None => None,
    }
}

fn auto_detect(h: &Host) -> (r: Option<(String, String)>)
    ensures
        pair_view(r) == detected(*h),
{
    if let Some(b) = &h.orca {
        if is_among(&h.executables, b.as_str()) && is_among(
            &h.directories,
            "/opt/orca-slicer/resources/profiles/BBL",
        ) {
            return Some((b.clone(), "/opt/orca-slicer/resources/profiles/BBL".to_owned()));
        }
    }
    if is_among(&h.executables, "/opt/bambustudio-bin/bin/bambu-studio") && is_among(
        &h.directories,
        "/opt/bambustudio-bin/resources/profiles/BBL",
    ) {
        return Some(
            (
                "/opt/bambustudio-bin/bin/bambu-studio".to_owned(),
                "/opt/bambustudio-bin/resources/profiles/BBL".to_owned(),
            ),
        );
    }
    None
}

/// Where a slicer's own profiles would be: a binary at `<prefix>/bin/<name>` has
/// them at `<prefix>/resources/profiles/BBL`.
pub open spec fn bundle_of(bin: Seq<char>) -> Option<Seq<char>> {
    match parent(bin) {
        Some(dir) => match parent(dir) {
            Some(prefix) => Some(inside(prefix, "resources/profiles/BBL"@)),
            None => None,
        },
        None => None,
    }
}

/// Where a slicer's own profiles would be.
pub fn bundle_beside(bin: &str) -> (r: Option<String>)
    ensures
        opt_text(r) == bundle_of(bin@),
{
    match parent_path(bin) {
        Some(dir) => match parent_path(dir.as_str()) {
            Some(prefix) => Some(join_path(prefix.as_str(), "resources/profiles/BBL")),
            None => None,
        },
        None => None,
    }
}

/// The profiles beside a slicer that are there.
pub open spec fn beside(h: Host, bin: Seq<char>) -> Option<Seq<char>> {
    match bundle_of(bin) {
        Some(b) => if h.has_dir(b) {
            Some(b)
        } else {
            None
        },
        None => None,
    }
}

fn profiles_beside(h: &Host, bin: &str) -> (r: Option<String>)
    ensures
        opt_text(r) == beside(*h, bin@),
{
    match bundle_beside(bin) {
        Some(b) => if is_among(&h.directories, b.as_str()) {
            Some(b)
        } else {
            None
        },
        None => None,
    }
}

/// What a slicer is called: the name of its file.
pub open spec fn slicer_kind(bin: Seq<char>) -> Seq<char> {
    let name = last_component(bin);
    if name.len() == 0 || name == "."@ || name == ".."@ {
        "slicer"@
    } else {
        name
    }
}

/// The environment a slicer needs: Bambu Studio wants its own libraries and a
/// plain locale.
pub open spec fn slicer_env(bin: Seq<char>) -> Seq<(Seq<char>, Seq<char>)> {
    if "bambu-studio"@.is_prefix_of(slicer_kind(bin)) {
        seq![
            (
                "LD_LIBRARY_PATH"@,
                match parent(bin) {
                    Some(d) => d,
                    None => "/"@,
                },
            ),
            ("LC_ALL"@, "C"@),
        ]
    } else {
        Seq::empty()
    }
}

pub open spec fn pairs_view(env: Seq<(String, String)>) -> Seq<(Seq<char>, Seq<char>)> {
    env.map_values(|kv: (String, String)| (kv.0@, kv.1@))
}

/// How to name this slicer and what it needs around it.
pub fn kind_and_env(bin: &str) -> (r: (String, Vec<(String, String)>))
    ensures
        r.0@ == slicer_kind(bin@),
        pairs_view(r.1@) == slicer_env(bin@),
{
    let clean = strip_trailing_dots(bin);
    let last = tail_after(clean.as_str(), '/');
    proof {
        reveal_strlit("");
        if last@.len() == 0 {
            assert(last@ =~= ""@);
        }
    }
    let name = if same_text(last.as_str(), "") || same_text(last.as_str(), ".") || same_text(
        last.as_str(),
        "..",
    ) {
        "slicer".to_owned()
    } else {
        last
    };
    if starts_with(name.as_str(), "bambu-studio") {
        let libs = match parent_path(bin) {
            Some(d) => d,
            None => "/".to_owned(),
        };
        let env: Vec<(String, String)> = vec![
            ("LD_LIBRARY_PATH".to_owned(), libs),
            ("LC_ALL".to_owned(), "C".to_owned()),
        ];
        proof {
            assert(pairs_view(env@) =~= slicer_env(bin@));
        }
        return (name, env);
    }
    let env: Vec<(String, String)> = Vec::new();
    proof {
        assert(pairs_view(env@) =~= slicer_env(bin@));
    }
    (name, env)
}

/// A slicer and the profiles it comes with.
#[derive(Debug)]
pub struct LiveSlicer {
    pub bin: String,
    pub profiles: String,
    pub kind: String,
    pub env: Vec<(String, String)>,
    pub xvfb: bool,
    pub timeout_ms: u64,
}

/// The slicer that was asked for, or the one that is installed.
pub open spec fn chosen_bin(h: Host, bin: Option<Seq<char>>) -> Result<Seq<char>, Seq<char>> {
    match bin {
        Some(b) => if h.runs(b) {
            Ok(b)
        } else {
            Err("--slicer-bin "@ + b + " is not an executable file"@)
        },
        None => match detected(h) {
            Some((b, _)) => Ok(b),
            None => Err(no_slicer()),
        },
    }
}

/// The profiles that were asked for; else those beside the slicer, or those that
/// were found with this very slicer. Never another slicer's.
pub open spec fn chosen_profiles(h: Host, bin: Seq<char>, profiles: Option<Seq<char>>) -> Result<
    Seq<char>,
    Seq<char>,
> {
    match profiles {
        Some(p) => if h.has_dir(p) {
            Ok(p)
        } else {
            Err("--slicer-profiles "@ + p + " is not a directory"@)
        },
        None => match beside(h, bin) {
            Some(p) => Ok(p),
            None => match detected(h) {
                Some((b, p)) if same_path(b, bin) => Ok(p),
                _ => Err(
                    "no BBL profile bundle found beside "@ + bin + " — pass --slicer-profiles"@,
                ),
            },
        },
    }
}

/// The refusal of a directory that is no bundle of profiles.
pub open spec fn not_a_bundle(h: Host, profiles: Seq<char>) -> Option<Seq<char>> {
    if !h.has_dir(inside(profiles, "machine"@)) {
        Some(no_subdir(profiles, "machine"@))
    } else if !h.has_dir(inside(profiles, "process"@)) {
        Some(no_subdir(profiles, "process"@))
    } else if !h.has_dir(inside(profiles, "filament"@)) {
        Some(no_subdir(profiles, "filament"@))
    } else {
        None
    }
}

pub open spec fn no_subdir(profiles: Seq<char>, sub: Seq<char>) -> Seq<char> {
    profiles + " is not a BBL profile bundle (no "@ + sub + "/ subdirectory)"@
}

/// The slicer and the profiles to use, or why there are none.
pub open spec fn discovered(h: Host, bin: Option<Seq<char>>, profiles: Option<Seq<char>>) -> Result<
    (Seq<char>, Seq<char>),
    Seq<char>,
> {
    match chosen_bin(h, bin) {
        Err(e) => Err(e),
        Ok(b) => match chosen_profiles(h, b, profiles) {
            Err(e) => Err(e),
            Ok(p) => match not_a_bundle(h, p) {
                Some(e) => Err(e),
                None => Ok((b, p)),
            },
        },
    }
}

fn subdir_missing(h: &Host, profiles: &str, sub: &str) -> (r: Option<String>)
    ensures
        opt_text(r) == (if h.has_dir(inside(profiles@, sub@)) {
            None
        } else {
            Some(no_subdir(profiles@, sub@))
        }),
{
    let dir = join_path(profiles, sub);
    if is_among(&h.directories, dir.as_str()) {
        None
    } else {
        Some(join4(profiles, " is not a BBL profile bundle (no ", sub, "/ subdirectory)"))
    }
}

impl LiveSlicer {
    /// Find a slicer, or say why there is none. One that was asked for is never
    /// replaced by another, and profiles are never those of another slicer.
    pub fn discover(
        h: &Host,
        bin: Option<String>,
        profiles: Option<String>,
        timeout_ms: u64,
    ) -> (r: Result<LiveSlicer, String>)
        ensures
            match discovered(*h, opt_text(bin), opt_text(profiles)) {
                Err(e) => r matches Err(x) && x@ == e,
                Ok((b, p)) => {
                    &&& r matches Ok(s)
                    &&& s.bin@ == b
                    &&& s.profiles@ == p
                    &&& s.kind@ == slicer_kind(b)
                    &&& pairs_view(s.env@) == slicer_env(b)
                    &&& s.xvfb == h.xvfb
                    &&& s.timeout_ms == timeout_ms
                },
            },
    {
        let auto = auto_detect(h);
        let b = match bin {
            Some(b) => {
                if !is_among(&h.executables, b.as_str()) {
                    return Err(join3("--slicer-bin ", b.as_str(), " is not an executable file"));
                }
                b
            },
            None => match &auto {
                Some((b, _)) => b.clone(),
                None => {
                    return Err(
                        "no slicer found: install orca-slicer (with its /opt/orca-slicer/resources/profiles/BBL bundle) or Bambu Studio at /opt/bambustudio-bin, or point `bambu serve` at one with --slicer-bin and --slicer-profiles".to_owned(),
                    );
                },
            },
        };
        let p = match profiles {
            Some(p) => {
                if !is_among(&h.directories, p.as_str()) {
                    return Err(join3("--slicer-profiles ", p.as_str(), " is not a directory"));
                }
                p
            },
            None => match profiles_beside(h, b.as_str()) {
                Some(p) => p,
                None => {
                    let mut own: Option<String> = None;
                    if let Some((ab, ap)) = auto {
                        if is_same_path(ab.as_str(), b.as_str()) {
                            own = Some(ap);
                        }
                    }
                    match own {
                        Some(p) => p,
                        None => {
                            return Err(
                                join3(
                                    "no BBL profile bundle found beside ",
                                    b.as_str(),
                                    " — pass --slicer-profiles",
                                ),
                            );
                        },
                    }
                },
            },
        };
        if let Some(e) = subdir_missing(h, p.as_str(), "machine") {
            return Err(e);
        }
        if let Some(e) = subdir_missing(h, p.as_str(), "process") {
            return Err(e);
        }
        if let Some(e) = subdir_missing(h, p.as_str(), "filament") {
            return Err(e);
        }
        let (kind, env) = kind_and_env(b.as_str());
        Ok(LiveSlicer { bin: b, profiles: p, kind, env, xvfb: h.xvfb, timeout_ms })
    }

    /// What this slicer says of itself.
    pub fn info(&self) -> (r: Result<SlicerInfo, String>)
        ensures
            r matches Ok(i) && i.kind@ == self.kind@ && i.thumbnails == self.xvfb,
    {
        Ok(SlicerInfo { kind: self.kind.clone(), thumbnails: self.xvfb })
    }
}

// ── What has to be looked at ────────────────────────────────────────────────

/// A bundle and what has to be in it.
pub open spec fn bundle_dirs(p: Seq<char>) -> Seq<Seq<char>> {
    seq![p, inside(p, "machine"@), inside(p, "process"@), inside(p, "filament"@)]
}

pub open spec fn opt_bundle_dirs(p: Option<Seq<char>>) -> Seq<Seq<char>> {
    match p {
        Some(d) => bundle_dirs(d),
        None => Seq::empty(),
    }
}

pub open spec fn opt_bundle_of(bin: Option<Seq<char>>) -> Option<Seq<char>> {
    match bin {
        Some(b) => bundle_of(b),
        None => None,
    }
}

/// The directories that finding a slicer depends on.
pub open spec fn dirs_to_probe(
    orca: Option<Seq<char>>,
    bin: Option<Seq<char>>,
    profiles: Option<Seq<char>>,
) -> Seq<Seq<char>> {
    opt_bundle_dirs(profiles) + opt_bundle_dirs(opt_bundle_of(bin)) + opt_bundle_dirs(
        opt_bundle_of(orca),
    ) + opt_bundle_dirs(bundle_of(studio_bin())) + bundle_dirs(orca_profiles()) + bundle_dirs(
        studio_profiles(),
    )
}

fn push_bundle(v: &mut Vec<String>, p: &str)
    ensures
        texts(final(v)@) == texts(old(v)@) + bundle_dirs(p@),
{
    v.push(p.to_owned());
    v.push(join_path(p, "machine"));
    v.push(join_path(p, "process"));
    v.push(join_path(p, "filament"));
    proof {
        assert(texts(v@) =~= texts(old(v)@) + bundle_dirs(p@));
    }
}

fn push_beside(v: &mut Vec<String>, bin: &Option<String>)
    ensures
        texts(final(v)@) == texts(old(v)@) + opt_bundle_dirs(opt_bundle_of(opt_text(*bin))),
{
    if let Some(b) = bin {
        if let Some(d) = bundle_beside(b.as_str()) {
            push_bundle(v, d.as_str());
            return;
        }
    }
    proof {
        assert(texts(v@) =~= texts(v@) + Seq::<Seq<char>>::empty());
    }
}

/// The directories to look at before a slicer is chosen.
pub fn probe_dirs(orca: &Option<String>, bin: &Option<String>, profiles: &Option<String>) -> (r:
    Vec<String>)
    ensures
        texts(r@) == dirs_to_probe(opt_text(*orca), opt_text(*bin), opt_text(*profiles)),
{
    let mut v: Vec<String> = Vec::new();
    proof {
        assert(texts(v@) =~= Seq::<Seq<char>>::empty());
    }
    if let Some(p) = profiles {
        push_bundle(&mut v, p.as_str());
    }
    proof {
        assert(texts(v@) =~= opt_bundle_dirs(opt_text(*profiles)));
    }
    push_beside(&mut v, bin);
    push_beside(&mut v, orca);
    let studio = Some("/opt/bambustudio-bin/bin/bambu-studio".to_owned());
    push_beside(&mut v, &studio);
    push_bundle(&mut v, "/opt/orca-slicer/resources/profiles/BBL");
    push_bundle(&mut v, "/opt/bambustudio-bin/resources/profiles/BBL");
    v
}

/// The files that finding a slicer depends on.
pub open spec fn bins_to_probe(orca: Option<Seq<char>>, bin: Option<Seq<char>>) -> Seq<Seq<char>> {
    let a = match bin {
        Some(b) => seq![b],
        None => Seq::empty(),
    };
    let o = match orca {
        Some(b) => seq![b],
        None => Seq::empty(),
    };
    a + o + seq![studio_bin()]
}

/// The files to look at before a slicer is chosen.
pub fn probe_bins(orca: &Option<String>, bin: &Option<String>) -> (r: Vec<String>)
    ensures
        texts(r@) == bins_to_probe(opt_text(*orca), opt_text(*bin)),
{
    let mut v: Vec<String> = Vec::new();
    if let Some(b) = bin {
        v.push(b.clone());
    }
    if let Some(b) = orca {
        v.push(b.clone());
    }
    v.push("/opt/bambustudio-bin/bin/bambu-studio".to_owned());
    proof {
        assert(texts(v@) =~= bins_to_probe(opt_text(*orca), opt_text(*bin)));
    }
    v
}

/// Two machines have the same of these directories.
pub open spec fn agree(h: Host, g: Host, dirs: Seq<Seq<char>>) -> bool {
    forall|i: int| 0 <= i < dirs.len() ==> h.has_dir(#[trigger] dirs[i]) == g.has_dir(dirs[i])
}

/// Two machines have the same of these files.
pub open spec fn agree_on_bins(h: Host, g: Host, bins: Seq<Seq<char>>) -> bool {
    forall|i: int| 0 <= i < bins.len() ==> h.runs(#[trigger] bins[i]) == g.runs(bins[i])
}

/// The choice rests on what was to be looked at, and on nothing else: two
/// machines that agree there find the same slicer.
pub proof fn the_probes_decide_the_choice(
    h: Host,
    g: Host,
    bin: Option<Seq<char>>,
    profiles: Option<Seq<char>>,
)
    requires
        opt_text(h.orca) == opt_text(g.orca),
        agree_on_bins(h, g, bins_to_probe(opt_text(h.orca), bin)),
        agree(h, g, dirs_to_probe(opt_text(h.orca), bin, profiles)),
    ensures
        discovered(h, bin, profiles) == discovered(g, bin, profiles),
{
    let orca = opt_text(h.orca);
    let bins = bins_to_probe(orca, bin);
    let n = bins.len() as int;
    assert(bins[n - 1] == studio_bin());
    if orca is Some {
        assert(bins[n - 2] == orca->0);
    }
    if bin is Some {
        assert(bins[0] == bin->0);
    }
    let a = opt_bundle_dirs(profiles);
    let b = opt_bundle_dirs(opt_bundle_of(bin));
    let c = opt_bundle_dirs(opt_bundle_of(orca));
    let d = opt_bundle_dirs(bundle_of(studio_bin()));
    let e = bundle_dirs(orca_profiles());
    let f = bundle_dirs(studio_profiles());
    lemma_agree_parts(h, g, a + b + c + d + e, f);
    lemma_agree_parts(h, g, a + b + c + d, e);
    lemma_agree_parts(h, g, a + b + c, d);
    lemma_agree_parts(h, g, a + b, c);
    lemma_agree_parts(h, g, a, b);
    lemma_bundle_agrees(h, g, orca_profiles());
    lemma_bundle_agrees(h, g, studio_profiles());
    assert(detected(h) == detected(g));
    assert(chosen_bin(h, bin) == chosen_bin(g, bin));
    if profiles is Some {
        lemma_bundle_agrees(h, g, profiles->0);
    }
    if chosen_bin(h, bin) is Ok {
        let x = chosen_bin(h, bin)->Ok_0;
        if bundle_of(x) is Some {
            lemma_bundle_agrees(h, g, bundle_of(x)->0);
        }
        assert(beside(h, x) == beside(g, x));
        assert(chosen_profiles(h, x, profiles) == chosen_profiles(g, x, profiles));
    }
}

proof fn lemma_agree_parts(h: Host, g: Host, x: Seq<Seq<char>>, y: Seq<Seq<char>>)
    requires
        agree(h, g, x + y),
    ensures
        agree(h, g, x),
        agree(h, g, y),
{
    assert forall|i: int| 0 <= i < x.len() implies h.has_dir(#[trigger] x[i]) == g.has_dir(
        x[i],
    ) by {
        assert((x + y)[i] == x[i]);
    }
    assert forall|i: int| 0 <= i < y.len() implies h.has_dir(#[trigger] y[i]) == g.has_dir(
        y[i],
    ) by {
        assert((x + y)[x.len() + i] == y[i]);
    }
}

proof fn lemma_bundle_agrees(h: Host, g: Host, p: Seq<char>)
    requires
        agree(h, g, bundle_dirs(p)),
    ensures
        h.has_dir(p) == g.has_dir(p),
        not_a_bundle(h, p) == not_a_bundle(g, p),
{
    let dirs = bundle_dirs(p);
    assert(dirs[0] == p);
    assert(dirs[1] == inside(p, "machine"@));
    assert(dirs[2] == inside(p, "process"@));
    assert(dirs[3] == inside(p, "filament"@));
}

/// Profiles are never taken from another install: those that were not asked for
/// are beside the chosen slicer, or were found with it.
pub proof fn profiles_belong_to_their_slicer(h: Host, bin: Option<Seq<char>>)
    ensures
        discovered(h, bin, None) matches Ok((b, p)) ==> bundle_of(b) == Some(p) || (detected(
            h,
        ) matches Some((a, q)) && same_path(a, b) && q == p),
        (bin is Some && discovered(h, bin, None) is Ok) ==> discovered(h, bin, None)->Ok_0.0
            == bin->0,
{
}

/// A slicer or a bundle of profiles that was asked for is the one that is used, and
/// is there; the bundle holds all that a slice needs.
pub proof fn what_was_asked_for_is_used(
    h: Host,
    bin: Option<Seq<char>>,
    profiles: Option<Seq<char>>,
    b: Seq<char>,
    p: Seq<char>,
)
    requires
        discovered(h, bin, profiles) == Ok::<(Seq<char>, Seq<char>), Seq<char>>((b, p)),
    ensures
        bin matches Some(x) ==> x == b,
        profiles matches Some(x) ==> x == p,
        among(h.executables@, b),
        among(h.directories@, p),
        p.len() > 0 && p.last() != '/' ==> among(h.directories@, p + "/"@ + "machine"@) && among(
            h.directories@,
            p + "/"@ + "process"@,
        ) && among(h.directories@, p + "/"@ + "filament"@),
        bin is None ==> (h.orca matches Some(o) && o@ == b) || b
            == "/opt/bambustudio-bin/bin/bambu-studio"@,
{
}

/// A slicer that is there, with a bundle that is there and complete, is found; where
/// none was asked for, the first choice is Orca, and then Bambu Studio.
pub proof fn an_installed_slicer_is_found(h: Host, b: Seq<char>, p: Seq<char>)
    requires
        among(h.directories@, p),
        p.len() > 0,
        p.last() != '/',
        among(h.directories@, p + "/"@ + "machine"@),
        among(h.directories@, p + "/"@ + "process"@),
        among(h.directories@, p + "/"@ + "filament"@),
        among(h.executables@, b),
    ensures
        discovered(h, Some(b), Some(p)) == Ok::<(Seq<char>, Seq<char>), Seq<char>>((b, p)),
        h.orca matches Some(o) && o@ == b && among(
            h.directories@,
            "/opt/orca-slicer/resources/profiles/BBL"@,
        ) ==> discovered(h, None, Some(p)) == Ok::<(Seq<char>, Seq<char>), Seq<char>>((b, p)),
        h.orca is None && b == "/opt/bambustudio-bin/bin/bambu-studio"@ && among(
            h.directories@,
            "/opt/bambustudio-bin/resources/profiles/BBL"@,
        ) ==> discovered(h, None, Some(p)) == Ok::<(Seq<char>, Seq<char>), Seq<char>>((b, p)),
{
}

proof fn lemma_split_path(dir: Seq<char>, name: Seq<char>)
    requires
        dir.len() > 0,
        dir.last() != '/',
        dir.last() != '.',
        name.len() > 0,
        !name.contains('/'),
        name.last() != '.',
    ensures
        parent(dir + "/"@ + name) == Some(dir),
        last_component(dir + "/"@ + name) == name,
{
    reveal_strlit("/");
    let p = dir + "/"@ + name;
    let n = p.len() as int;
    assert(p.last() == name.last());
    assert(name.contains(name.last()));
    assert(without_trailing_dots(p) == p);
    assert forall|j: int| dir.len() + 1 <= j < n implies p[j] != '/' by {
        assert(name[j - dir.len() - 1] == p[j]);
    }
    crate::text::lemma_after_last(p, '/', dir.len() as int + 1);
    assert(p.skip(dir.len() as int + 1) =~= name);
    let head = p.take(n - name.len());
    assert(head =~= dir.push('/'));
    reveal_with_fuel(without_trailing_dots, 2);
    assert(head.drop_last() =~= dir);
    assert(head.last() == '/');
    assert(without_trailing_dots(head) == dir);
}

/// A slicer is called by the name of its file, and a binary at `prefix/bin/name` has
/// its profiles at `prefix/resources/profiles/BBL`; Bambu Studio is given the
/// directory that it lies in for its libraries, and no other slicer is given any.
pub proof fn a_slicer_is_known_by_where_it_lies(prefix: Seq<char>, name: Seq<char>)
    requires
        prefix.len() > 0,
        prefix.last() != '/',
        prefix.last() != '.',
        name.len() > 0,
        !name.contains('/'),
        name.last() != '.',
    ensures
        bundle_of(prefix + "/"@ + "bin"@ + "/"@ + name) == Some(
            prefix + "/"@ + "resources/profiles/BBL"@,
        ),
        slicer_kind(prefix + "/"@ + "bin"@ + "/"@ + name) == name,
        "bambu-studio"@.is_prefix_of(name) ==> slicer_env(
            prefix + "/"@ + "bin"@ + "/"@ + name,
        ).contains(("LD_LIBRARY_PATH"@, prefix + "/"@ + "bin"@)) && slicer_env(
            prefix + "/"@ + "bin"@ + "/"@ + name,
        ).contains(("LC_ALL"@, "C"@)),
        !"bambu-studio"@.is_prefix_of(name) ==> slicer_env(
            prefix + "/"@ + "bin"@ + "/"@ + name,
        ).len() == 0,
{
    reveal_strlit("bin");
    reveal_strlit(".");
    reveal_strlit("..");
    let dir = prefix + "/"@ + "bin"@;
    let bin = dir + "/"@ + name;
    assert(dir.last() == 'n');
    assert(!"bin"@.contains('/'));
    assert("bin"@.last() == 'n');
    lemma_split_path(prefix, "bin"@);
    lemma_split_path(dir, name);
    assert(name != "."@ && name != ".."@) by {
        assert("."@.last() == '.');
        assert(".."@.last() == '.');
    }
    if "bambu-studio"@.is_prefix_of(name) {
        let env = slicer_env(bin);
        assert(env[0] == ("LD_LIBRARY_PATH"@, dir));
        assert(env[1] == ("LC_ALL"@, "C"@));
    }
}

} // verus!
