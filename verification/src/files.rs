//! The printer's storage: what may be read of it, what is taken out of a sliced
//! file, and what is kept of it for the next request.
use vstd::prelude::*;

use crate::number::{decimal, digits, padded, padded_decimal};
use crate::paths::{from_root, is_safe_remote_path, rooted, safe_remote_path};
use crate::reply::{bad, bad_request, Refusal, Reply};
use crate::start::is_three_mf;
use crate::text::{debug_text, ends_with, join2, join3, join5, lower, quoted, same_text, to_lower};

verus! {

/// One entry of a directory on the printer.
#[derive(Debug)]
pub struct FileEntry {
    pub name: String,
    pub is_dir: bool,
    pub size: u64,
}

impl FileEntry {
    pub open spec fn same(self, other: FileEntry) -> bool {
        self.name@ == other.name@ && self.is_dir == other.is_dir && self.size == other.size
    }

    pub fn copy(&self) -> (r: FileEntry)
        ensures
            r.same(*self),
    {
        FileEntry { name: self.name.clone(), is_dir: self.is_dir, size: self.size }
    }
}

/// Two listings with the same entries in the same order.
pub open spec fn same_entries(a: Seq<FileEntry>, b: Seq<FileEntry>) -> bool {
    a.len() == b.len() && forall|i: int| 0 <= i < a.len() ==> (#[trigger] a[i]).same(b[i])
}

pub fn copy_entries(v: &Vec<FileEntry>) -> (r: Vec<FileEntry>)
    ensures
        same_entries(r@, v@),
{
    let mut r: Vec<FileEntry> = Vec::new();
    let mut i: usize = 0;
    while i < v.len()
        invariant
            i <= v@.len(),
            r@.len() == i,
            forall|j: int| 0 <= j < i ==> (#[trigger] r@[j]).same(v@[j]),
        decreases v@.len() - i,
    {
        r.push(v[i].copy());
        i += 1;
    }
    r
}

/// Lists and uploads files on the printer, and fetches what a viewer shows.
pub trait FileStore {
    /// List a directory.
    fn list(&self, dir: &str) -> Result<Vec<FileEntry>, String>;

    /// Upload the staged file at `local`.
    fn upload(&self, remote_path: &str, local: &str) -> Result<(), String>;

    /// The plate preview embedded in a sliced `.3mf`.
    fn thumbnail(&self, remote_path: &str, plate: u32) -> Result<Option<Vec<u8>>, String>;

    /// A file's bytes.
    fn fetch(&self, remote_path: &str) -> Result<Vec<u8>, String>;

    /// The plate's G-code embedded in a sliced `.3mf`.
    fn gcode(&self, remote_path: &str, plate: u32) -> Result<Option<Vec<u8>>, String>;
}

/// The most bytes that are handed to a viewer.
pub const RAW_MAX: u64 = 67_108_864;

/// Refuse a file that is too large to view.
pub fn viewable(len: u64) -> (r: Result<(), String>)
    ensures
        match r {
            Ok(_) => len <= RAW_MAX,
            Err(e) => len > RAW_MAX && e@ == "file too large to view ("@ + digits(len as nat)
                + " bytes)"@,
        },
{
    if len > RAW_MAX {
        let d = decimal(len);
        Err(join3("file too large to view (", d.as_str(), " bytes)"))
    } else {
        Ok(())
    }
}

// ── Out of an archive ───────────────────────────────────────────────────────

/// What reading the entry `name` out of the archive `bytes` gives: its bytes,
/// none where there is no such entry, or why the archive cannot be read.
pub uninterp spec fn zip_entry_of(bytes: Seq<u8>, name: Seq<char>) -> Result<
    Option<Seq<u8>>,
    Seq<char>,
>;

/// The result of reading an entry, by its bytes and its text.
pub open spec fn entry_view(r: Result<Option<Vec<u8>>, String>) -> Result<
    Option<Seq<u8>>,
    Seq<char>,
> {
    match r {
        Ok(Some(b)) => Ok(Some(b@)),
        Ok(None) => Ok(None),
        Err(e) => Err(e@),
    }
}

/// Opens the archive with `zip::ZipArchive::new`, looks the entry up with
/// `ZipArchive::by_name` and reads it to its end: the archive's bytes and the
/// name alone decide what comes out. An entry that cannot be looked up counts as
/// absent.
#[verifier::external_body]
fn zip_entry(bytes: &[u8], name: &str) -> (r: Result<Option<Vec<u8>>, String>)
    ensures
        entry_view(r) == zip_entry_of(bytes@, name@),
{
    let mut archive = zip::ZipArchive::new(std::io::Cursor::new(bytes)).map_err(|e| e.to_string())?;
    let mut entry = match archive.by_name(name) {
        Ok(e) => e,
        Err(_) => return Ok(None),
    };
    let mut body: Vec<u8> = Vec::new();
    std::io::Read::read_to_end(&mut entry, &mut body).map_err(|e| e.to_string())?;
    Ok(Some(body))
}

/// An entry with nothing in it counts as none.
pub open spec fn unless_empty(r: Result<Option<Seq<u8>>, Seq<char>>) -> Result<
    Option<Seq<u8>>,
    Seq<char>,
> {
    match r {
        Ok(Some(b)) => if b.len() == 0 {
            Ok(None)
        } else {
            Ok(Some(b))
        },
        other => other,
    }
}

/// The first of two entries that has something in it; an archive that cannot be
/// read is an error at once.
pub open spec fn first_filled(
    a: Result<Option<Seq<u8>>, Seq<char>>,
    b: Result<Option<Seq<u8>>, Seq<char>>,
) -> Result<Option<Seq<u8>>, Seq<char>> {
    match unless_empty(a) {
        Ok(None) => unless_empty(b),
        other => other,
    }
}

/// An entry with nothing in it counts as none.
pub fn filled(entry: Result<Option<Vec<u8>>, String>) -> (r: Result<Option<Vec<u8>>, String>)
    ensures
        entry_view(r) == unless_empty(entry_view(entry)),
{
    match entry {
        Ok(Some(b)) => if b.len() == 0 {
            Ok(None)
        } else {
            Ok(Some(b))
        },
        other => other,
    }
}

/// The preview of a plate: the full one where it has something in it, else the
/// small one.
pub fn preview_of(
    full: Result<Option<Vec<u8>>, String>,
    small: Result<Option<Vec<u8>>, String>,
) -> (r: Result<Option<Vec<u8>>, String>)
    ensures
        entry_view(r) == first_filled(entry_view(full), entry_view(small)),
{
    match filled(full) {
        Ok(None) => filled(small),
        other => other,
    }
}

/// The name of a plate's G-code in a sliced file.
pub open spec fn gcode_entry(plate: u32) -> Seq<char> {
    "Metadata/plate_"@ + digits(plate as nat) + ".gcode"@
}

/// The name of a plate's preview in a sliced file.
pub open spec fn preview_entry(plate: u32) -> Seq<char> {
    "Metadata/plate_"@ + digits(plate as nat) + ".png"@
}

/// The name of a plate's small preview in a sliced file.
pub open spec fn small_preview_entry(plate: u32) -> Seq<char> {
    "Metadata/plate_"@ + digits(plate as nat) + "_small.png"@
}

/// The plate's G-code in a sliced file; none where it is absent or empty.
pub fn extract_gcode(bytes: &[u8], plate: u32) -> (r: Result<Option<Vec<u8>>, String>)
    ensures
        entry_view(r) == unless_empty(zip_entry_of(bytes@, gcode_entry(plate))),
{
    let n = decimal(plate as u64);
    let name = join3("Metadata/plate_", n.as_str(), ".gcode");
    filled(zip_entry(bytes, name.as_str()))
}

/// The plate's preview in a sliced file, or its small one; none where neither
/// has anything in it.
pub fn extract_thumbnail(bytes: &[u8], plate: u32) -> (r: Result<Option<Vec<u8>>, String>)
    ensures
        entry_view(r) == first_filled(
            zip_entry_of(bytes@, preview_entry(plate)),
            zip_entry_of(bytes@, small_preview_entry(plate)),
        ),
{
    let n = decimal(plate as u64);
    let name = join3("Metadata/plate_", n.as_str(), ".png");
    let small = join3("Metadata/plate_", n.as_str(), "_small.png");
    preview_of(zip_entry(bytes, name.as_str()), zip_entry(bytes, small.as_str()))
}

// ── Requests ────────────────────────────────────────────────────────────────

/// The plate a request means that names none.
pub fn default_plate() -> (r: u32)
    ensures
        r == 1,
{
    1
}

/// A path that only a sliced project may be read at.
pub open spec fn readable_three_mf(name: Seq<char>) -> bool {
    safe_remote_path(rooted(name)) && is_three_mf(rooted(name))
}

pub open spec fn bad_plate(plate: u32) -> Option<Refusal> {
    if 1 <= plate <= 64 {
        None
    } else {
        Some(bad("plate out of range (1..64)"@))
    }
}

pub open spec fn not_three_mf(what: Seq<char>, name: Seq<char>) -> Option<Refusal> {
    if readable_three_mf(name) {
        None
    } else {
        Some(bad(what + " needs a .3mf printer path: "@ + debug_text(name)))
    }
}

fn three_mf_path(name: &str) -> (r: Option<String>)
    ensures
        match r {
            Some(p) => readable_three_mf(name@) && p@ == rooted(name@),
            None => !readable_three_mf(name@),
        },
{
    let remote = from_root(name);
    let lowered = to_lower(remote.as_str());
    if is_safe_remote_path(remote.as_str()) && ends_with(lowered.as_str(), ".3mf") {
        Some(remote)
    } else {
        None
    }
}

/// The path a plate is read at: the preview, and the toolpath. It means fetching
/// the whole file, so it is a sliced project at a safe path and a plate in range.
fn plate_path(what: &str, name: &str, plate: u32) -> (r: Result<String, Reply>)
    ensures
        match r {
            Ok(p) => not_three_mf(what@, name@) is None && bad_plate(plate) is None && p@ == rooted(
                name@,
            ),
            Err(reply) => crate::reply::or_refuse(not_three_mf(what@, name@), bad_plate(plate))
                == Some(reply@),
        },
{
    match three_mf_path(name) {
        None => {
            let q = quoted(name);
            Err(bad_request(join3(what, " needs a .3mf printer path: ", q.as_str())))
        },
        Some(p) => if 1 <= plate && plate <= 64 {
            Ok(p)
        } else {
            Err(bad_request("plate out of range (1..64)".to_owned()))
        },
    }
}

/// Where to read a plate's preview.
pub fn file_thumbnail(name: &str, plate: u32) -> (r: Result<String, Reply>)
    ensures
        match r {
            Ok(p) => readable_three_mf(name@) && bad_plate(plate) is None && p@ == rooted(name@),
            Err(reply) => crate::reply::or_refuse(
                not_three_mf("thumbnail"@, name@),
                bad_plate(plate),
            ) == Some(reply@),
        },
{
    plate_path("thumbnail", name, plate)
}

/// Where to read a plate's toolpath.
pub fn file_gcode(name: &str, plate: u32) -> (r: Result<String, Reply>)
    ensures
        match r {
            Ok(p) => readable_three_mf(name@) && bad_plate(plate) is None && p@ == rooted(name@),
            Err(reply) => crate::reply::or_refuse(not_three_mf("gcode"@, name@), bad_plate(plate))
                == Some(reply@),
        },
{
    plate_path("gcode", name, plate)
}

/// Where to read a project's meshes.
pub fn file_mesh(name: &str) -> (r: Result<String, Reply>)
    ensures
        match r {
            Ok(p) => readable_three_mf(name@) && p@ == rooted(name@),
            Err(reply) => not_three_mf("mesh"@, name@) == Some(reply@),
        },
{
    match three_mf_path(name) {
        Some(p) => Ok(p),
        None => {
            let q = quoted(name);
            Err(bad_request(join3("mesh", " needs a .3mf printer path: ", q.as_str())))
        },
    }
}

/// A path whose bytes a viewer may be handed.
pub open spec fn readable_raw(name: Seq<char>) -> bool {
    safe_remote_path(rooted(name)) && (is_three_mf(rooted(name)) || ".gcode"@.is_suffix_of(
        lower(rooted(name)),
    ))
}

/// The content type a file's bytes are served under.
pub open spec fn raw_content_type(name: Seq<char>) -> Seq<char> {
    if ".gcode"@.is_suffix_of(lower(rooted(name))) {
        "text/plain; charset=utf-8"@
    } else {
        "application/octet-stream"@
    }
}

/// Where to read a file's bytes, and the content type to serve them under.
pub fn file_raw(name: &str) -> (r: Result<(String, &'static str), Reply>)
    ensures
        match r {
            Ok(p) => readable_raw(name@) && p.0@ == rooted(name@) && p.1@ == raw_content_type(
                name@,
            ),
            Err(reply) => !readable_raw(name@) && reply@ == bad(
                "viewer needs a .3mf/.gcode path: "@ + debug_text(name@),
            ),
        },
{
    let remote = from_root(name);
    let lowered = to_lower(remote.as_str());
    let gcode: bool = ends_with(lowered.as_str(), ".gcode");
    if !is_safe_remote_path(remote.as_str()) || !(ends_with(lowered.as_str(), ".3mf") || gcode) {
        let q = quoted(name);
        return Err(bad_request(join2("viewer needs a .3mf/.gcode path: ", q.as_str())));
    }
    let ctype = if gcode {
        "text/plain; charset=utf-8"
    } else {
        "application/octet-stream"
    };
    Ok((remote, ctype))
}

/// What an inspection request is answered before anything is read.
#[derive(Debug)]
pub enum InspectRequest {
    /// Read and inspect this path.
    Read(String),
    /// Nothing to inspect there: told as such, and no error.
    NotInspected(String),
    Refused(Reply),
}

/// Where to inspect a plate. What is no sliced project is a plain "not
/// inspected": whoever asked shows it as unknown.
pub fn file_inspect(name: &str, plate: u32) -> (r: InspectRequest)
    ensures
        if !readable_three_mf(name@) {
            r matches InspectRequest::NotInspected(why) && why@ == "not a .3mf printer path"@
        } else {
            match bad_plate(plate) {
                Some(refused) => r matches InspectRequest::Refused(reply) && reply@ == refused,
                None => r matches InspectRequest::Read(p) && p@ == rooted(name@),
            }
        },
{
    match three_mf_path(name) {
        None => InspectRequest::NotInspected("not a .3mf printer path".to_owned()),
        Some(p) => if 1 <= plate && plate <= 64 {
            InspectRequest::Read(p)
        } else {
            InspectRequest::Refused(bad_request("plate out of range (1..64)".to_owned()))
        },
    }
}

// ── What is kept ────────────────────────────────────────────────────────────

/// How many keys are kept after one more was: a store that was full starts over,
/// and a key that was there is kept once.
pub open spec fn count_after(count: nat, capacity: nat, there: bool) -> nat {
    if count >= capacity {
        1
    } else if there {
        count
    } else {
        count + 1
    }
}

/// A bounded store of what earlier requests found, by key. One that is full
/// starts over.
pub struct Cache<V> {
    entries: Vec<(String, V)>,
    cap: usize,
}

impl<V> Cache<V> {
    spec fn keys_distinct(self) -> bool {
        forall|i: int, j: int|
            #![trigger self.entries@[i], self.entries@[j]]
            0 <= i < j < self.entries@.len() ==> self.entries@[i].0@ != self.entries@[j].0@
    }

    /// No key is kept twice, and no more is kept than fits.
    pub closed spec fn wf(self) -> bool {
        self.keys_distinct() && self.entries@.len() <= self.cap && self.cap > 0
    }

    pub closed spec fn capacity(self) -> nat {
        self.cap as nat
    }

    /// How many keys are kept.
    pub closed spec fn count(self) -> nat {
        self.entries@.len()
    }

    /// A key's place.
    spec fn at(self, key: Seq<char>) -> Option<int> {
        if exists|i: int| 0 <= i < self.entries@.len() && (#[trigger] self.entries@[i]).0@ == key {
            Some(
                choose|i: int|
                    0 <= i < self.entries@.len() && (#[trigger] self.entries@[i]).0@ == key,
            )
        } else {
            None
        }
    }

    /// What is kept under a key.
    pub closed spec fn lookup(self, key: Seq<char>) -> Option<V> {
        match self.at(key) {
            Some(i) => Some(self.entries@[i].1),
            None => None,
        }
    }

    proof fn lemma_at(self, key: Seq<char>, i: int)
        requires
            self.keys_distinct(),
            0 <= i < self.entries@.len(),
            self.entries@[i].0@ == key,
        ensures
            self.lookup(key) == Some(self.entries@[i].1),
    {
        let j = self.at(key)->0;
        assert(self.entries@[j].0@ == key);
    }

    /// An empty store for at most `cap` keys.
    pub fn new(cap: usize) -> (r: Cache<V>)
        requires
            cap > 0,
        ensures
            r.wf(),
            r.capacity() == cap,
            r.count() == 0,
            forall|k: Seq<char>| #[trigger] r.lookup(k) is None,
    {
        Cache { entries: Vec::new(), cap }
    }

    /// What is kept under `key`.
    pub fn get(&self, key: &str) -> (r: Option<&V>)
        requires
            self.wf(),
        ensures
            match r {
                Some(v) => self.lookup(key@) == Some(*v),
                None => self.lookup(key@) is None,
            },
    {
        let mut i: usize = 0;
        while i < self.entries.len()
            invariant
                i <= self.entries@.len(),
                self.wf(),
                forall|j: int| 0 <= j < i ==> (#[trigger] self.entries@[j]).0@ != key@,
            decreases self.entries@.len() - i,
        {
            if same_text(self.entries[i].0.as_str(), key) {
                proof {
                    self.lemma_at(key@, i as int);
                }
                return Some(&self.entries[i].1);
            }
            i += 1;
        }
        None
    }

    /// Forget everything.
    pub fn clear(&mut self)
        requires
            old(self).wf(),
        ensures
            final(self).wf(),
            final(self).capacity() == old(self).capacity(),
            final(self).count() == 0,
            forall|k: Seq<char>| #[trigger] final(self).lookup(k) is None,
    {
        self.entries = Vec::new();
    }

    /// Keep `value` under `key`, in place of what was kept there. Where the store
    /// was full, everything else is forgotten first.
    pub fn insert(&mut self, key: String, value: V)
        requires
            old(self).wf(),
        ensures
            final(self).wf(),
            final(self).capacity() == old(self).capacity(),
            final(self).count() == count_after(
                old(self).count(),
                old(self).capacity(),
                old(self).lookup(key@) is Some,
            ),
            final(self).lookup(key@) == Some(value),
            forall|k: Seq<char>|
                k != key@ ==> #[trigger] final(self).lookup(k) == if old(self).count() >= old(
                    self,
                ).capacity() {
                    None
                } else {
                    old(self).lookup(k)
                },
    {
        let ghost start = *self;
        if self.entries.len() >= self.cap {
            self.clear();
        }
        let ghost base = *self;
        let mut i: usize = 0;
        while i < self.entries.len()
            invariant
                i <= self.entries@.len(),
                *self == base,
                base.wf(),
                base.entries@.len() < base.cap,
                base.cap == start.cap,
                base.count() == if start.count() >= start.capacity() {
                    0
                } else {
                    start.count()
                },
                forall|j: int| 0 <= j < i ==> (#[trigger] self.entries@[j]).0@ != key@,
                forall|k: Seq<char>|
                    #[trigger] base.lookup(k) == if start.count() >= start.capacity() {
                        None
                    } else {
                        start.lookup(k)
                    },
                start == *old(self),
            decreases self.entries@.len() - i,
        {
            if same_text(self.entries[i].0.as_str(), key.as_str()) {
                let ghost k0 = key@;
                self.entries.set(i, (key, value));
                proof {
                    base.lemma_at(k0, i as int);
                    lemma_replaced(base, *self, i as int, k0);
                }
                return;
            }
            i += 1;
        }
        let ghost k0 = key@;
        self.entries.push((key, value));
        proof {
            assert(base.lookup(k0) is None);
            lemma_added(base, *self, k0);
        }
    }
}

proof fn lemma_replaced<V>(before: Cache<V>, after: Cache<V>, i: int, key: Seq<char>)
    requires
        before.wf(),
        0 <= i < before.entries@.len(),
        before.entries@[i].0@ == key,
        after.cap == before.cap,
        after.entries@.len() == before.entries@.len(),
        after.entries@[i].0@ == key,
        forall|j: int|
            0 <= j < before.entries@.len() && j != i ==> #[trigger] after.entries@[j]
                == before.entries@[j],
    ensures
        after.wf(),
        after.lookup(key) == Some(after.entries@[i].1),
        forall|k: Seq<char>| k != key ==> #[trigger] after.lookup(k) == before.lookup(k),
{
    assert(after.keys_distinct()) by {
        assert forall|a: int, b: int|
            #![trigger after.entries@[a], after.entries@[b]]
            0 <= a < b < after.entries@.len() implies after.entries@[a].0@
            != after.entries@[b].0@ by {
            assert(before.entries@[a].0@ != before.entries@[b].0@);
        }
    }
    after.lemma_at(key, i);
    assert forall|k: Seq<char>| k != key implies #[trigger] after.lookup(k) == before.lookup(k) by {
        if let Some(j) = before.at(k) {
            assert(before.entries@[j].0@ == k);
            assert(after.entries@[j] == before.entries@[j]);
            after.lemma_at(k, j);
            before.lemma_at(k, j);
        } else if let Some(j) = after.at(k) {
            assert(after.entries@[j].0@ == k);
            assert(before.entries@[j].0@ == k);
        }
    }
}

proof fn lemma_added<V>(before: Cache<V>, after: Cache<V>, key: Seq<char>)
    requires
        before.wf(),
        before.entries@.len() < before.cap,
        forall|j: int| 0 <= j < before.entries@.len() ==> (#[trigger] before.entries@[j]).0@ != key,
        after.cap == before.cap,
        after.entries@.len() == before.entries@.len() + 1,
        after.entries@.last().0@ == key,
        forall|j: int|
            0 <= j < before.entries@.len() ==> #[trigger] after.entries@[j] == before.entries@[j],
    ensures
        after.wf(),
        after.lookup(key) == Some(after.entries@.last().1),
        forall|k: Seq<char>| k != key ==> #[trigger] after.lookup(k) == before.lookup(k),
{
    let n = before.entries@.len() as int;
    assert(after.keys_distinct()) by {
        assert forall|a: int, b: int|
            #![trigger after.entries@[a], after.entries@[b]]
            0 <= a < b < after.entries@.len() implies after.entries@[a].0@
            != after.entries@[b].0@ by {
            if b < n {
                assert(before.entries@[a].0@ != before.entries@[b].0@);
            } else {
                assert(before.entries@[a].0@ != key);
            }
        }
    }
    after.lemma_at(key, n);
    assert forall|k: Seq<char>| k != key implies #[trigger] after.lookup(k) == before.lookup(k) by {
        if let Some(j) = before.at(k) {
            assert(before.entries@[j].0@ == k);
            assert(after.entries@[j] == before.entries@[j]);
            after.lemma_at(k, j);
            before.lemma_at(k, j);
        } else if let Some(j) = after.at(k) {
            assert(after.entries@[j].0@ == k);
            assert(before.entries@[j].0@ == k);
        }
    }
}

/// How long a listing stays fresh, in milliseconds.
pub const LIST_TTL_MS: u64 = 6000;

/// The largest plate G-code that is kept.
pub const GCODE_CACHE_MAX: usize = 8_388_608;

/// The key of one plate of one file.
pub open spec fn plate_key(path: Seq<char>, plate: u32) -> Seq<char> {
    path + "#"@ + digits(plate as nat)
}

fn key_of(path: &str, plate: u32) -> (r: String)
    ensures
        r@ == plate_key(path@, plate),
{
    let n = decimal(plate as u64);
    join3(path, "#", n.as_str())
}

/// What is kept of the printer's storage, since every look at it is a transfer:
/// listings for a few seconds, and what was taken out of sliced files.
pub struct LiveFiles {
    thumbs: Cache<Option<Vec<u8>>>,
    lists: Cache<(u64, Vec<FileEntry>)>,
    gcodes: Cache<Option<Vec<u8>>>,
}

/// Bytes that may be there, by their contents.
pub open spec fn opt_bytes(b: Option<Vec<u8>>) -> Option<Seq<u8>> {
    match b {
        Some(v) => Some(v@),
        None => None,
    }
}

fn copy_bytes(b: &Option<Vec<u8>>) -> (r: Option<Vec<u8>>)
    ensures
        opt_bytes(r) == opt_bytes(*b),
{
    match b {
        Some(v) => Some(v.clone()),
        None => None,
    }
}

impl LiveFiles {
    pub closed spec fn wf(self) -> bool {
        &&& self.thumbs.wf() && self.thumbs.capacity() == 128
        &&& self.lists.wf() && self.lists.capacity() == 64
        &&& self.gcodes.wf() && self.gcodes.capacity() == 16
    }

    /// The preview kept for a plate.
    pub closed spec fn thumb(self, path: Seq<char>, plate: u32) -> Option<Option<Seq<u8>>> {
        match self.thumbs.lookup(plate_key(path, plate)) {
            Some(b) => Some(opt_bytes(b)),
            None => None,
        }
    }

    /// The toolpath kept for a plate.
    pub closed spec fn toolpath(self, path: Seq<char>, plate: u32) -> Option<Option<Seq<u8>>> {
        match self.gcodes.lookup(plate_key(path, plate)) {
            Some(b) => Some(opt_bytes(b)),
            None => None,
        }
    }

    /// The listing kept for a directory, and when it was made.
    pub closed spec fn listing(self, dir: Seq<char>) -> Option<(u64, Seq<FileEntry>)> {
        match self.lists.lookup(dir) {
            Some(l) => Some((l.0, l.1@)),
            None => None,
        }
    }

    /// How many of each are kept.
    pub closed spec fn counts(self) -> (nat, nat, nat) {
        (self.thumbs.count(), self.lists.count(), self.gcodes.count())
    }

    /// Nothing kept yet.
    pub fn new() -> (r: LiveFiles)
        ensures
            r.wf(),
            r.counts() == (0nat, 0nat, 0nat),
            forall|p: Seq<char>, n: u32| #[trigger] r.thumb(p, n) is None,
            forall|p: Seq<char>, n: u32| #[trigger] r.toolpath(p, n) is None,
            forall|d: Seq<char>| #[trigger] r.listing(d) is None,
    {
        LiveFiles { thumbs: Cache::new(128), lists: Cache::new(64), gcodes: Cache::new(16) }
    }

    /// A listing made less than six seconds before `now`, in milliseconds of one
    /// clock.
    pub fn list(&self, dir: &str, now: u64) -> (r: Option<Vec<FileEntry>>)
        requires
            self.wf(),
        ensures
            match (r, self.listing(dir@)) {
                (Some(v), Some((at, entries))) => now - at < LIST_TTL_MS && same_entries(
                    v@,
                    entries,
                ),
                (Some(_), None) => false,
                (None, Some((at, _))) => now - at >= LIST_TTL_MS,
                (None, None) => true,
            },
    {
        match self.lists.get(dir) {
            Some(kept) => {
                let age: u64 = if now >= kept.0 {
                    now - kept.0
                } else {
                    0
                };
                if age < LIST_TTL_MS {
                    Some(copy_entries(&kept.1))
                } else {
                    None
                }
            },
            None => None,
        }
    }

    /// Keep a listing made at `now`.
    pub fn keep_list(&mut self, dir: &str, now: u64, entries: Vec<FileEntry>)
        requires
            old(self).wf(),
        ensures
            final(self).wf(),
            final(self).counts() == (
                old(self).counts().0,
                count_after(old(self).counts().1, 64, old(self).listing(dir@) is Some),
                old(self).counts().2,
            ),
            final(self).listing(dir@) == Some((now, entries@)),
            forall|d: Seq<char>|
                d != dir@ ==> #[trigger] final(self).listing(d) == if old(self).counts().1 >= 64 {
                    None
                } else {
                    old(self).listing(d)
                },
            forall|p: Seq<char>, n: u32|
                #[trigger] final(self).thumb(p, n) == old(self).thumb(p, n),
            forall|p: Seq<char>, n: u32|
                #[trigger] final(self).toolpath(p, n) == old(self).toolpath(p, n),
    {
        self.lists.insert(dir.to_owned(), (now, entries));
    }

    /// An upload changed a directory: every kept listing is forgotten, so that
    /// the new file shows.
    pub fn uploaded(&mut self)
        requires
            old(self).wf(),
        ensures
            final(self).wf(),
            final(self).counts() == (old(self).counts().0, 0nat, old(self).counts().2),
            forall|d: Seq<char>| #[trigger] final(self).listing(d) is None,
            forall|p: Seq<char>, n: u32|
                #[trigger] final(self).thumb(p, n) == old(self).thumb(p, n),
            forall|p: Seq<char>, n: u32|
                #[trigger] final(self).toolpath(p, n) == old(self).toolpath(p, n),
    {
        self.lists.clear();
    }

    /// The preview kept for a plate; a plate known to have none is kept as such.
    pub fn thumbnail(&self, path: &str, plate: u32) -> (r: Option<Option<Vec<u8>>>)
        requires
            self.wf(),
        ensures
            match r {
                Some(b) => self.thumb(path@, plate) == Some(opt_bytes(b)),
                None => self.thumb(path@, plate) is None,
            },
    {
        let key = key_of(path, plate);
        match self.thumbs.get(key.as_str()) {
            Some(b) => Some(copy_bytes(b)),
            None => None,
        }
    }

    /// Keep a plate's preview.
    pub fn keep_thumbnail(&mut self, path: &str, plate: u32, thumb: Option<Vec<u8>>)
        requires
            old(self).wf(),
        ensures
            final(self).wf(),
            final(self).counts() == (
                count_after(old(self).counts().0, 128, old(self).thumb(path@, plate) is Some),
                old(self).counts().1,
                old(self).counts().2,
            ),
            final(self).thumb(path@, plate) == Some(opt_bytes(thumb)),
            forall|p: Seq<char>, n: u32|
                !(p == path@ && n == plate) ==> #[trigger] final(self).thumb(p, n) == if old(
                    self,
                ).counts().0 >= 128 {
                    None
                } else {
                    old(self).thumb(p, n)
                },
            forall|d: Seq<char>| #[trigger] final(self).listing(d) == old(self).listing(d),
            forall|p: Seq<char>, n: u32|
                #[trigger] final(self).toolpath(p, n) == old(self).toolpath(p, n),
    {
        let key = key_of(path, plate);
        proof {
            assert forall|p: Seq<char>, n: u32|
                !(p == path@ && n == plate) implies #[trigger] plate_key(p, n) != plate_key(
                path@,
                plate,
            ) by {
                if plate_key(p, n) == plate_key(path@, plate) {
                    plate_keys_are_distinct(p, path@, n, plate);
                }
            }
        }
        self.thumbs.insert(key, thumb);
    }

    /// The toolpath kept for a plate.
    pub fn gcode(&self, path: &str, plate: u32) -> (r: Option<Option<Vec<u8>>>)
        requires
            self.wf(),
        ensures
            match r {
                Some(b) => self.toolpath(path@, plate) == Some(opt_bytes(b)),
                None => self.toolpath(path@, plate) is None,
            },
    {
        let key = key_of(path, plate);
        match self.gcodes.get(key.as_str()) {
            Some(b) => Some(copy_bytes(b)),
            None => None,
        }
    }

    /// Keep a plate's toolpath, unless it is too large to keep.
    pub fn keep_gcode(&mut self, path: &str, plate: u32, gcode: &Option<Vec<u8>>)
        requires
            old(self).wf(),
        ensures
            final(self).wf(),
            (gcode matches Some(g) && g@.len() > GCODE_CACHE_MAX) ==> *final(self) == *old(self),
            !(gcode matches Some(g) && g@.len() > GCODE_CACHE_MAX) ==> final(self).counts() == (
                old(self).counts().0,
                old(self).counts().1,
                count_after(old(self).counts().2, 16, old(self).toolpath(path@, plate) is Some),
            ),
            !(gcode matches Some(g) && g@.len() > GCODE_CACHE_MAX) ==> final(self).toolpath(
                path@,
                plate,
            ) == Some(opt_bytes(*gcode)),
            !(gcode matches Some(g) && g@.len() > GCODE_CACHE_MAX) ==> forall|
                p: Seq<char>,
                n: u32,
            |
                !(p == path@ && n == plate) ==> #[trigger] final(self).toolpath(p, n) == if old(
                    self,
                ).counts().2 >= 16 {
                    None
                } else {
                    old(self).toolpath(p, n)
                },
            forall|d: Seq<char>| #[trigger] final(self).listing(d) == old(self).listing(d),
            forall|p: Seq<char>, n: u32|
                #[trigger] final(self).thumb(p, n) == old(self).thumb(p, n),
    {
        let small: bool = match gcode {
            Some(g) => g.len() <= GCODE_CACHE_MAX,
            None => true,
        };
        if small {
            let key = key_of(path, plate);
            proof {
                assert forall|p: Seq<char>, n: u32|
                    !(p == path@ && n == plate) implies #[trigger] plate_key(p, n) != plate_key(
                    path@,
                    plate,
                ) by {
                    if plate_key(p, n) == plate_key(path@, plate) {
                        plate_keys_are_distinct(p, path@, n, plate);
                    }
                }
            }
            self.gcodes.insert(key, copy_bytes(gcode));
        }
    }
}

// ── A canned store ──────────────────────────────────────────────────────────

/// A canned file store.
pub struct FakeFiles;

/// One of the entries that the canned store lists.
pub open spec fn is_entry(e: FileEntry, name: Seq<char>, is_dir: bool, size: u64) -> bool {
    e.name@ == name && e.is_dir == is_dir && e.size == size
}

/// The bytes of a picture of one pixel.
pub open spec fn tiny_png_bytes() -> Seq<u8> {
    seq![
        0x89, 0x50, 0x4e, 0x47, 0x0d, 0x0a, 0x1a, 0x0a, 0x00, 0x00, 0x00, 0x0d, 0x49, 0x48, 0x44, 0x52,
        0x00, 0x00, 0x00, 0x01, 0x00, 0x00, 0x00, 0x01, 0x08, 0x02, 0x00, 0x00, 0x00, 0x90, 0x77, 0x53,
        0xde, 0x00, 0x00, 0x00, 0x0c, 0x49, 0x44, 0x41, 0x54, 0x08, 0xd7, 0x63, 0xf8, 0xcf, 0xc0, 0x00,
        0x00, 0x00, 0x03, 0x01, 0x01, 0x00, 0x18, 0xdd, 0x8d, 0xb0, 0x00, 0x00, 0x00, 0x00, 0x49, 0x45,
        0x4e, 0x44, 0xae, 0x42, 0x60, 0x82,
    ]
}

/// A picture of one pixel: the canned preview.
pub fn tiny_png() -> (r: Vec<u8>)
    ensures
        r@ == tiny_png_bytes(),
{
    let r: Vec<u8> = vec![
        0x89, 0x50, 0x4e, 0x47, 0x0d, 0x0a, 0x1a, 0x0a, 0x00, 0x00, 0x00, 0x0d, 0x49, 0x48, 0x44, 0x52,
        0x00, 0x00, 0x00, 0x01, 0x00, 0x00, 0x00, 0x01, 0x08, 0x02, 0x00, 0x00, 0x00, 0x90, 0x77, 0x53,
        0xde, 0x00, 0x00, 0x00, 0x0c, 0x49, 0x44, 0x41, 0x54, 0x08, 0xd7, 0x63, 0xf8, 0xcf, 0xc0, 0x00,
        0x00, 0x00, 0x03, 0x01, 0x01, 0x00, 0x18, 0xdd, 0x8d, 0xb0, 0x00, 0x00, 0x00, 0x00, 0x49, 0x45,
        0x4e, 0x44, 0xae, 0x42, 0x60, 0x82,
    ];
    proof {
        assert(r@ =~= tiny_png_bytes());
    }
    r
}

/// An amount in hundredths, with two decimals.
pub open spec fn two_decimals(hundredths: nat) -> Seq<char> {
    digits(hundredths / 100) + "."@ + padded(hundredths % 100, 2)
}

/// One extruding move to a corner of the square.
pub open spec fn corner(x: Seq<char>, y: Seq<char>, e: nat) -> Seq<char> {
    "G1 X"@ + x + " Y"@ + y + " E"@ + digits(e) + ".000 F1200\n"@
}

/// One layer of the canned toolpath: up by a fifth of a millimetre, and once
/// round a square of 20 mm.
pub open spec fn fake_layer(layer: nat) -> Seq<char> {
    "G1 Z"@ + two_decimals((layer + 1) * 20) + " F600\nG1 X10 Y10 F3000\n"@ + corner(
        "30.0"@,
        "10.0"@,
        layer * 4 + 1,
    ) + corner("30.0"@, "30.0"@, layer * 4 + 2) + corner("10.0"@, "30.0"@, layer * 4 + 3) + corner(
        "10.0"@,
        "10.0"@,
        layer * 4 + 4,
    )
}

/// The first `n` layers of the canned toolpath.
pub open spec fn fake_layers(n: nat) -> Seq<char>
    decreases n,
{
    if n == 0 {
        "; fake sample toolpath\nG21\nG90\nM82\n"@
    } else {
        fake_layers((n - 1) as nat) + fake_layer((n - 1) as nat)
    }
}

fn push_corner(s: &mut String, x: &str, y: &str, e: u64)
    ensures
        final(s)@ == old(s)@ + corner(x@, y@, e as nat),
{
    let n = decimal(e);
    let head = join5("G1 X", x, " Y", y, " E");
    let line = join3(head.as_str(), n.as_str(), ".000 F1200\n");
    s.append(line.as_str());
}

/// A small toolpath: six layers round a square, with extruding moves.
pub fn fake_gcode() -> (r: String)
    ensures
        r@ == fake_layers(6),
{
    let mut s: String = "; fake sample toolpath\nG21\nG90\nM82\n".to_owned();
    let mut layer: u64 = 0;
    while layer < 6
        invariant
            layer <= 6,
            s@ == fake_layers(layer as nat),
        decreases 6 - layer,
    {
        let h: u64 = (layer + 1) * 20;
        let whole = decimal(h / 100);
        let part = padded_decimal(h % 100, 2);
        let z = join3(whole.as_str(), ".", part.as_str());
        let head = join3("G1 Z", z.as_str(), " F600\nG1 X10 Y10 F3000\n");
        let ghost before = s@;
        s.append(head.as_str());
        push_corner(&mut s, "30.0", "10.0", layer * 4 + 1);
        push_corner(&mut s, "30.0", "30.0", layer * 4 + 2);
        push_corner(&mut s, "10.0", "30.0", layer * 4 + 3);
        push_corner(&mut s, "10.0", "10.0", layer * 4 + 4);
        proof {
            assert(s@ =~= before + fake_layer(layer as nat));
        }
        layer += 1;
    }
    s
}

impl FileStore for FakeFiles {
    fn list(&self, dir: &str) -> (r: Result<Vec<FileEntry>, String>)
        ensures
            r matches Ok(v) && {
                &&& v@.len() == 4
                &&& is_entry(v@[0], "cache"@, true, 0)
                &&& is_entry(v@[1], "timelapse"@, true, 0)
                &&& is_entry(v@[2], "coin2c.gcode.3mf"@, false, 184_320)
                &&& is_entry(v@[3], "benchy_2c.3mf"@, false, 256_000)
            },
    {
        Ok(
            vec![
                FileEntry { name: "cache".to_owned(), is_dir: true, size: 0 },
                FileEntry { name: "timelapse".to_owned(), is_dir: true, size: 0 },
                FileEntry { name: "coin2c.gcode.3mf".to_owned(), is_dir: false, size: 184_320 },
                FileEntry { name: "benchy_2c.3mf".to_owned(), is_dir: false, size: 256_000 },
            ],
        )
    }

    fn upload(&self, remote_path: &str, local: &str) -> (r: Result<(), String>)
        ensures
            r is Ok,
    {
        Ok(())
    }

    fn thumbnail(&self, remote_path: &str, plate: u32) -> (r: Result<Option<Vec<u8>>, String>)
        ensures
            r matches Ok(Some(b)) && b@ == tiny_png_bytes(),
    {
        Ok(Some(tiny_png()))
    }

    fn fetch(&self, remote_path: &str) -> (r: Result<Vec<u8>, String>)
        ensures
            r matches Ok(b) && b@ == vstd::utf8::encode_utf8("fake-model"@),
    {
        Ok("fake-model".as_bytes_vec())
    }

    fn gcode(&self, remote_path: &str, plate: u32) -> (r: Result<Option<Vec<u8>>, String>)
        ensures
            r matches Ok(Some(b)) && b@ == vstd::utf8::encode_utf8(fake_layers(6)),
    {
        let g = fake_gcode();
        Ok(Some(g.as_str().as_bytes_vec()))
    }
}

// ── Laws ────────────────────────────────────────────────────────────────────

/// Two plates never share a key, whatever their files are called.
pub proof fn plate_keys_are_distinct(p: Seq<char>, q: Seq<char>, m: u32, n: u32)
    requires
        plate_key(p, m) == plate_key(q, n),
    ensures
        p == q,
        m == n,
{
    reveal_strlit("#");
    crate::number::digits_read_back(m as nat);
    crate::number::digits_read_back(n as nat);
    let k = plate_key(p, m);
    let a = p.len() as int;
    let b = q.len() as int;
    assert(k.len() == a + 1 + digits(m as nat).len());
    assert(k.len() == b + 1 + digits(n as nat).len());
    assert(k[a] == '#' && k[b] == '#');
    assert(forall|i: int| 0 <= i < digits(m as nat).len() ==> k[a + 1 + i] == #[trigger] digits(m as nat)[i]);
    assert(forall|i: int| 0 <= i < digits(n as nat).len() ==> k[b + 1 + i] == #[trigger] digits(n as nat)[i]);
    if a < b {
        assert(k[a + 1 + (b - a - 1)] == digits(m as nat)[b - a - 1]);
        assert(crate::text::is_digit(digits(m as nat)[b - a - 1]));
    }
    if b < a {
        assert(k[b + 1 + (a - b - 1)] == digits(n as nat)[a - b - 1]);
        assert(crate::text::is_digit(digits(n as nat)[a - b - 1]));
    }
    assert(k.take(a) =~= p);
    assert(k.take(a) =~= q);
    assert(k.skip(a + 1) =~= digits(m as nat));
    assert(k.skip(a + 1) =~= digits(n as nat));
    crate::number::digits_distinct(m as nat, n as nat);
}

/// What is kept never outgrows its bounds, whatever the keys a caller asks with.
pub proof fn kept_files_stay_bounded(f: LiveFiles)
    requires
        f.wf(),
    ensures
        f.counts().0 <= 128,
        f.counts().1 <= 64,
        f.counts().2 <= 16,
{
}

/// A plate's G-code and its two previews are entries of their own, by its number.
pub proof fn a_plate_has_entries_of_its_own(m: u32, n: u32)
    ensures
        gcode_entry(m) == gcode_entry(n) <==> m == n,
        preview_entry(m) == preview_entry(n) <==> m == n,
        small_preview_entry(m) == small_preview_entry(n) <==> m == n,
        ("Metadata/plate_"@ + digits(m as nat)).is_prefix_of(gcode_entry(m)),
        ("Metadata/plate_"@ + digits(m as nat)).is_prefix_of(preview_entry(m)),
        ("Metadata/plate_"@ + digits(m as nat)).is_prefix_of(small_preview_entry(m)),
        ".gcode"@.is_suffix_of(gcode_entry(m)),
        ".png"@.is_suffix_of(preview_entry(m)),
        "_small.png"@.is_suffix_of(small_preview_entry(m)),
        gcode_entry(m).len() == 21 + digits(m as nat).len(),
        preview_entry(m).len() == 19 + digits(m as nat).len(),
        small_preview_entry(m).len() == 25 + digits(m as nat).len(),
{
    reveal_strlit("Metadata/plate_");
    reveal_strlit(".gcode");
    reveal_strlit(".png");
    reveal_strlit("_small.png");
    let h = "Metadata/plate_"@;
    let dm = digits(m as nat);
    let dn = digits(n as nat);
    lemma_between(h, dm, dn, ".gcode"@);
    lemma_between(h, dm, dn, ".png"@);
    lemma_between(h, dm, dn, "_small.png"@);
    if dm == dn {
        crate::number::digits_distinct(m as nat, n as nat);
    }
}

proof fn lemma_between(h: Seq<char>, a: Seq<char>, b: Seq<char>, t: Seq<char>)
    ensures
        h + a + t == h + b + t <==> a == b,
        (h + a).is_prefix_of(h + a + t),
        t.is_suffix_of(h + a + t),
{
    let x = h + a + t;
    let y = h + b + t;
    if x == y {
        assert(x.len() == y.len());
        assert(x.subrange(h.len() as int, x.len() - t.len()) =~= a);
        assert(y.subrange(h.len() as int, y.len() - t.len()) =~= b);
    }
    assert(x.subrange(0, (h + a).len() as int) =~= h + a);
    assert(x.subrange(x.len() - t.len(), x.len() as int) =~= t);
}

/// The preview is the full one where that has anything in it; the small one stands in
/// for it only where it does not, and nothing empty is ever given.
pub proof fn the_full_preview_comes_first(
    full: Result<Option<Seq<u8>>, Seq<char>>,
    small: Result<Option<Seq<u8>>, Seq<char>>,
)
    ensures
        full matches Ok(Some(b)) && b.len() > 0 ==> first_filled(full, small) == full,
        full is Err ==> first_filled(full, small) == full,
        (full matches Ok(None) || (full matches Ok(Some(b)) && b.len() == 0)) && (small matches Ok(
            Some(s),
        ) && s.len() > 0) ==> first_filled(full, small) == small,
        first_filled(full, small) matches Ok(Some(b)) ==> b.len() > 0 && (full == Ok::<
            Option<Seq<u8>>,
            Seq<char>,
        >(Some(b)) || small == Ok::<Option<Seq<u8>>, Seq<char>>(Some(b))),
{
}

/// Only a sliced project at a safe path is opened, and only at a plate from 1 to 64; of
/// a file's bytes only a project's and a toolpath's are shown, the toolpath's as text.
pub proof fn only_what_can_be_viewed_is_read(what: Seq<char>, name: Seq<char>, plate: u32)
    ensures
        not_three_mf(what, name) is None <==> crate::paths::safe_remote_path(
            crate::paths::rooted(name),
        ) && ".3mf"@.is_suffix_of(crate::text::lower(crate::paths::rooted(name))),
        not_three_mf(what, name) matches Some(r) ==> r.0 == 400,
        bad_plate(plate) is None <==> 0 < plate < 65,
        bad_plate(plate) matches Some(r) ==> r.0 == 400,
        readable_raw(name) <==> crate::paths::safe_remote_path(crate::paths::rooted(name)) && (
        ".3mf"@.is_suffix_of(crate::text::lower(crate::paths::rooted(name)))
            || ".gcode"@.is_suffix_of(crate::text::lower(crate::paths::rooted(name)))),
        ".gcode"@.is_suffix_of(crate::text::lower(crate::paths::rooted(name)))
            ==> raw_content_type(name) == "text/plain; charset=utf-8"@,
        ".3mf"@.is_suffix_of(crate::text::lower(crate::paths::rooted(name))) ==> raw_content_type(
            name,
        ) == "application/octet-stream"@,
{
    reveal_strlit(".3mf");
    reveal_strlit(".gcode");
    let l = crate::text::lower(crate::paths::rooted(name));
    if ".3mf"@.is_suffix_of(l) && ".gcode"@.is_suffix_of(l) {
        assert(l.last() == ".3mf"@.last());
        assert(l.last() == ".gcode"@.last());
    }
}

/// A store that is full starts over, and no other forgets anything; the same key never
/// counts twice.
pub proof fn a_store_grows_by_one_or_starts_over(count: nat, capacity: nat, there: bool)
    requires
        capacity > 0,
        count <= capacity,
    ensures
        0 < count_after(count, capacity, there) <= capacity || (there && count == 0),
        count == capacity ==> count_after(count, capacity, there) == 1,
        count < capacity && !there ==> count_after(count, capacity, there) == count + 1,
        count < capacity && there ==> count_after(count, capacity, there) == count,
{
}

/// The canned toolpath goes up by a fifth of a millimetre with each layer, and around a
/// square, with as much pushed out on each side as on the one before.
pub proof fn each_canned_layer_goes_around_once(n: nat)
    ensures
        fake_layers(n + 1) == fake_layers(n) + fake_layer(n),
        ("G1 Z"@ + (digits((n + 1) * 20 / 100) + "."@ + padded((n + 1) * 20 % 100, 2)))
            .is_prefix_of(fake_layer(n)),
        crate::text::has_text(
            fake_layer(n),
            corner("30.0"@, "10.0"@, 4 * n + 1) + corner("30.0"@, "30.0"@, 4 * n + 2) + corner(
                "10.0"@,
                "30.0"@,
                4 * n + 3,
            ) + corner("10.0"@, "10.0"@, 4 * n + 4),
        ),
        ("G1 X"@ + "30.0"@ + " Y"@ + "10.0"@ + " E"@ + digits(n)).is_prefix_of(
            corner("30.0"@, "10.0"@, n),
        ),
{
    let l = fake_layer(n);
    let z = "G1 Z"@ + (digits((n + 1) * 20 / 100) + "."@ + padded((n + 1) * 20 % 100, 2));
    let f = " F600\nG1 X10 Y10 F3000\n"@;
    let c = corner("30.0"@, "10.0"@, 4 * n + 1) + corner("30.0"@, "30.0"@, 4 * n + 2) + corner(
        "10.0"@,
        "30.0"@,
        4 * n + 3,
    ) + corner("10.0"@, "10.0"@, 4 * n + 4);
    assert(l =~= (z + f) + c + Seq::<char>::empty());
    crate::text::lemma_stands_between(z + f, c, Seq::empty());
    assert(l.subrange(0, z.len() as int) =~= z);
    let k = corner("30.0"@, "10.0"@, n);
    let p = "G1 X"@ + "30.0"@ + " Y"@ + "10.0"@ + " E"@ + digits(n);
    assert(k.subrange(0, p.len() as int) =~= p);
}

} // verus!
