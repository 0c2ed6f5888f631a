//! The files behind the emulated printer: the printer's own, or some in memory.
use vstd::prelude::*;

use crate::files::FileEntry;
use crate::number::{decimal, digits};
use crate::text::{
    chars_of, contains_char, ends_with, join2, join3, join4, same_text, starts_with, texts,
};

verus! {

// ── The printer's own ───────────────────────────────────────────────────────

/// What a look at whether the printer answers came to.
#[derive(Debug)]
pub enum Probe {
    Answers,
    /// Its name could not be looked up.
    Unresolved(String),
    /// Its name stands for no address.
    Nowhere,
    Silent(String),
}

/// The port of the printer's file server.
pub const FTPS_PORT: u16 = 990;

/// The printer's own files.
#[derive(Debug)]
pub struct LivePrinterFiles {
    addr: String,
}

impl LivePrinterFiles {
    pub closed spec fn address(self) -> Seq<char> {
        self.addr@
    }

    pub fn new(ip: &str) -> (r: LivePrinterFiles)
        ensures
            r.address() == ip@ + ":"@ + digits(FTPS_PORT as nat),
    {
        let p = decimal(FTPS_PORT as u64);
        LivePrinterFiles { addr: join3(ip, ":", p.as_str()) }
    }

    /// Where the printer's file server is.
    pub fn addr(&self) -> (r: &str)
        ensures
            r@ == self.address(),
    {
        self.addr.as_str()
    }

    /// Whether to go on to the printer: one that does not answer is an error at
    /// once, and not after minutes of waiting.
    pub fn reachable(&self, probe: Probe) -> (r: Result<(), String>)
        ensures
            match probe {
                Probe::Answers => r is Ok,
                Probe::Unresolved(e) => r matches Err(x) && x@ == "cannot resolve "@
                    + self.address() + ": "@ + e@,
                Probe::Nowhere => r matches Err(x) && x@ == self.address()
                    + " resolved to nothing"@,
                Probe::Silent(e) => r matches Err(x) && x@ == "the printer is not answering on "@
                    + self.address() + ": "@ + e@,
            },
    {
        let a = self.addr.as_str();
        match probe {
            Probe::Answers => Ok(()),
            Probe::Unresolved(e) => Err(join4("cannot resolve ", a, ": ", e.as_str())),
            Probe::Nowhere => Err(join2(a, " resolved to nothing")),
            Probe::Silent(e) => Err(
                join4("the printer is not answering on ", a, ": ", e.as_str()),
            ),
        }
    }
}

// ── In order ────────────────────────────────────────────────────────────────

/// `a` comes before `b`: where they first differ, or where `a` ends first.
pub open spec fn precedes(a: Seq<char>, b: Seq<char>) -> bool
    decreases a.len(),
{
    if b.len() == 0 {
        false
    } else if a.len() == 0 {
        true
    } else if a[0] != b[0] {
        a[0] < b[0]
    } else {
        precedes(a.drop_first(), b.drop_first())
    }
}

proof fn lemma_trichotomy(a: Seq<char>, b: Seq<char>)
    ensures
        !precedes(a, a),
        a != b ==> precedes(a, b) != precedes(b, a),
    decreases a.len(),
{
    if a.len() > 0 {
        lemma_trichotomy(a.drop_first(), a.drop_first());
        if b.len() > 0 && a[0] == b[0] {
            lemma_trichotomy(a.drop_first(), b.drop_first());
            if a.drop_first() == b.drop_first() {
                assert(a =~= seq![a[0]] + a.drop_first());
                assert(b =~= seq![b[0]] + b.drop_first());
            }
        }
    } else if b.len() == 0 {
        assert(a =~= b);
    }
}

proof fn lemma_transitive(a: Seq<char>, b: Seq<char>, c: Seq<char>)
    requires
        precedes(a, b),
        precedes(b, c),
    ensures
        precedes(a, c),
    decreases a.len(),
{
    if a.len() > 0 && a[0] == b[0] && b[0] == c[0] {
        lemma_transitive(a.drop_first(), b.drop_first(), c.drop_first());
    }
}

fn comes_before(a: &str, b: &str) -> (r: bool)
    ensures
        r == precedes(a@, b@),
{
    let x = chars_of(a);
    let y = chars_of(b);
    let mut i: usize = 0;
    proof {
        assert(a@.skip(0) =~= a@);
        assert(b@.skip(0) =~= b@);
    }
    while i < x.len() && i < y.len()
        invariant
            x@ == a@,
            y@ == b@,
            i <= x@.len(),
            i <= y@.len(),
            precedes(a@, b@) == precedes(a@.skip(i as int), b@.skip(i as int)),
        decreases x@.len() - i,
    {
        if x[i] != y[i] {
            return x[i] < y[i];
        }
        proof {
            assert(a@.skip(i as int).drop_first() =~= a@.skip(i + 1));
            assert(b@.skip(i as int).drop_first() =~= b@.skip(i + 1));
        }
        i += 1;
    }
    y.len() > i
}

// ── In memory ───────────────────────────────────────────────────────────────

/// Files in memory, in the order of their paths. Directories are implied by the
/// paths.
#[derive(Debug)]
pub struct SyntheticFiles {
    files: Vec<(String, Vec<u8>)>,
}

/// A file: its path and its bytes.
pub type Held = (Seq<char>, Seq<u8>);

pub open spec fn held_view(v: Seq<(String, Vec<u8>)>) -> Seq<Held> {
    v.map_values(|f: (String, Vec<u8>)| (f.0@, f.1@))
}

/// The files are in the order of their paths, with no path twice.
pub open spec fn in_order(v: Seq<Held>) -> bool {
    forall|i: int, j: int|
        0 <= i < j < v.len() ==> precedes((#[trigger] v[i]).0, (#[trigger] v[j]).0)
}

/// The file at a path is among `v`, with these bytes.
pub open spec fn holds(v: Seq<Held>, path: Seq<char>, body: Seq<u8>) -> bool {
    exists|i: int| 0 <= i < v.len() && #[trigger] v[i] == (path, body)
}

/// There is no file at the path.
pub open spec fn lacks(v: Seq<Held>, path: Seq<char>) -> bool {
    forall|i: int| 0 <= i < v.len() ==> (#[trigger] v[i]).0 != path
}

/// `w` is `v` but for the file at `path`.
pub open spec fn same_beside(v: Seq<Held>, w: Seq<Held>, path: Seq<char>) -> bool {
    forall|p: Seq<char>, b: Seq<u8>|
        p != path ==> #[trigger] holds(v, p, b) == #[trigger] holds(w, p, b)
}

/// What a directory's paths begin with.
pub open spec fn dir_prefix(dir: Seq<char>) -> Seq<char> {
    if dir.len() > 0 && dir.last() == '/' {
        dir
    } else {
        dir + "/"@
    }
}

/// A file lies in the directory itself.
pub open spec fn lies_directly(path: Seq<char>, prefix: Seq<char>) -> bool {
    prefix.is_prefix_of(path) && !path.skip(prefix.len() as int).contains('/')
}

/// What a directory holds, by name and size, in order.
pub open spec fn listing_of(v: Seq<Held>, prefix: Seq<char>) -> Seq<(Seq<char>, nat)>
    decreases v.len(),
{
    if v.len() == 0 {
        Seq::empty()
    } else {
        let r = listing_of(v.drop_last(), prefix);
        let (path, body) = v.last();
        if lies_directly(path, prefix) {
            r.push((path.skip(prefix.len() as int), body.len()))
        } else {
            r
        }
    }
}

pub open spec fn sizes_view(v: Seq<(String, u64)>) -> Seq<(Seq<char>, nat)> {
    v.map_values(|e: (String, u64)| (e.0@, e.1 as nat))
}

/// A number at the end of a column of this width.
pub open spec fn in_column(n: nat, width: nat) -> Seq<char> {
    let d = digits(n);
    if d.len() >= width {
        d
    } else {
        Seq::new((width - d.len()) as nat, |i: int| ' ') + d
    }
}

fn column(n: u64, width: usize) -> (r: String)
    ensures
        r@ == in_column(n as nat, width as nat),
{
    let d = decimal(n);
    let cs = chars_of(d.as_str());
    if cs.len() >= width {
        return d;
    }
    let mut out: Vec<char> = Vec::new();
    let pad: usize = width - cs.len();
    let mut i: usize = 0;
    while i < pad
        invariant
            i <= pad,
            out@ == Seq::new(i as nat, |k: int| ' '),
        decreases pad - i,
    {
        out.push(' ');
        proof {
            assert(out@ =~= Seq::new((i + 1) as nat, |k: int| ' '));
        }
        i += 1;
    }
    let spaces = crate::text::text_of(&out);
    join2(spaces.as_str(), d.as_str())
}

/// One line of a listing.
pub open spec fn listing_line(name: Seq<char>, size: nat) -> Seq<char> {
    "-rw-rw-rw-   1 root  root  "@ + in_column(size, 8) + " Jan  1 00:00 "@ + name
}

impl SyntheticFiles {
    pub closed spec fn held(self) -> Seq<Held> {
        held_view(self.files@)
    }

    pub open spec fn wf(self) -> bool {
        in_order(self.held())
    }

    pub fn new() -> (r: SyntheticFiles)
        ensures
            r.wf(),
            r.held() == Seq::<Held>::empty(),
    {
        let files: Vec<(String, Vec<u8>)> = Vec::new();
        proof {
            assert(held_view(files@) =~= Seq::<Held>::empty());
        }
        SyntheticFiles { files }
    }

    /// Where a path stands in the order, or would stand.
    fn place(&self, path: &str) -> (r: usize)
        requires
            self.wf(),
        ensures
            r <= self.held().len(),
            forall|i: int| 0 <= i < r ==> precedes((#[trigger] self.held()[i]).0, path@),
            forall|i: int|
                r <= i < self.held().len() ==> !precedes((#[trigger] self.held()[i]).0, path@),
    {
        let ghost v = self.held();
        let mut i: usize = 0;
        while i < self.files.len()
            invariant
                v == self.held(),
                in_order(v),
                i <= self.files@.len(),
                v.len() == self.files@.len(),
                forall|k: int| 0 <= k < i ==> precedes((#[trigger] v[k]).0, path@),
            decreases self.files@.len() - i,
        {
            proof {
                assert(v[i as int].0 == self.files@[i as int].0@);
            }
            if !comes_before(self.files[i].0.as_str(), path) {
                proof {
                    assert forall|k: int| i <= k < v.len() implies !precedes(
                        (#[trigger] v[k]).0,
                        path@,
                    ) by {
                        if k > i && precedes(v[k].0, path@) {
                            assert(precedes(v[i as int].0, v[k].0));
                            lemma_transitive(v[i as int].0, v[k].0, path@);
                        }
                    }
                }
                return i;
            }
            i += 1;
        }
        i
    }

    /// The position of the file at a path.
    fn find(&self, path: &str) -> (r: Option<usize>)
        requires
            self.wf(),
        ensures
            match r {
                Some(i) => i < self.held().len() && self.held()[i as int].0 == path@,
                None => lacks(self.held(), path@),
            },
    {
        let i: usize = self.place(path);
        let ghost v = self.held();
        if i < self.files.len() {
            proof {
                assert(v[i as int].0 == self.files@[i as int].0@);
            }
            if same_text(self.files[i].0.as_str(), path) {
                return Some(i);
            }
        }
        proof {
            assert forall|k: int| 0 <= k < v.len() implies (#[trigger] v[k]).0 != path@ by {
                lemma_trichotomy(path@, path@);
                if k >= i && v[k].0 == path@ {
                    if k > i {
                        assert(precedes(v[i as int].0, v[k].0));
                        assert(!precedes(v[i as int].0, path@));
                    }
                }
            }
        }
        None
    }

    /// Put a file at a path; one that was there gives way. How many bytes it has.
    pub fn upload(&mut self, path: &str, body: Vec<u8>) -> (r: u64)
        requires
            old(self).wf(),
        ensures
            final(self).wf(),
            r == body@.len(),
            holds(final(self).held(), path@, body@),
            same_beside(old(self).held(), final(self).held(), path@),
    {
        let n: u64 = body.len() as u64;
        let ghost was = self.held();
        let ghost content = body@;
        match self.find(path) {
            Some(i) => {
                self.files.set(i, (path.to_owned(), body));
                proof {
                    let now = self.held();
                    assert(now =~= was.update(i as int, (path@, content)));
                    assert(now[i as int] == (path@, content));
                    assert forall|p: Seq<char>, b: Seq<u8>|
                        p != path@ implies #[trigger] holds(was, p, b) == #[trigger] holds(
                        now,
                        p,
                        b,
                    ) by {
                        if holds(was, p, b) {
                            let k = choose|k: int| 0 <= k < was.len() && #[trigger] was[k] == (p, b);
                            assert(now[k] == (p, b));
                        }
                        if holds(now, p, b) {
                            let k = choose|k: int| 0 <= k < now.len() && #[trigger] now[k] == (p, b);
                            assert(was[k] == (p, b));
                        }
                    }
                }
            },
            None => {
                let i: usize = self.place(path);
                self.files.insert(i, (path.to_owned(), body));
                proof {
                    let now = self.held();
                    assert(now =~= was.insert(i as int, (path@, content)));
                    lemma_inserted(was, i as int, path@, content);
                }
            },
        }
        n
    }

    /// Take the file at a path away, if there is one.
    pub fn delete(&mut self, path: &str)
        requires
            old(self).wf(),
        ensures
            final(self).wf(),
            lacks(final(self).held(), path@),
            same_beside(old(self).held(), final(self).held(), path@),
    {
        let _ = self.take(path);
    }

    fn take(&mut self, path: &str) -> (r: Option<Vec<u8>>)
        requires
            old(self).wf(),
        ensures
            final(self).wf(),
            lacks(final(self).held(), path@),
            same_beside(old(self).held(), final(self).held(), path@),
            match r {
                Some(b) => holds(old(self).held(), path@, b@),
                None => lacks(old(self).held(), path@) && final(self).held() == old(self).held(),
            },
    {
        let ghost was = self.held();
        match self.find(path) {
            Some(i) => {
                let f = self.files.remove(i);
                proof {
                    let now = self.held();
                    assert(now =~= was.remove(i as int));
                    assert(was[i as int] == (path@, f.1@));
                    lemma_removed(was, i as int);
                }
                Some(f.1)
            },
            None => None,
        }
    }

    /// The bytes of the file at a path.
    pub fn download(&self, path: &str) -> (r: Result<&Vec<u8>, String>)
        requires
            self.wf(),
        ensures
            match r {
                Ok(b) => holds(self.held(), path@, b@),
                Err(e) => lacks(self.held(), path@) && e@ == "no such file: "@ + path@,
            },
    {
        match self.find(path) {
            Some(i) => {
                proof {
                    assert(self.held()[i as int] == (path@, self.files@[i as int].1@));
                }
                Ok(&self.files[i].1)
            },
            None => Err(join2("no such file: ", path)),
        }
    }

    /// Move the file at one path to another; one that was there gives way.
    pub fn rename(&mut self, from: &str, to: &str) -> (r: Result<(), String>)
        requires
            old(self).wf(),
        ensures
            final(self).wf(),
            match r {
                Ok(_) => {
                    &&& from@ != to@ ==> lacks(final(self).held(), from@)
                    &&& forall|p: Seq<char>, b: Seq<u8>|
                        p != from@ && p != to@ ==> #[trigger] holds(old(self).held(), p, b)
                            == #[trigger] holds(final(self).held(), p, b)
                    &&& exists|b: Seq<u8>| #[trigger]
                        holds(old(self).held(), from@, b) && holds(final(self).held(), to@, b)
                },
                Err(e) => {
                    &&& lacks(old(self).held(), from@)
                    &&& e@ == "no such file: "@ + from@
                    &&& final(self).held() == old(self).held()
                },
            },
    {
        let ghost was = self.held();
        let body = match self.take(from) {
            Some(b) => b,
            None => {
                return Err(join2("no such file: ", from));
            },
        };
        let ghost content = body@;
        let ghost mid = self.held();
        let _ = self.upload(to, body);
        proof {
            let now = self.held();
            assert(holds(was, from@, content) && holds(now, to@, content));
            if from@ != to@ {
                assert forall|k: int| 0 <= k < now.len() implies (#[trigger] now[k]).0 != from@ by {
                    if now[k].0 == from@ {
                        assert(holds(now, from@, now[k].1));
                        assert(holds(mid, from@, now[k].1));
                    }
                }
            }
            assert forall|p: Seq<char>, b: Seq<u8>|
                p != from@ && p != to@ implies #[trigger] holds(was, p, b) == #[trigger] holds(
                now,
                p,
                b,
            ) by {
                assert(holds(was, p, b) == holds(mid, p, b));
                assert(holds(mid, p, b) == holds(now, p, b));
            }
        }
        Ok(())
    }

    /// What a directory holds itself, by name and size, in order.
    fn listing(&self, dir: &str) -> (r: Vec<(String, u64)>)
        ensures
            sizes_view(r@) == listing_of(self.held(), dir_prefix(dir@)),
    {
        let ghost v = self.held();
        proof {
            reveal_strlit("/");
            if dir@.len() > 0 {
                assert("/"@.is_suffix_of(dir@) == (dir@.last() == '/')) by {
                    assert(dir@.subrange(dir@.len() - 1, dir@.len() as int) =~= seq![dir@.last()]);
                    assert("/"@ =~= seq!['/']);
                    if dir@.last() == '/' {
                        assert(dir@.subrange(dir@.len() - 1, dir@.len() as int) =~= "/"@);
                    } else {
                        assert(seq![dir@.last()][0] != "/"@[0]);
                    }
                }
            }
        }
        let prefix = if ends_with(dir, "/") {
            dir.to_owned()
        } else {
            join2(dir, "/")
        };
        let k: usize = chars_of(prefix.as_str()).len();
        let mut out: Vec<(String, u64)> = Vec::new();
        let mut i: usize = 0;
        proof {
            assert(v.take(0) =~= Seq::<Held>::empty());
            assert(sizes_view(out@) =~= Seq::<(Seq<char>, nat)>::empty());
        }
        while i < self.files.len()
            invariant
                v == self.held(),
                v.len() == self.files@.len(),
                i <= self.files@.len(),
                k == prefix@.len(),
                prefix@ == dir_prefix(dir@),
                sizes_view(out@) == listing_of(v.take(i as int), prefix@),
            decreases self.files@.len() - i,
        {
            let path = self.files[i].0.as_str();
            proof {
                let t = v.take(i + 1);
                assert(t.drop_last() =~= v.take(i as int));
                assert(t.last() == (self.files@[i as int].0@, self.files@[i as int].1@));
            }
            if starts_with(path, prefix.as_str()) {
                let n: usize = chars_of(path).len();
                let rest = path.substring_char(k, n);
                proof {
                    assert(rest@ =~= path@.skip(k as int));
                }
                if !contains_char(rest, '/') {
                    let ghost had = sizes_view(out@);
                    out.push((rest.to_owned(), self.files[i].1.len() as u64));
                    proof {
                        assert(sizes_view(out@) =~= had.push(
                            (path@.skip(k as int), self.files@[i as int].1@.len()),
                        ));
                    }
                }
            }
            i += 1;
        }
        proof {
            assert(v.take(self.files@.len() as int) =~= v);
        }
        out
    }

    /// The names in a directory.
    pub fn list_names(&self, dir: &str) -> (r: Vec<String>)
        ensures
            texts(r@) == listing_of(self.held(), dir_prefix(dir@)).map_values(
                |e: (Seq<char>, nat)| e.0,
            ),
    {
        let l = self.listing(dir);
        let mut out: Vec<String> = Vec::new();
        let mut i: usize = 0;
        while i < l.len()
            invariant
                i <= l@.len(),
                out@.len() == i,
                forall|k: int| 0 <= k < i ==> (#[trigger] out@[k])@ == l@[k].0@,
            decreases l@.len() - i,
        {
            out.push(l[i].0.clone());
            i += 1;
        }
        proof {
            let all = listing_of(self.held(), dir_prefix(dir@));
            assert forall|k: int| 0 <= k < l@.len() implies (#[trigger] sizes_view(l@)[k]).0
                == l@[k].0@ by {}
            assert(texts(out@) =~= all.map_values(|e: (Seq<char>, nat)| e.0));
        }
        out
    }

    /// A directory as a file server shows it.
    pub fn list_raw(&self, dir: &str) -> (r: Vec<String>)
        ensures
            texts(r@) == listing_of(self.held(), dir_prefix(dir@)).map_values(
                |e: (Seq<char>, nat)| listing_line(e.0, e.1),
            ),
    {
        let l = self.listing(dir);
        let mut out: Vec<String> = Vec::new();
        let mut i: usize = 0;
        while i < l.len()
            invariant
                i <= l@.len(),
                out@.len() == i,
                forall|k: int|
                    0 <= k < i ==> (#[trigger] out@[k])@ == listing_line(l@[k].0@, l@[k].1 as nat),
            decreases l@.len() - i,
        {
            let size = column(l[i].1, 8);
            out.push(
                join4(
                    "-rw-rw-rw-   1 root  root  ",
                    size.as_str(),
                    " Jan  1 00:00 ",
                    l[i].0.as_str(),
                ),
            );
            i += 1;
        }
        proof {
            let all = listing_of(self.held(), dir_prefix(dir@));
            assert forall|k: int| 0 <= k < l@.len() implies #[trigger] sizes_view(l@)[k] == (
                l@[k].0@,
                l@[k].1 as nat,
            ) by {}
            assert(texts(out@) =~= all.map_values(
                |e: (Seq<char>, nat)| listing_line(e.0, e.1),
            ));
        }
        out
    }

    /// The entries of a directory, all of them files.
    pub fn entries(&self, dir: &str) -> (r: Vec<FileEntry>)
        ensures
            r@.len() == listing_of(self.held(), dir_prefix(dir@)).len(),
            forall|i: int|
                0 <= i < r@.len() ==> (#[trigger] r@[i]).name@ == listing_of(
                    self.held(),
                    dir_prefix(dir@),
                )[i].0 && r@[i].size == listing_of(self.held(), dir_prefix(dir@))[i].1
                    && !r@[i].is_dir,
    {
        let l = self.listing(dir);
        let mut out: Vec<FileEntry> = Vec::new();
        let mut i: usize = 0;
        while i < l.len()
            invariant
                i <= l@.len(),
                out@.len() == i,
                forall|k: int|
                    0 <= k < i ==> (#[trigger] out@[k]).name@ == l@[k].0@ && out@[k].size
                        == l@[k].1 && !out@[k].is_dir,
            decreases l@.len() - i,
        {
            out.push(FileEntry { name: l[i].0.clone(), is_dir: false, size: l[i].1 });
            i += 1;
        }
        proof {
            assert forall|k: int| 0 <= k < l@.len() implies #[trigger] sizes_view(l@)[k] == (
                l@[k].0@,
                l@[k].1 as nat,
            ) by {}
            assert forall|i: int| 0 <= i < out@.len() implies (#[trigger] out@[i]).name@
                == listing_of(self.held(), dir_prefix(dir@))[i].0 && out@[i].size == listing_of(
                self.held(),
                dir_prefix(dir@),
            )[i].1 && !out@[i].is_dir by {
                assert(sizes_view(l@)[i] == (l@[i].0@, l@[i].1 as nat));
            }
        }
        out
    }
}

proof fn lemma_inserted(v: Seq<Held>, i: int, path: Seq<char>, body: Seq<u8>)
    requires
        in_order(v),
        lacks(v, path),
        0 <= i <= v.len(),
        forall|k: int| 0 <= k < i ==> precedes((#[trigger] v[k]).0, path),
        forall|k: int| i <= k < v.len() ==> !precedes((#[trigger] v[k]).0, path),
    ensures
        in_order(v.insert(i, (path, body))),
        holds(v.insert(i, (path, body)), path, body),
        same_beside(v, v.insert(i, (path, body)), path),
{
    let w = v.insert(i, (path, body));
    assert(w[i] == (path, body));
    assert forall|a: int, b: int| 0 <= a < b < w.len() implies precedes(
        (#[trigger] w[a]).0,
        (#[trigger] w[b]).0,
    ) by {
        if b == i {
            assert(w[a] == v[a]);
        } else if a == i {
            assert(w[b] == v[b - 1]);
            lemma_trichotomy(path, v[b - 1].0);
        } else {
            let x = if a < i {
                a
            } else {
                a - 1
            };
            let y = if b < i {
                b
            } else {
                b - 1
            };
            assert(w[a] == v[x]);
            assert(w[b] == v[y]);
        }
    }
    assert forall|p: Seq<char>, b: Seq<u8>| p != path implies #[trigger] holds(v, p, b)
        == #[trigger] holds(w, p, b) by {
        if holds(v, p, b) {
            let k = choose|k: int| 0 <= k < v.len() && #[trigger] v[k] == (p, b);
            if k < i {
                assert(w[k] == (p, b));
            } else {
                assert(w[k + 1] == (p, b));
            }
        }
        if holds(w, p, b) {
            let k = choose|k: int| 0 <= k < w.len() && #[trigger] w[k] == (p, b);
            if k < i {
                assert(v[k] == (p, b));
            } else {
                assert(v[k - 1] == (p, b));
            }
        }
    }
}

proof fn lemma_removed(v: Seq<Held>, i: int)
    requires
        in_order(v),
        0 <= i < v.len(),
    ensures
        in_order(v.remove(i)),
        lacks(v.remove(i), v[i].0),
        same_beside(v, v.remove(i), v[i].0),
        holds(v, v[i].0, v[i].1),
{
    let w = v.remove(i);
    let path = v[i].0;
    assert(v[i] == (v[i].0, v[i].1));
    assert forall|k: int| 0 <= k < w.len() implies (#[trigger] w[k]).0 != path by {
        lemma_trichotomy(path, path);
        if k < i {
            assert(w[k] == v[k]);
            assert(precedes(v[k].0, v[i].0));
        } else {
            assert(w[k] == v[k + 1]);
            assert(precedes(v[i].0, v[k + 1].0));
        }
    }
    assert forall|p: Seq<char>, b: Seq<u8>| p != path implies #[trigger] holds(v, p, b)
        == #[trigger] holds(w, p, b) by {
        if holds(v, p, b) {
            let k = choose|k: int| 0 <= k < v.len() && #[trigger] v[k] == (p, b);
            if k < i {
                assert(w[k] == (p, b));
            } else {
                assert(w[k - 1] == (p, b));
            }
        }
        if holds(w, p, b) {
            let k = choose|k: int| 0 <= k < w.len() && #[trigger] w[k] == (p, b);
            if k < i {
                assert(v[k] == (p, b));
            } else {
                assert(v[k + 1] == (p, b));
            }
        }
    }
}

/// A path holds one file: what is read there is what was put there last.
pub proof fn a_path_holds_one_file(v: Seq<Held>, path: Seq<char>, a: Seq<u8>, b: Seq<u8>)
    requires
        in_order(v),
        holds(v, path, a),
        holds(v, path, b),
    ensures
        a == b,
{
    let i = choose|i: int| 0 <= i < v.len() && #[trigger] v[i] == (path, a);
    let j = choose|j: int| 0 <= j < v.len() && #[trigger] v[j] == (path, b);
    lemma_trichotomy(path, path);
    if i < j {
        assert(precedes(v[i].0, v[j].0));
    } else if j < i {
        assert(precedes(v[j].0, v[i].0));
    }
}

/// The order of paths is one: two that differ come one before the other, by the first
/// character in which they differ, and a path comes before what goes on from it.
pub proof fn paths_come_in_one_order(
    p: Seq<char>,
    x: char,
    y: char,
    a: Seq<char>,
    b: Seq<char>,
)
    ensures
        x != y ==> (precedes(p.push(x) + a, p.push(y) + b) <==> x < y),
        precedes(p, p.push(x) + a),
        !precedes(p.push(x) + a, p),
        !precedes(p, p),
    decreases p.len(),
{
    let s = p.push(x) + a;
    let t = p.push(y) + b;
    if p.len() == 0 {
        assert(s[0] == x && t[0] == y);
    } else {
        let q = p.drop_first();
        paths_come_in_one_order(q, x, y, a, b);
        assert(s.drop_first() =~= q.push(x) + a);
        assert(t.drop_first() =~= q.push(y) + b);
        assert(s[0] == p[0] && t[0] == p[0]);
    }
}

/// A directory lists exactly the files that lie in it, each by its own name and size,
/// and none that lies deeper.
pub proof fn a_directory_lists_what_lies_in_it(
    v: Seq<Held>,
    prefix: Seq<char>,
    name: Seq<char>,
    size: nat,
)
    ensures
        listing_of(v, prefix).contains((name, size)) <==> !name.contains('/') && exists|i: int|
            0 <= i < v.len() && (#[trigger] v[i]).0 == prefix + name && v[i].1.len() == size,
    decreases v.len(),
{
    let l = listing_of(v, prefix);
    if v.len() == 0 {
        assert(!l.contains((name, size)));
    } else {
        let less = v.drop_last();
        let ll = listing_of(less, prefix);
        a_directory_lists_what_lies_in_it(less, prefix, name, size);
        let (path, body) = v.last();
        let here = lies_directly(path, prefix) && path.skip(prefix.len() as int) == name
            && body.len() == size;
        assert(l.contains((name, size)) <==> ll.contains((name, size)) || here) by {
            if ll.contains((name, size)) {
                let k = choose|k: int| 0 <= k < ll.len() && ll[k] == (name, size);
                assert(l[k] == ll[k]);
            }
            if here {
                assert(l[l.len() - 1] == (name, size));
            }
            if l.contains((name, size)) {
                let k = choose|k: int| 0 <= k < l.len() && l[k] == (name, size);
                if k < ll.len() {
                    assert(ll[k] == l[k]);
                }
            }
        }
        if lies_directly(path, prefix) {
            assert(path =~= prefix + path.skip(prefix.len() as int));
        }
        if path == prefix + name {
            assert(path.skip(prefix.len() as int) =~= name);
            assert(path.subrange(0, prefix.len() as int) =~= prefix);
        }
        assert(here <==> !name.contains('/') && path == prefix + name && body.len() == size);
        let n = v.len() - 1;
        assert(v[n] == (path, body));
        if !name.contains('/') {
            if exists|i: int|
                0 <= i < less.len() && (#[trigger] less[i]).0 == prefix + name && less[i].1.len()
                    == size {
                let i = choose|i: int|
                    0 <= i < less.len() && (#[trigger] less[i]).0 == prefix + name
                        && less[i].1.len() == size;
                assert(v[i] == less[i]);
            }
            if exists|i: int|
                0 <= i < v.len() && (#[trigger] v[i]).0 == prefix + name && v[i].1.len() == size {
                let i = choose|i: int|
                    0 <= i < v.len() && (#[trigger] v[i]).0 == prefix + name && v[i].1.len()
                        == size;
                if i < n {
                    assert(less[i] == v[i]);
                }
            }
        }
    }
}

/// The paths in a directory begin with it and one separator, whether or not it is
/// written with one.
pub proof fn a_directory_is_the_same_with_its_separator(dir: Seq<char>)
    ensures
        dir.len() > 0 && dir.last() != '/' ==> dir_prefix(dir) == dir.push('/') && dir_prefix(
            dir.push('/'),
        ) == dir.push('/'),
        dir_prefix(seq!['/']) == seq!['/'],
        dir_prefix(dir).last() == '/',
{
    reveal_strlit("/");
    assert(dir + "/"@ =~= dir.push('/'));
}

/// A line of a listing shows the size and then, at its end, the name.
pub proof fn a_line_shows_its_name_and_size(name: Seq<char>, size: nat)
    ensures
        name.is_suffix_of(listing_line(name, size)),
        crate::text::has_text(listing_line(name, size), digits(size) + " Jan  1 00:00 "@ + name),
        digits(size).len() <= 8 ==> listing_line(name, size).len() == 27 + 8 + 14 + name.len(),
{
    reveal_strlit("-rw-rw-rw-   1 root  root  ");
    reveal_strlit(" Jan  1 00:00 ");
    let l = listing_line(name, size);
    let c = in_column(size, 8);
    let d = digits(size);
    assert(l.subrange(l.len() - name.len(), l.len() as int) =~= name);
    let part = d + " Jan  1 00:00 "@ + name;
    let at = l.len() - part.len();
    assert(c.subrange(c.len() - d.len(), c.len() as int) =~= d);
    assert(l.subrange(at, at + part.len()) =~= part);
    assert(crate::text::text_at(l, part, at));
}

/// What was put at a path is read there, and everything else stays as it was: no other
/// path gains, loses or changes a file.
pub proof fn an_upload_changes_one_path(
    v: Seq<Held>,
    w: Seq<Held>,
    path: Seq<char>,
    other: Seq<char>,
)
    requires
        same_beside(v, w, path),
        other != path,
    ensures
        lacks(v, other) <==> lacks(w, other),
        forall|b: Seq<u8>| holds(v, other, b) ==> #[trigger] holds(w, other, b),
{
    if !lacks(v, other) {
        let i = choose|i: int| 0 <= i < v.len() && (#[trigger] v[i]).0 == other;
        assert(v[i] == (other, v[i].1));
        assert(holds(v, other, v[i].1));
        assert(holds(w, other, v[i].1));
        let j = choose|j: int| 0 <= j < w.len() && #[trigger] w[j] == (other, v[i].1);
        assert(w[j].0 == other);
    }
    if !lacks(w, other) {
        let i = choose|i: int| 0 <= i < w.len() && (#[trigger] w[i]).0 == other;
        assert(w[i] == (other, w[i].1));
        assert(holds(w, other, w[i].1));
        assert(holds(v, other, w[i].1));
        let j = choose|j: int| 0 <= j < v.len() && #[trigger] v[j] == (other, w[i].1);
        assert(v[j].0 == other);
    }
}

} // verus!
