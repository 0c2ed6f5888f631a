//! The emulated printer's file server: what each command does, over the data
//! connection and at the real printer, and the one reply it is given.
//!
//! What a command does outside goes through an [`FtpPort`], and an [`FtpTap`]
//! keeps the log of it. The contracts are over that log.
use vstd::prelude::*;

use crate::files::FileEntry;
use crate::number::{decimal, digits};
use crate::text::{
    after_last, chars_of, has_text, join2, join3, join4, join5, opt_text, same_text, tail_after,
    texts,
};
use crate::trace::lemma_then;

verus! {

/// The user every client logs in as.
pub const FTP_USER: &'static str = "bblp";

/// The most bytes of an upload that are taken in before they are forwarded.
pub const MAX_UPLOAD: u64 = 536_870_912;

/// A reply on the control connection.
#[derive(Debug)]
pub struct FtpReply {
    pub code: u16,
    pub text: String,
}

impl View for FtpReply {
    type V = (u16, Seq<char>);

    open spec fn view(&self) -> (u16, Seq<char>) {
        (self.code, self.text@)
    }
}

fn reply_of(code: u16, text: String) -> (r: FtpReply)
    ensures
        r@ == (code, text@),
{
    FtpReply { code, text }
}

/// How a client asks for a data port.
#[derive(Debug, Clone, Copy, PartialEq, Eq, Structural)]
pub enum PassiveKind {
    /// `EPSV`.
    Extended,
    /// `PASV`, which can express IPv4 alone.
    Classic,
}

/// What a command asks for.
#[derive(Debug)]
pub enum FtpAction {
    Reply(FtpReply),
    Close(FtpReply),
    Passive(PassiveKind),
    Store { path: String },
    Retrieve { path: String },
    List { path: String, names_only: bool },
    Delete { path: String },
    Rename { from: String, to: String },
    MakeDir { path: String },
    RemoveDir { path: String },
    Size { path: String },
}

// ── The outside ─────────────────────────────────────────────────────────────

/// What opening a data port came to.
#[derive(Debug)]
pub enum Bound {
    Port(u16),
    /// It could not be opened.
    Failed(String),
    /// It was, and does not say where.
    Nowhere(String),
}

/// What waiting for a data connection came to.
#[derive(Debug)]
pub enum Arrival {
    /// One from this host.
    From(String),
    Failed(String),
    /// The time allowed for all of the waiting is over.
    TimedOut,
}

/// Work at the printer: what it came to there, or how the work itself was lost.
pub type Work<T> = Result<Result<T, String>, String>;

/// What a command asks of the outside.
pub trait FtpPort {
    /// Write a reply to the control connection.
    fn reply(&mut self, code: u16, text: &str) -> Result<(), String>;

    /// Open a data port on the address the client reached.
    fn bind(&mut self) -> Bound;

    /// Keep the data port just opened, in place of any other.
    fn keep(&mut self);

    /// Wait at the kept data port; a connection that does not suit is dropped
    /// with the next call.
    fn accept(&mut self) -> Arrival;

    /// Encrypt the connection that arrived last.
    fn secure(&mut self) -> Result<(), String>;

    /// Make the file that a transfer is staged in.
    fn stage(&mut self) -> Result<(), String>;

    /// Read from the data connection; no bytes at its end.
    fn read(&mut self) -> Result<Vec<u8>, String>;

    /// Append to the staged file.
    fn append(&mut self, bytes: &[u8]) -> Result<(), String>;

    /// Finish the staged file.
    fn flush(&mut self) -> Result<(), String>;

    /// Close the data connection properly.
    fn shutdown(&mut self) -> Result<(), String>;

    /// Send the staged file over the data connection and close it; its length.
    fn send_staged(&mut self) -> Result<u64, String>;

    /// Send a text over the data connection and close it.
    fn send_text(&mut self, body: &str) -> Result<(), String>;

    /// Push the staged file to the printer; its length there.
    fn upload(&mut self, remote: &str) -> Work<u64>;

    /// Fetch a file from the printer into the staged file.
    fn download(&mut self, remote: &str) -> Work<u64>;

    /// List a directory of the printer: names alone, or its own lines.
    fn list(&mut self, dir: &str, names_only: bool) -> Work<Vec<String>>;

    /// The entries of a directory of the printer.
    fn entries(&mut self, dir: &str) -> Work<Vec<FileEntry>>;

    fn delete(&mut self, path: &str) -> Work<()>;

    fn rename(&mut self, from: &str, to: &str) -> Work<()>;

    fn make_dir(&mut self, path: &str) -> Work<()>;

    fn remove_dir(&mut self, path: &str) -> Work<()>;
}

/// One question to the outside and its answer.
#[allow(inconsistent_fields)]
pub enum FtpEvent {
    Replied { code: u16, text: Seq<char>, res: Result<(), String> },
    Bound(Bound),
    Kept,
    Accepted(Arrival),
    Secured(Result<(), String>),
    Staged(Result<(), String>),
    Read(Result<Seq<u8>, Seq<char>>),
    Appended { bytes: Seq<u8>, res: Result<(), String> },
    Flushed(Result<(), String>),
    Shut(Result<(), String>),
    SentStaged(Result<u64, String>),
    SentText { body: Seq<char>, res: Result<(), String> },
    Uploaded { remote: Seq<char>, res: Work<u64> },
    Downloaded { remote: Seq<char>, res: Work<u64> },
    Listed { dir: Seq<char>, names_only: bool, res: Work<Vec<String>> },
    Entries { dir: Seq<char>, res: Work<Vec<FileEntry>> },
    Deleted { path: Seq<char>, res: Work<()> },
    Renamed { from: Seq<char>, to: Seq<char>, res: Work<()> },
    MadeDir { path: Seq<char>, res: Work<()> },
    RemovedDir { path: Seq<char>, res: Work<()> },
}

/// The result of a read, by its bytes or its error.
pub open spec fn read_view(r: Result<Vec<u8>, String>) -> Result<Seq<u8>, Seq<char>> {
    match r {
        Ok(b) => Ok(b@),
        Err(e) => Err(e@),
    }
}

/// A port and the log of what went through it.
pub struct FtpTap<P> {
    port: P,
    events: Ghost<Seq<FtpEvent>>,
}

impl<P: FtpPort> FtpTap<P> {
    /// What went through the port so far.
    pub closed spec fn log(self) -> Seq<FtpEvent> {
        self.events@
    }

    /// The port as it is now.
    pub closed spec fn inner(self) -> P {
        self.port
    }

    pub fn new(port: P) -> (r: FtpTap<P>)
        ensures
            r.inner() == port,
            r.log() == Seq::<FtpEvent>::empty(),
    {
        FtpTap { port, events: Ghost(Seq::empty()) }
    }

    /// The port again.
    pub fn into_port(self) -> (r: P)
        ensures
            r == self.inner(),
    {
        self.port
    }

    fn reply(&mut self, code: u16, text: &str) -> (r: Result<(), String>)
        ensures
            final(self).log() == old(self).log().push(
                FtpEvent::Replied { code, text: text@, res: r },
            ),
    {
        let r = self.port.reply(code, text);
        self.events = Ghost(self.events@.push(FtpEvent::Replied { code, text: text@, res: r }));
        r
    }

    fn bind(&mut self) -> (r: Bound)
        ensures
            final(self).log() == old(self).log().push(FtpEvent::Bound(r)),
    {
        let r = self.port.bind();
        self.events = Ghost(self.events@.push(FtpEvent::Bound(r)));
        r
    }

    fn keep(&mut self)
        ensures
            final(self).log() == old(self).log().push(FtpEvent::Kept),
    {
        self.port.keep();
        self.events = Ghost(self.events@.push(FtpEvent::Kept));
    }

    fn accept(&mut self) -> (r: Arrival)
        ensures
            final(self).log() == old(self).log().push(FtpEvent::Accepted(r)),
    {
        let r = self.port.accept();
        self.events = Ghost(self.events@.push(FtpEvent::Accepted(r)));
        r
    }

    fn secure(&mut self) -> (r: Result<(), String>)
        ensures
            final(self).log() == old(self).log().push(FtpEvent::Secured(r)),
    {
        let r = self.port.secure();
        self.events = Ghost(self.events@.push(FtpEvent::Secured(r)));
        r
    }

    fn stage(&mut self) -> (r: Result<(), String>)
        ensures
            final(self).log() == old(self).log().push(FtpEvent::Staged(r)),
    {
        let r = self.port.stage();
        self.events = Ghost(self.events@.push(FtpEvent::Staged(r)));
        r
    }

    fn read(&mut self) -> (r: Result<Vec<u8>, String>)
        ensures
            final(self).log() == old(self).log().push(FtpEvent::Read(read_view(r))),
    {
        let r = self.port.read();
        self.events = Ghost(self.events@.push(FtpEvent::Read(read_view(r))));
        r
    }

    fn append(&mut self, bytes: &[u8]) -> (r: Result<(), String>)
        ensures
            final(self).log() == old(self).log().push(FtpEvent::Appended { bytes: bytes@, res: r }),
    {
        let r = self.port.append(bytes);
        self.events = Ghost(self.events@.push(FtpEvent::Appended { bytes: bytes@, res: r }));
        r
    }

    fn flush(&mut self) -> (r: Result<(), String>)
        ensures
            final(self).log() == old(self).log().push(FtpEvent::Flushed(r)),
    {
        let r = self.port.flush();
        self.events = Ghost(self.events@.push(FtpEvent::Flushed(r)));
        r
    }

    fn shutdown(&mut self) -> (r: Result<(), String>)
        ensures
            final(self).log() == old(self).log().push(FtpEvent::Shut(r)),
    {
        let r = self.port.shutdown();
        self.events = Ghost(self.events@.push(FtpEvent::Shut(r)));
        r
    }

    fn send_staged(&mut self) -> (r: Result<u64, String>)
        ensures
            final(self).log() == old(self).log().push(FtpEvent::SentStaged(r)),
    {
        let r = self.port.send_staged();
        self.events = Ghost(self.events@.push(FtpEvent::SentStaged(r)));
        r
    }

    fn send_text(&mut self, body: &str) -> (r: Result<(), String>)
        ensures
            final(self).log() == old(self).log().push(FtpEvent::SentText { body: body@, res: r }),
    {
        let r = self.port.send_text(body);
        self.events = Ghost(self.events@.push(FtpEvent::SentText { body: body@, res: r }));
        r
    }

    fn upload(&mut self, remote: &str) -> (r: Work<u64>)
        ensures
            final(self).log() == old(self).log().push(
                FtpEvent::Uploaded { remote: remote@, res: r },
            ),
    {
        let r = self.port.upload(remote);
        self.events = Ghost(self.events@.push(FtpEvent::Uploaded { remote: remote@, res: r }));
        r
    }

    fn download(&mut self, remote: &str) -> (r: Work<u64>)
        ensures
            final(self).log() == old(self).log().push(
                FtpEvent::Downloaded { remote: remote@, res: r },
            ),
    {
        let r = self.port.download(remote);
        self.events = Ghost(self.events@.push(FtpEvent::Downloaded { remote: remote@, res: r }));
        r
    }

    fn list(&mut self, dir: &str, names_only: bool) -> (r: Work<Vec<String>>)
        ensures
            final(self).log() == old(self).log().push(
                FtpEvent::Listed { dir: dir@, names_only, res: r },
            ),
    {
        let r = self.port.list(dir, names_only);
        self.events = Ghost(self.events@.push(FtpEvent::Listed { dir: dir@, names_only, res: r }));
        r
    }

    fn entries(&mut self, dir: &str) -> (r: Work<Vec<FileEntry>>)
        ensures
            final(self).log() == old(self).log().push(FtpEvent::Entries { dir: dir@, res: r }),
    {
        let r = self.port.entries(dir);
        self.events = Ghost(self.events@.push(FtpEvent::Entries { dir: dir@, res: r }));
        r
    }

    fn delete(&mut self, path: &str) -> (r: Work<()>)
        ensures
            final(self).log() == old(self).log().push(FtpEvent::Deleted { path: path@, res: r }),
    {
        let r = self.port.delete(path);
        self.events = Ghost(self.events@.push(FtpEvent::Deleted { path: path@, res: r }));
        r
    }

    fn rename(&mut self, from: &str, to: &str) -> (r: Work<()>)
        ensures
            final(self).log() == old(self).log().push(
                FtpEvent::Renamed { from: from@, to: to@, res: r },
            ),
    {
        let r = self.port.rename(from, to);
        self.events = Ghost(self.events@.push(FtpEvent::Renamed { from: from@, to: to@, res: r }));
        r
    }

    fn make_dir(&mut self, path: &str) -> (r: Work<()>)
        ensures
            final(self).log() == old(self).log().push(FtpEvent::MadeDir { path: path@, res: r }),
    {
        let r = self.port.make_dir(path);
        self.events = Ghost(self.events@.push(FtpEvent::MadeDir { path: path@, res: r }));
        r
    }

    fn remove_dir(&mut self, path: &str) -> (r: Work<()>)
        ensures
            final(self).log() == old(self).log().push(FtpEvent::RemovedDir { path: path@, res: r }),
    {
        let r = self.port.remove_dir(path);
        self.events = Ghost(self.events@.push(FtpEvent::RemovedDir { path: path@, res: r }));
        r
    }
}

// ── The data connection ─────────────────────────────────────────────────────

/// Why a transfer did not come about.
#[derive(Debug)]
pub enum DataError {
    /// The reply to give.
    Refused(FtpReply),
    /// It broke off.
    Io(String),
}

/// `o` is this refusal.
pub open spec fn data_refused<T>(o: Result<T, DataError>, reply: (u16, Seq<char>)) -> bool {
    o matches Err(DataError::Refused(r)) && r@ == reply
}

/// `o` broke off with this error.
pub open spec fn broke_off<T>(o: Result<T, DataError>, e: Seq<char>) -> bool {
    o matches Err(DataError::Io(m)) && m@ == e
}

/// A data connection from `from` belongs to the client: it comes from the host
/// of the control connection, where that is known.
pub open spec fn belongs(peer: Option<Seq<char>>, from: Seq<char>) -> bool {
    match peer {
        Some(p) => p == from,
        None => true,
    }
}

/// The arrival of a stranger.
pub open spec fn stranger(e: FtpEvent, peer: Option<Seq<char>>) -> bool {
    e matches FtpEvent::Accepted(Arrival::From(h)) && !belongs(peer, h@)
}

/// The first `k` events are strangers, each turned away.
pub open spec fn strangers(ev: Seq<FtpEvent>, k: int, peer: Option<Seq<char>>) -> bool {
    0 <= k <= ev.len() && forall|i: int| 0 <= i < k ==> stranger(#[trigger] ev[i], peer)
}

/// How it is told that the client did not connect, `n` strangers having.
pub open spec fn nobody_came(n: nat) -> Seq<char> {
    if n > 0 {
        "no data connection from the control host ("@ + digits(n) + " from elsewhere were refused)"@
    } else {
        "the data connection was never opened"@
    }
}

/// `ev` waits for the client at the data port, turning strangers away, and
/// encrypts the connection.
pub open spec fn awaited(
    ev: Seq<FtpEvent>,
    peer: Option<Seq<char>>,
    o: Result<(), DataError>,
) -> bool {
    let n = ev.len();
    // The client came.
    ||| {
        &&& n >= 2
        &&& strangers(ev, n - 2, peer)
        &&& ev[n - 2] matches FtpEvent::Accepted(Arrival::From(h))
        &&& belongs(peer, h@)
        &&& ev[n - 1] matches FtpEvent::Secured(res)
        &&& match res {
            Ok(_) => o is Ok,
            Err(e) => broke_off(o, e@),
        }
    }
    ||| {
        &&& n >= 1
        &&& strangers(ev, n - 1, peer)
        &&& ev[n - 1] matches FtpEvent::Accepted(Arrival::Failed(e))
        &&& data_refused(o, (425u16, "accept: "@ + e@))
    }
    ||| {
        &&& n >= 1
        &&& strangers(ev, n - 1, peer)
        &&& ev[n - 1] == FtpEvent::Accepted(Arrival::TimedOut)
        &&& data_refused(o, (425u16, nobody_came((n - 1) as nat)))
    }
    // More strangers than can be counted.
    ||| {
        &&& n == u32::MAX
        &&& strangers(ev, n as int, peer)
        &&& data_refused(o, (425u16, nobody_came(n)))
    }
}

/// `ev` announces a transfer and brings its data connection about, where a data
/// port was asked for before.
pub open spec fn opened(
    ev: Seq<FtpEvent>,
    listening: bool,
    peer: Option<Seq<char>>,
    what: Seq<char>,
    o: Result<(), DataError>,
) -> bool {
    if !listening {
        ev.len() == 0 && data_refused(o, (425u16, "use PASV or EPSV first"@))
    } else {
        &&& ev.len() >= 1
        &&& ev[0] matches FtpEvent::Replied { code, text, res }
        &&& code == 150 && text == what
        &&& match res {
            Err(e) => ev.len() == 1 && broke_off(o, e@),
            Ok(_) => awaited(ev.skip(1), peer, o),
        }
    }
}

fn nobody(n: u32) -> (r: DataError)
    ensures
        data_refused(Err::<(), DataError>(r), (425u16, nobody_came(n as nat))),
{
    if n > 0 {
        let d = decimal(n as u64);
        DataError::Refused(
            reply_of(
                425,
                join3(
                    "no data connection from the control host (",
                    d.as_str(),
                    " from elsewhere were refused)",
                ),
            ),
        )
    } else {
        DataError::Refused(reply_of(425, "the data connection was never opened".to_owned()))
    }
}

fn await_client<P: FtpPort>(tap: &mut FtpTap<P>, peer: &Option<String>) -> (r: Result<
    (),
    DataError,
>)
    ensures
        old(tap).log().is_prefix_of(final(tap).log()),
        awaited(final(tap).log().skip(old(tap).log().len() as int), opt_text(*peer), r),
{
    let ghost start = tap.log();
    let ghost s = start.len() as int;
    let mut turned_away: u32 = 0;
    while turned_away < u32::MAX
        invariant
            start == old(tap).log(),
            s == start.len(),
            start.is_prefix_of(tap.log()),
            tap.log().len() == s + turned_away,
            strangers(tap.log().skip(s), turned_away as int, opt_text(*peer)),
        decreases u32::MAX - turned_away,
    {
        let ghost before = tap.log().skip(s);
        let from = tap.accept();
        let ghost ev = tap.log().skip(s);
        proof {
            assert forall|i: int| 0 <= i < turned_away implies stranger(
                #[trigger] ev[i],
                opt_text(*peer),
            ) by {
                assert(ev[i] == before[i]);
            }
        }
        match from {
            Arrival::Failed(e) => {
                return Err(DataError::Refused(reply_of(425, join2("accept: ", e.as_str()))));
            },
            Arrival::TimedOut => {
                return Err(nobody(turned_away));
            },
            Arrival::From(h) => {
                let ours: bool = match peer {
                    Some(p) => same_text(p.as_str(), h.as_str()),
                    None => true,
                };
                if ours {
                    let res = tap.secure();
                    proof {
                        let all = tap.log().skip(s);
                        assert forall|i: int| 0 <= i < turned_away implies stranger(
                            #[trigger] all[i],
                            opt_text(*peer),
                        ) by {
                            assert(all[i] == ev[i]);
                        }
                        assert(all[turned_away as int] == ev[turned_away as int]);
                    }
                    return match res {
                        Ok(_) => Ok(()),
                        Err(e) => Err(DataError::Io(e)),
                    };
                }
            },
        }
        turned_away = turned_away + 1;
    }
    Err(nobody(turned_away))
}

/// Announce the transfer on the control connection and bring its data
/// connection about. The data port is open to the whole network for as long as
/// it is there, so a connection from elsewhere than the control host is dropped,
/// and the waiting goes on.
fn open_data<P: FtpPort>(
    tap: &mut FtpTap<P>,
    listening: &mut bool,
    peer: &Option<String>,
    what: &str,
) -> (r: Result<(), DataError>)
    ensures
        old(tap).log().is_prefix_of(final(tap).log()),
        opened(
            final(tap).log().skip(old(tap).log().len() as int),
            *old(listening),
            opt_text(*peer),
            what@,
            r,
        ),
        !*final(listening),
{
    if !*listening {
        return Err(DataError::Refused(reply_of(425, "use PASV or EPSV first".to_owned())));
    }
    *listening = false;
    let ghost start = tap.log();
    let res = tap.reply(150, what);
    let ghost mid = tap.log();
    match res {
        Err(e) => Err(DataError::Io(e)),
        Ok(_) => {
            let r = await_client(tap, peer);
            proof {
                lemma_then(start, mid, tap.log());
            }
            r
        },
    }
}

// ── An upload ───────────────────────────────────────────────────────────────

/// The bytes that whole rounds took in, each a read that fits under the limit
/// and an append of what was read; none where `ev` is anything else.
pub open spec fn taken_in(ev: Seq<FtpEvent>) -> Option<Seq<u8>>
    decreases ev.len(),
{
    if ev.len() == 0 {
        Some(Seq::empty())
    } else if ev.len() < 2 {
        None
    } else {
        let n = ev.len();
        match (taken_in(ev.take(n - 2)), ev[n - 2], ev[n - 1]) {
            (
                Some(got),
                FtpEvent::Read(Ok(b)),
                FtpEvent::Appended { bytes, res: Ok(_) },
            ) => if b.len() > 0 && bytes == b && got.len() + b.len() <= MAX_UPLOAD {
                Some(got + b)
            } else {
                None
            },
            _ => None,
        }
    }
}

/// `ev` takes an upload in to its end: what came of it, and its length. A reply
/// where it was more than the limit.
pub open spec fn received(ev: Seq<FtpEvent>, o: Result<u64, DataError>) -> bool {
    let n = ev.len();
    // The end of it.
    ||| {
        &&& n >= 1
        &&& taken_in(ev.take(n - 1)) matches Some(got)
        &&& ev[n - 1] == FtpEvent::Read(Ok(Seq::<u8>::empty()))
        &&& o == Ok::<u64, DataError>(got.len() as u64)
    }
    ||| {
        &&& n >= 1
        &&& taken_in(ev.take(n - 1)) is Some
        &&& ev[n - 1] matches FtpEvent::Read(Err(e))
        &&& broke_off(o, e)
    }
    // More than the limit: what is over it is not written.
    ||| {
        &&& n >= 1
        &&& taken_in(ev.take(n - 1)) matches Some(got)
        &&& ev[n - 1] matches FtpEvent::Read(Ok(b))
        &&& got.len() + b.len() > MAX_UPLOAD
        &&& data_refused(o, (552u16, "upload exceeds the 536870912-byte limit"@))
    }
    ||| {
        &&& n >= 2
        &&& taken_in(ev.take(n - 2)) matches Some(got)
        &&& ev[n - 2] matches FtpEvent::Read(Ok(b))
        &&& b.len() > 0
        &&& got.len() + b.len() <= MAX_UPLOAD
        &&& ev[n - 1] matches FtpEvent::Appended { bytes, res: Err(e) }
        &&& bytes == b
        &&& broke_off(o, e@)
    }
}

fn receive<P: FtpPort>(tap: &mut FtpTap<P>) -> (r: Result<u64, DataError>)
    ensures
        old(tap).log().is_prefix_of(final(tap).log()),
        received(final(tap).log().skip(old(tap).log().len() as int), r),
{
    let ghost start = tap.log();
    let ghost s = start.len() as int;
    let mut total: u64 = 0;
    let ghost mut got: Seq<u8> = Seq::empty();
    proof {
        assert(tap.log().skip(s) =~= Seq::<FtpEvent>::empty());
    }
    loop
        invariant
            start == old(tap).log(),
            s == start.len(),
            start.is_prefix_of(tap.log()),
            taken_in(tap.log().skip(s)) == Some(got),
            got.len() == total,
            total <= MAX_UPLOAD,
        decreases MAX_UPLOAD - total,
    {
        let ghost done = tap.log().skip(s);
        let piece = match tap.read() {
            Ok(b) => b,
            Err(e) => {
                proof {
                    let ev = tap.log().skip(s);
                    assert(ev.take(ev.len() - 1) =~= done);
                }
                return Err(DataError::Io(e));
            },
        };
        proof {
            let ev = tap.log().skip(s);
            assert(ev.take(ev.len() - 1) =~= done);
        }
        let n: usize = piece.len();
        if n == 0 {
            proof {
                assert(piece@ =~= Seq::<u8>::empty());
            }
            return Ok(total);
        }
        if n as u64 > MAX_UPLOAD - total {
            return Err(
                DataError::Refused(
                    reply_of(552, "upload exceeds the 536870912-byte limit".to_owned()),
                ),
            );
        }
        let res = tap.append(piece.as_slice());
        proof {
            let ev = tap.log().skip(s);
            assert(ev.take(ev.len() - 2) =~= done);
        }
        if let Err(e) = res {
            return Err(DataError::Io(e));
        }
        total = total + n as u64;
        proof {
            got = got + piece@;
        }
    }
}

/// The reply to an upload of `total` bytes that was pushed to the printer.
pub open spec fn pushed(res: Work<u64>, path: Seq<char>, total: u64, o: Result<FtpReply, DataError>) -> bool {
    match res {
        Err(e) => broke_off(o, e@),
        Ok(Ok(n)) => o matches Ok(r) && r@ == (
            226u16,
            "stored "@ + digits(n as nat) + " bytes to "@ + path + " on the printer"@,
        ),
        Ok(Err(e)) => o matches Ok(r) && r@ == (
            550u16,
            "received "@ + digits(total as nat) + " bytes but the printer refused them: "@ + e@,
        ),
    }
}

/// `ev` finishes the staged upload of `total` bytes, closes the data connection
/// properly and pushes the file to the printer.
pub open spec fn forwarded(
    ev: Seq<FtpEvent>,
    path: Seq<char>,
    total: u64,
    o: Result<FtpReply, DataError>,
) -> bool {
    &&& ev.len() >= 1
    &&& ev[0] matches FtpEvent::Flushed(f)
    &&& match f {
        Err(e) => ev.len() == 1 && broke_off(o, e@),
        Ok(_) => {
            &&& ev.len() >= 2
            &&& ev[1] matches FtpEvent::Shut(c)
            &&& match c {
                Err(e) => ev.len() == 2 && broke_off(o, e@),
                Ok(_) => {
                    &&& ev.len() == 3
                    &&& ev[2] matches FtpEvent::Uploaded { remote, res }
                    &&& remote == path
                    &&& pushed(res, path, total, o)
                },
            }
        },
    }
}

/// `ev` takes an upload in, up to `k`, and forwards it: nothing of it goes to the
/// printer before all of it is there.
pub open spec fn stored_at(
    ev: Seq<FtpEvent>,
    k: int,
    path: Seq<char>,
    o: Result<FtpReply, DataError>,
) -> bool {
    &&& 0 <= k <= ev.len()
    &&& exists|got: Result<u64, DataError>| #[trigger]
        received(ev.take(k), got) && match got {
            Ok(total) => forwarded(ev.skip(k), path, total, o),
            Err(DataError::Refused(r)) => k == ev.len() && (o matches Ok(x) && x@ == r@),
            Err(DataError::Io(e)) => k == ev.len() && broke_off(o, e@),
        }
}

/// `ev` stages an upload and forwards it.
pub open spec fn staged_and_forwarded(
    ev: Seq<FtpEvent>,
    path: Seq<char>,
    o: Result<FtpReply, DataError>,
) -> bool {
    &&& ev.len() >= 1
    &&& ev[0] matches FtpEvent::Staged(res)
    &&& match res {
        Err(e) => ev.len() == 1 && broke_off(o, e@),
        Ok(_) => exists|k: int| #[trigger] stored_at(ev.skip(1), k, path, o),
    }
}

/// A refusal to open the data connection is the refusal of the transfer.
pub open spec fn same_failure<T, U>(a: Result<T, DataError>, b: Result<U, DataError>) -> bool {
    match (a, b) {
        (Err(DataError::Refused(x)), Err(DataError::Refused(y))) => x@ == y@,
        (Err(DataError::Io(x)), Err(DataError::Io(y))) => x@ == y@,
        _ => false,
    }
}

/// What a transfer over a data connection needs to know.
pub struct DataSide {
    pub listening: bool,
    pub peer: Option<Seq<char>>,
}

/// `ev` is a whole upload, whose data connection was brought about up to `k`.
pub open spec fn store_split(
    ev: Seq<FtpEvent>,
    k: int,
    d: DataSide,
    path: Seq<char>,
    o: Result<FtpReply, DataError>,
) -> bool {
    &&& 0 <= k <= ev.len()
    &&& exists|c: Result<(), DataError>| #[trigger]
        opened(ev.take(k), d.listening, d.peer, "sending file"@, c) && match c {
            Ok(_) => staged_and_forwarded(ev.skip(k), path, o),
            Err(_) => k == ev.len() && same_failure(c, o),
        }
}

/// `ev` is a whole upload.
pub open spec fn store_done(
    ev: Seq<FtpEvent>,
    d: DataSide,
    path: Seq<char>,
    o: Result<FtpReply, DataError>,
) -> bool {
    exists|k: int| #[trigger] store_split(ev, k, d, path, o)
}

fn forward<P: FtpPort>(tap: &mut FtpTap<P>, path: &str, total: u64) -> (r: Result<
    FtpReply,
    DataError,
>)
    ensures
        old(tap).log().is_prefix_of(final(tap).log()),
        forwarded(final(tap).log().skip(old(tap).log().len() as int), path@, total, r),
{
    if let Err(e) = tap.flush() {
        return Err(DataError::Io(e));
    }
    if let Err(e) = tap.shutdown() {
        return Err(DataError::Io(e));
    }
    match tap.upload(path) {
        Err(e) => Err(DataError::Io(e)),
        Ok(Ok(n)) => {
            let d = decimal(n);
            Ok(
                reply_of(
                    226,
                    join5("stored ", d.as_str(), " bytes to ", path, " on the printer"),
                ),
            )
        },
        Ok(Err(e)) => {
            let d = decimal(total);
            Ok(
                reply_of(
                    550,
                    join4(
                        "received ",
                        d.as_str(),
                        " bytes but the printer refused them: ",
                        e.as_str(),
                    ),
                ),
            )
        },
    }
}

fn receive_and_forward<P: FtpPort>(tap: &mut FtpTap<P>, path: &str) -> (r: Result<
    FtpReply,
    DataError,
>)
    ensures
        old(tap).log().is_prefix_of(final(tap).log()),
        exists|k: int| #[trigger]
            stored_at(final(tap).log().skip(old(tap).log().len() as int), k, path@, r),
{
    let ghost start = tap.log();
    let got = receive(tap);
    let ghost held = got;
    let ghost mid = tap.log();
    let ghost k = mid.len() - start.len();
    match got {
        Err(DataError::Refused(reply)) => {
            proof {
                let ev = mid.skip(start.len() as int);
                assert(ev.take(k) =~= ev);
                assert(received(ev.take(k), held));
                assert(stored_at(ev, k, path@, Ok(reply)));
            }
            Ok(reply)
        },
        Err(DataError::Io(e)) => {
            proof {
                let ev = mid.skip(start.len() as int);
                assert(ev.take(k) =~= ev);
                assert(received(ev.take(k), held));
                assert(stored_at(ev, k, path@, Err(DataError::Io(e))));
            }
            Err(DataError::Io(e))
        },
        Ok(total) => {
            let r = forward(tap, path, total);
            proof {
                lemma_then(start, mid, tap.log());
                let ev = tap.log().skip(start.len() as int);
                assert(received(ev.take(k), held));
                assert(stored_at(ev, k, path@, r));
            }
            r
        },
    }
}

fn store<P: FtpPort>(
    tap: &mut FtpTap<P>,
    listening: &mut bool,
    peer: &Option<String>,
    path: &str,
) -> (r: Result<FtpReply, DataError>)
    ensures
        old(tap).log().is_prefix_of(final(tap).log()),
        store_done(
            final(tap).log().skip(old(tap).log().len() as int),
            DataSide { listening: *old(listening), peer: opt_text(*peer) },
            path@,
            r,
        ),
        !*final(listening),
{
    let ghost start = tap.log();
    let ghost d = DataSide { listening: *listening, peer: opt_text(*peer) };
    let c = open_data(tap, listening, peer, "sending file");
    let ghost held = c;
    let ghost mid = tap.log();
    let ghost k = mid.len() - start.len();
    match c {
        Err(why) => {
            let r: Result<FtpReply, DataError> = Err(why);
            proof {
                let ev = mid.skip(start.len() as int);
                assert(ev.take(k) =~= ev);
                assert(opened(ev.take(k), d.listening, d.peer, "sending file"@, held));
                assert(store_split(ev, k, d, path@, r));
            }
            r
        },
        Ok(_) => {
            let res = tap.stage();
            let ghost staged = tap.log();
            match res {
                Err(e) => {
                    let r: Result<FtpReply, DataError> = Err(DataError::Io(e));
                    proof {
                        lemma_then(start, mid, tap.log());
                        let ev = tap.log().skip(start.len() as int);
                        assert(opened(ev.take(k), d.listening, d.peer, "sending file"@, held));
                        assert(store_split(ev, k, d, path@, r));
                    }
                    r
                },
                Ok(_) => {
                    let r = receive_and_forward(tap, path);
                    proof {
                        lemma_then(mid, staged, tap.log());
                        lemma_then(start, mid, tap.log());
                        let ev = tap.log().skip(start.len() as int);
                        assert(opened(ev.take(k), d.listening, d.peer, "sending file"@, held));
                        assert(staged_and_forwarded(ev.skip(k), path@, r));
                        assert(store_split(ev, k, d, path@, r));
                    }
                    r
                },
            }
        },
    }
}

// ── A download, a listing ───────────────────────────────────────────────────

/// `ev` sends the staged file over the data connection.
pub open spec fn file_sent(ev: Seq<FtpEvent>, o: Result<FtpReply, DataError>) -> bool {
    &&& ev.len() == 1
    &&& ev[0] matches FtpEvent::SentStaged(res)
    &&& match res {
        Err(e) => broke_off(o, e@),
        Ok(n) => o matches Ok(r) && r@ == (226u16, "sent "@ + digits(n as nat) + " bytes"@),
    }
}

/// `ev` brings the data connection about, up to `k`, and sends the staged file.
pub open spec fn send_split(
    ev: Seq<FtpEvent>,
    k: int,
    d: DataSide,
    o: Result<FtpReply, DataError>,
) -> bool {
    &&& 0 <= k <= ev.len()
    &&& exists|c: Result<(), DataError>| #[trigger]
        opened(ev.take(k), d.listening, d.peer, "sending file"@, c) && match c {
            Ok(_) => file_sent(ev.skip(k), o),
            Err(_) => k == ev.len() && same_failure(c, o),
        }
}

/// `ev` is a whole download: the file is fetched before the data connection is
/// brought about, so that a missing one is refused with nothing sent.
pub open spec fn retrieve_done(
    ev: Seq<FtpEvent>,
    d: DataSide,
    path: Seq<char>,
    o: Result<FtpReply, DataError>,
) -> bool {
    &&& ev.len() >= 1
    &&& ev[0] matches FtpEvent::Staged(st)
    &&& match st {
        Err(e) => ev.len() == 1 && broke_off(o, e@),
        Ok(_) => {
            &&& ev.len() >= 2
            &&& ev[1] matches FtpEvent::Downloaded { remote, res }
            &&& remote == path
            &&& match res {
                Err(e) => ev.len() == 2 && broke_off(o, e@),
                Ok(Err(e)) => ev.len() == 2 && (o matches Ok(r) && r@ == (
                    550u16,
                    "the printer refused: "@ + e@,
                )),
                Ok(Ok(_)) => exists|k: int| #[trigger] send_split(ev.skip(2), k, d, o),
            }
        },
    }
}

fn send_file<P: FtpPort>(
    tap: &mut FtpTap<P>,
    listening: &mut bool,
    peer: &Option<String>,
) -> (r: Result<FtpReply, DataError>)
    ensures
        old(tap).log().is_prefix_of(final(tap).log()),
        exists|k: int| #[trigger]
            send_split(
                final(tap).log().skip(old(tap).log().len() as int),
                k,
                DataSide { listening: *old(listening), peer: opt_text(*peer) },
                r,
            ),
        !*final(listening),
{
    let ghost start = tap.log();
    let ghost d = DataSide { listening: *listening, peer: opt_text(*peer) };
    let c = open_data(tap, listening, peer, "sending file");
    let ghost held = c;
    let ghost mid = tap.log();
    let ghost k = mid.len() - start.len();
    let r: Result<FtpReply, DataError> = match c {
        Err(why) => Err(why),
        Ok(_) => match tap.send_staged() {
            Err(e) => Err(DataError::Io(e)),
            Ok(n) => {
                let n = decimal(n);
                Ok(reply_of(226, join3("sent ", n.as_str(), " bytes")))
            },
        },
    };
    proof {
        assert(mid.is_prefix_of(tap.log()));
        lemma_then(start, mid, tap.log());
        let ev = tap.log().skip(start.len() as int);
        assert(opened(ev.take(k), d.listening, d.peer, "sending file"@, held));
        assert(send_split(ev, k, d, r));
    }
    r
}

/// The file was fetched from the printer: its transfer uses the data port up.
pub open spec fn fetched(ev: Seq<FtpEvent>) -> bool {
    ev.len() >= 2 && (ev[1] matches FtpEvent::Downloaded { remote, res } && res matches Ok(Ok(_)))
}

fn retrieve<P: FtpPort>(
    tap: &mut FtpTap<P>,
    listening: &mut bool,
    peer: &Option<String>,
    path: &str,
) -> (r: Result<FtpReply, DataError>)
    ensures
        old(tap).log().is_prefix_of(final(tap).log()),
        retrieve_done(
            final(tap).log().skip(old(tap).log().len() as int),
            DataSide { listening: *old(listening), peer: opt_text(*peer) },
            path@,
            r,
        ),
        *final(listening) == (*old(listening) && !fetched(
            final(tap).log().skip(old(tap).log().len() as int),
        )),
{
    let ghost start = tap.log();
    if let Err(e) = tap.stage() {
        return Err(DataError::Io(e));
    }
    match tap.download(path) {
        Err(e) => Err(DataError::Io(e)),
        Ok(Err(e)) => Ok(reply_of(550, join2("the printer refused: ", e.as_str()))),
        Ok(Ok(_)) => {
            let ghost mid = tap.log();
            let r = send_file(tap, listening, peer);
            proof {
                lemma_then(start, mid, tap.log());
            }
            r
        },
    }
}

/// Some lines, each with its line end.
pub open spec fn crlf_lines(lines: Seq<Seq<char>>) -> Seq<char>
    decreases lines.len(),
{
    if lines.len() == 0 {
        Seq::empty()
    } else {
        crlf_lines(lines.drop_last()) + lines.last() + "\r\n"@
    }
}

fn listing_body(lines: &Vec<String>) -> (r: String)
    ensures
        r@ == crlf_lines(texts(lines@)),
{
    let mut r: String = String::new();
    let mut i: usize = 0;
    while i < lines.len()
        invariant
            i <= lines@.len(),
            r@ == crlf_lines(texts(lines@).take(i as int)),
        decreases lines@.len() - i,
    {
        proof {
            let next = texts(lines@).take(i + 1);
            assert(next.drop_last() =~= texts(lines@).take(i as int));
            assert(next.last() == lines@[i as int]@);
        }
        r.append(lines[i].as_str());
        r.append("\r\n");
        i += 1;
    }
    proof {
        assert(texts(lines@).take(i as int) =~= texts(lines@));
    }
    r
}

/// `ev` sends a listing over the data connection.
pub open spec fn listing_sent(
    ev: Seq<FtpEvent>,
    lines: Seq<Seq<char>>,
    o: Result<FtpReply, DataError>,
) -> bool {
    &&& ev.len() == 1
    &&& ev[0] matches FtpEvent::SentText { body, res }
    &&& body == crlf_lines(lines)
    &&& match res {
        Err(e) => broke_off(o, e@),
        Ok(_) => o matches Ok(r) && r@ == (
            226u16,
            "listed "@ + digits(lines.len()) + " entries"@,
        ),
    }
}

/// `ev` brings the data connection about, up to `k`, and sends the listing.
pub open spec fn listing_split(
    ev: Seq<FtpEvent>,
    k: int,
    d: DataSide,
    lines: Seq<Seq<char>>,
    o: Result<FtpReply, DataError>,
) -> bool {
    &&& 0 <= k <= ev.len()
    &&& exists|c: Result<(), DataError>| #[trigger]
        opened(ev.take(k), d.listening, d.peer, "sending listing"@, c) && match c {
            Ok(_) => listing_sent(ev.skip(k), lines, o),
            Err(_) => k == ev.len() && same_failure(c, o),
        }
}

/// `ev` is a whole listing: the printer's own lines, or its names, as they are.
pub open spec fn list_done(
    ev: Seq<FtpEvent>,
    d: DataSide,
    path: Seq<char>,
    names: bool,
    o: Result<FtpReply, DataError>,
) -> bool {
    &&& ev.len() >= 1
    &&& ev[0] matches FtpEvent::Listed { dir, names_only, res }
    &&& dir == path && names_only == names
    &&& match res {
        Err(e) => ev.len() == 1 && broke_off(o, e@),
        Ok(Err(e)) => ev.len() == 1 && (o matches Ok(r) && r@ == (
            550u16,
            "the printer refused: "@ + e@,
        )),
        Ok(Ok(lines)) => exists|k: int| #[trigger]
            listing_split(ev.skip(1), k, d, texts(lines@), o),
    }
}

fn send_listing<P: FtpPort>(
    tap: &mut FtpTap<P>,
    listening: &mut bool,
    peer: &Option<String>,
    lines: &Vec<String>,
) -> (r: Result<FtpReply, DataError>)
    ensures
        old(tap).log().is_prefix_of(final(tap).log()),
        exists|k: int| #[trigger]
            listing_split(
                final(tap).log().skip(old(tap).log().len() as int),
                k,
                DataSide { listening: *old(listening), peer: opt_text(*peer) },
                texts(lines@),
                r,
            ),
        !*final(listening),
{
    let ghost start = tap.log();
    let ghost d = DataSide { listening: *listening, peer: opt_text(*peer) };
    let c = open_data(tap, listening, peer, "sending listing");
    let ghost held = c;
    let ghost mid = tap.log();
    let ghost k = mid.len() - start.len();
    let r: Result<FtpReply, DataError> = match c {
        Err(why) => Err(why),
        Ok(_) => {
            let body = listing_body(lines);
            match tap.send_text(body.as_str()) {
                Err(e) => Err(DataError::Io(e)),
                Ok(_) => {
                    let n = decimal(lines.len() as u64);
                    Ok(reply_of(226, join3("listed ", n.as_str(), " entries")))
                },
            }
        },
    };
    proof {
        assert(mid.is_prefix_of(tap.log()));
        lemma_then(start, mid, tap.log());
        let ev = tap.log().skip(start.len() as int);
        assert(opened(ev.take(k), d.listening, d.peer, "sending listing"@, held));
        assert(listing_split(ev, k, d, texts(lines@), r));
    }
    r
}

/// The directory was listed: sending the listing uses the data port up.
pub open spec fn was_listed(ev: Seq<FtpEvent>) -> bool {
    ev.len() >= 1 && (ev[0] matches FtpEvent::Listed { dir, names_only, res } && res matches Ok(
        Ok(_),
    ))
}

fn list<P: FtpPort>(
    tap: &mut FtpTap<P>,
    listening: &mut bool,
    peer: &Option<String>,
    path: &str,
    names_only: bool,
) -> (r: Result<FtpReply, DataError>)
    ensures
        old(tap).log().is_prefix_of(final(tap).log()),
        list_done(
            final(tap).log().skip(old(tap).log().len() as int),
            DataSide { listening: *old(listening), peer: opt_text(*peer) },
            path@,
            names_only,
            r,
        ),
        *final(listening) == (*old(listening) && !was_listed(
            final(tap).log().skip(old(tap).log().len() as int),
        )),
{
    let ghost start = tap.log();
    match tap.list(path, names_only) {
        Err(e) => Err(DataError::Io(e)),
        Ok(Err(e)) => Ok(reply_of(550, join2("the printer refused: ", e.as_str()))),
        Ok(Ok(lines)) => {
            let ghost mid = tap.log();
            let r = send_listing(tap, listening, peer, &lines);
            proof {
                lemma_then(start, mid, tap.log());
            }
            r
        },
    }
}

// ── A size ──────────────────────────────────────────────────────────────────

/// The directory of a path.
pub open spec fn parent_of(path: Seq<char>) -> Seq<char> {
    if path.contains('/') && path.len() - after_last(path, '/').len() > 1 {
        path.take(path.len() - after_last(path, '/').len() - 1)
    } else {
        "/"@
    }
}

/// A file's size in a listing of its directory.
pub open spec fn size_in(entries: Seq<FileEntry>, name: Seq<char>) -> Option<u64>
    decreases entries.len(),
{
    if entries.len() == 0 {
        None
    } else if entries[0].name@ == name && !entries[0].is_dir {
        Some(entries[0].size)
    } else {
        size_in(entries.drop_first(), name)
    }
}

fn parent_dir(path: &str) -> (r: String)
    ensures
        r@ == parent_of(path@),
{
    let cs = chars_of(path);
    let n: usize = cs.len();
    let mut i: usize = n;
    while i > 0 && cs[i - 1] != '/'
        invariant
            i <= n,
            n == cs@.len(),
            cs@ == path@,
            forall|j: int| i <= j < n ==> path@[j] != '/',
        decreases i,
    {
        i -= 1;
    }
    proof {
        crate::text::lemma_after_last(path@, '/', i as int);
        if i > 0 {
            assert(path@[i - 1] == '/');
            assert(path@.contains('/'));
        }
    }
    if i > 1 {
        proof {
            assert(path@.subrange(0, i - 1) =~= path@.take(i - 1));
        }
        path.substring_char(0, i - 1).to_owned()
    } else {
        "/".to_owned()
    }
}

fn find_size(entries: &Vec<FileEntry>, name: &str) -> (r: Option<u64>)
    ensures
        r == size_in(entries@, name@),
{
    let mut i: usize = 0;
    proof {
        assert(entries@.skip(0) =~= entries@);
    }
    while i < entries.len()
        invariant
            i <= entries@.len(),
            size_in(entries@, name@) == size_in(entries@.skip(i as int), name@),
        decreases entries@.len() - i,
    {
        proof {
            let t = entries@.skip(i as int);
            assert(t[0] == entries@[i as int]);
            assert(t.drop_first() =~= entries@.skip(i + 1));
        }
        if same_text(entries[i].name.as_str(), name) && !entries[i].is_dir {
            return Some(entries[i].size);
        }
        i += 1;
    }
    None
}

/// The reply to a question for a size.
pub open spec fn size_reply(res: Work<Vec<FileEntry>>, path: Seq<char>) -> (u16, Seq<char>) {
    match res {
        Err(e) => (550u16, "size failed: "@ + e@),
        Ok(Err(e)) => (550u16, "size failed: "@ + e@),
        Ok(Ok(entries)) => match size_in(entries@, after_last(path, '/')) {
            Some(n) => (213u16, digits(n as nat)),
            None => (550u16, "no such file: "@ + path),
        },
    }
}

fn size_of<P: FtpPort>(tap: &mut FtpTap<P>, path: &str) -> (r: FtpReply)
    ensures
        old(tap).log().is_prefix_of(final(tap).log()),
        final(tap).log().len() == old(tap).log().len() + 1,
        (final(tap).log().last() matches FtpEvent::Entries { dir, res } && dir == parent_of(path@)
            && r@ == size_reply(res, path@)),
{
    let dir = parent_dir(path);
    let name = tail_after(path, '/');
    match tap.entries(dir.as_str()) {
        Err(e) => reply_of(550, join2("size failed: ", e.as_str())),
        Ok(Err(e)) => reply_of(550, join2("size failed: ", e.as_str())),
        Ok(Ok(entries)) => match find_size(&entries, name.as_str()) {
            Some(n) => reply_of(213, decimal(n)),
            None => reply_of(550, join2("no such file: ", path)),
        },
    }
}

// ── A command ───────────────────────────────────────────────────────────────

/// The reply to a write that a read-only relay is asked for.
pub open spec fn read_only_reply() -> (u16, Seq<char>) {
    (550u16, "refused by the bambu-rs emulator: relay is read-only"@)
}

/// A command that writes.
pub open spec fn is_write(a: FtpAction) -> bool {
    a is Store || a is Delete || a is Rename || a is MakeDir || a is RemoveDir
}

/// The address part of a classic passive reply: four numbers and the port's two
/// bytes.
pub open spec fn classic_text(ip: (u8, u8, u8, u8), port: u16) -> Seq<char> {
    "entering passive mode ("@ + digits(ip.0 as nat) + ","@ + digits(ip.1 as nat) + ","@ + digits(
        ip.2 as nat,
    ) + ","@ + digits(ip.3 as nat) + ","@ + digits((port / 256) as nat) + ","@ + digits(
        (port % 256) as nat,
    ) + ")"@
}

/// The reply that hands out a data port; none where it cannot be expressed.
pub open spec fn passive_reply(
    kind: PassiveKind,
    local: Option<(u8, u8, u8, u8)>,
    port: u16,
) -> Option<(u16, Seq<char>)> {
    match kind {
        PassiveKind::Extended => Some(
            (229u16, "entering extended passive mode (|||"@ + digits(port as nat) + "|)"@),
        ),
        PassiveKind::Classic => match local {
            Some(ip) => Some((227u16, classic_text(ip, port))),
            None => None,
        },
    }
}

/// The reply to work that wrote at the printer: `done` where it worked.
pub open spec fn write_reply(
    res: Work<()>,
    done: (u16, Seq<char>),
    failed: Seq<char>,
) -> Result<(u16, Seq<char>), Seq<char>> {
    match res {
        Err(e) => Err(e@),
        Ok(Ok(_)) => Ok(done),
        Ok(Err(e)) => Ok((550u16, failed + e@)),
    }
}

/// The one reply that a transfer ends with.
pub open spec fn terminal(o: Result<FtpReply, DataError>, failed: Seq<char>) -> (u16, Seq<char>) {
    match o {
        Ok(r) => r@,
        Err(DataError::Refused(r)) => r@,
        Err(DataError::Io(e)) => (550u16, failed + e@),
    }
}

/// What a command comes to before its reply is written: the reply, or the error
/// that ends the connection.
pub type Outcome = Result<(u16, Seq<char>), Seq<char>>;

/// `ev` opens a data port and keeps it, where its address can be expressed.
pub open spec fn passive_done(
    ev: Seq<FtpEvent>,
    kind: PassiveKind,
    local: Option<(u8, u8, u8, u8)>,
    before: bool,
    after: bool,
    o: Outcome,
) -> bool {
    &&& ev.len() >= 1
    &&& ev[0] matches FtpEvent::Bound(b)
    &&& match b {
        Bound::Failed(e) => ev.len() == 1 && o == Outcome::Ok(
            (425u16, "cannot open a data port: "@ + e@),
        ) && after == before,
        Bound::Nowhere(e) => ev.len() == 1 && o == Outcome::Err(e@) && after == before,
        Bound::Port(port) => match passive_reply(kind, local, port) {
            Some(r) => ev.len() == 2 && ev[1] == FtpEvent::Kept && o == Outcome::Ok(r) && after,
            None => ev.len() == 1 && o == Outcome::Ok(
                (522u16, "use EPSV: PASV cannot express this address"@),
            ) && after == before,
        },
    }
}

/// `ev` is what command `a` does before its reply is written, and `o` what that
/// comes to. `after` says whether a data port is then kept.
pub open spec fn carried_out(
    ev: Seq<FtpEvent>,
    a: FtpAction,
    read_only: bool,
    local: Option<(u8, u8, u8, u8)>,
    d: DataSide,
    after: bool,
    o: Outcome,
) -> bool {
    if read_only && is_write(a) {
        ev.len() == 0 && o == Outcome::Ok(read_only_reply()) && after == d.listening
    } else {
        match a {
            FtpAction::Reply(r) => ev.len() == 0 && o == Outcome::Ok(r@) && after == d.listening,
            FtpAction::Close(r) => ev.len() == 0 && o == Outcome::Ok(r@) && after == d.listening,
            FtpAction::Passive(kind) => passive_done(ev, kind, local, d.listening, after, o),
            FtpAction::Store { path } => {
                &&& exists|t: Result<FtpReply, DataError>| #[trigger]
                    store_done(ev, d, path@, t) && o == Outcome::Ok(
                        terminal(t, "upload failed: "@),
                    )
                &&& !after
            },
            FtpAction::Retrieve { path } => {
                &&& exists|t: Result<FtpReply, DataError>| #[trigger]
                    retrieve_done(ev, d, path@, t) && o == Outcome::Ok(
                        terminal(t, "download failed: "@),
                    )
                &&& after == (d.listening && !fetched(ev))
            },
            FtpAction::List { path, names_only } => {
                &&& exists|t: Result<FtpReply, DataError>| #[trigger]
                    list_done(ev, d, path@, names_only, t) && o == Outcome::Ok(
                        terminal(t, "listing failed: "@),
                    )
                &&& after == (d.listening && !was_listed(ev))
            },
            FtpAction::Delete { path } => {
                &&& ev.len() == 1
                &&& ev[0] matches FtpEvent::Deleted { path: p, res }
                &&& p == path@
                &&& o == write_reply(res, (250u16, "deleted "@ + path@), "delete failed: "@)
                &&& after == d.listening
            },
            FtpAction::Rename { from, to } => {
                &&& ev.len() == 1
                &&& ev[0] matches FtpEvent::Renamed { from: f, to: t, res }
                &&& f == from@ && t == to@
                &&& o == write_reply(res, (250u16, "renamed"@), "the printer refused: "@)
                &&& after == d.listening
            },
            FtpAction::MakeDir { path } => {
                &&& ev.len() == 1
                &&& ev[0] matches FtpEvent::MadeDir { path: p, res }
                &&& p == path@
                &&& o == write_reply(
                    res,
                    (257u16, "\""@ + path@ + "\" created"@),
                    "the printer refused: "@,
                )
                &&& after == d.listening
            },
            FtpAction::RemoveDir { path } => {
                &&& ev.len() == 1
                &&& ev[0] matches FtpEvent::RemovedDir { path: p, res }
                &&& p == path@
                &&& o == write_reply(res, (250u16, "removed"@), "the printer refused: "@)
                &&& after == d.listening
            },
            FtpAction::Size { path } => {
                &&& ev.len() == 1
                &&& ev[0] matches FtpEvent::Entries { dir, res }
                &&& dir == parent_of(path@)
                &&& o == Outcome::Ok(size_reply(res, path@))
                &&& after == d.listening
            },
        }
    }
}

/// A command done up to `k`, and then its one reply. `r` says whether the
/// connection is to be closed, or the error that ended it.
pub open spec fn run_split(
    ev: Seq<FtpEvent>,
    k: int,
    a: FtpAction,
    read_only: bool,
    local: Option<(u8, u8, u8, u8)>,
    d: DataSide,
    after: bool,
    r: Result<bool, String>,
) -> bool {
    &&& 0 <= k <= ev.len()
    &&& exists|o: Outcome| #[trigger]
        carried_out(ev.take(k), a, read_only, local, d, after, o) && match o {
            Err(e) => k == ev.len() && (r matches Err(x) && x@ == e),
            Ok(reply) => {
                &&& ev.len() == k + 1
                &&& ev[k] matches FtpEvent::Replied { code, text, res }
                &&& (code, text) == reply
                &&& match res {
                    Err(e) => r matches Err(x) && x@ == e@,
                    Ok(_) => r == Ok::<bool, String>(a is Close),
                }
            },
        }
}

/// `ev` is all that a command does outside.
pub open spec fn ran(
    ev: Seq<FtpEvent>,
    a: FtpAction,
    read_only: bool,
    local: Option<(u8, u8, u8, u8)>,
    d: DataSide,
    after: bool,
    r: Result<bool, String>,
) -> bool {
    exists|k: int| #[trigger] run_split(ev, k, a, read_only, local, d, after, r)
}

fn terminal_reply(o: Result<FtpReply, DataError>, failed: &str) -> (r: FtpReply)
    ensures
        r@ == terminal(o, failed@),
{
    match o {
        Ok(r) => r,
        Err(DataError::Refused(r)) => r,
        Err(DataError::Io(e)) => reply_of(550, join2(failed, e.as_str())),
    }
}

fn written(res: Work<()>, code: u16, done: String, failed: &str) -> (r: Result<FtpReply, String>)
    ensures
        match (r, write_reply(res, (code, done@), failed@)) {
            (Ok(a), Ok(b)) => a@ == b,
            (Err(a), Err(b)) => a@ == b,
            _ => false,
        },
{
    match res {
        Err(e) => Err(e),
        Ok(Ok(_)) => Ok(reply_of(code, done)),
        Ok(Err(e)) => Ok(reply_of(550, join2(failed, e.as_str()))),
    }
}

fn classic_reply(ip: (u8, u8, u8, u8), port: u16) -> (r: String)
    ensures
        r@ == classic_text(ip, port),
{
    let a = decimal(ip.0 as u64);
    let b = decimal(ip.1 as u64);
    let c = decimal(ip.2 as u64);
    let d = decimal(ip.3 as u64);
    let high = decimal((port / 256) as u64);
    let low = decimal((port % 256) as u64);
    let mut r = join5("entering passive mode (", a.as_str(), ",", b.as_str(), ",");
    r.append(c.as_str());
    r.append(",");
    r.append(d.as_str());
    r.append(",");
    r.append(high.as_str());
    r.append(",");
    r.append(low.as_str());
    r.append(")");
    r
}

/// The outcome of a command, by its reply or its error.
pub open spec fn outcome_view(r: Result<FtpReply, String>) -> Outcome {
    match r {
        Ok(x) => Ok(x@),
        Err(e) => Err(e@),
    }
}

fn passive<P: FtpPort>(
    tap: &mut FtpTap<P>,
    kind: PassiveKind,
    local: Option<(u8, u8, u8, u8)>,
    listening: &mut bool,
) -> (r: Result<FtpReply, String>)
    ensures
        old(tap).log().is_prefix_of(final(tap).log()),
        passive_done(
            final(tap).log().skip(old(tap).log().len() as int),
            kind,
            local,
            *old(listening),
            *final(listening),
            outcome_view(r),
        ),
{
    match tap.bind() {
        Bound::Failed(e) => Ok(reply_of(425, join2("cannot open a data port: ", e.as_str()))),
        Bound::Nowhere(e) => Err(e),
        Bound::Port(port) => {
            let reply = match kind {
                PassiveKind::Extended => {
                    let n = decimal(port as u64);
                    reply_of(
                        229,
                        join3("entering extended passive mode (|||", n.as_str(), "|)"),
                    )
                },
                PassiveKind::Classic => match local {
                    Some(ip) => reply_of(227, classic_reply(ip, port)),
                    None => {
                        return Ok(
                            reply_of(
                                522,
                                "use EPSV: PASV cannot express this address".to_owned(),
                            ),
                        );
                    },
                },
            };
            tap.keep();
            *listening = true;
            Ok(reply)
        },
    }
}

/// The emulated printer's file server.
#[derive(Debug)]
pub struct FtpRelay {
    access_code: String,
    read_only: bool,
    pasv_ports: Option<(u16, u16)>,
}

impl FtpRelay {
    pub closed spec fn code(self) -> Seq<char> {
        self.access_code@
    }

    /// It refuses everything that writes.
    pub closed spec fn refuses_writes(self) -> bool {
        self.read_only
    }

    /// The ports that data connections are confined to: the first and the last.
    pub closed spec fn confined_to(self) -> Option<(u16, u16)> {
        self.pasv_ports
    }

    pub fn new(access_code: &str) -> (r: FtpRelay)
        ensures
            r.code() == access_code@,
            !r.refuses_writes(),
            r.confined_to() is None,
    {
        FtpRelay { access_code: access_code.to_owned(), read_only: false, pasv_ports: None }
    }

    /// A relay that refuses everything that writes.
    pub fn read_only(access_code: &str) -> (r: FtpRelay)
        ensures
            r.code() == access_code@,
            r.refuses_writes(),
            r.confined_to() is None,
    {
        FtpRelay { access_code: access_code.to_owned(), read_only: true, pasv_ports: None }
    }

    /// The relay with its data connections confined to these ports, the first and
    /// the last.
    pub fn with_pasv_ports(self, ports: Option<(u16, u16)>) -> (r: FtpRelay)
        ensures
            r.code() == self.code(),
            r.refuses_writes() == self.refuses_writes(),
            r.confined_to() == ports,
    {
        FtpRelay { access_code: self.access_code, read_only: self.read_only, pasv_ports: ports }
    }

    /// The ports that data connections are confined to.
    pub fn pasv_ports(&self) -> (r: Option<(u16, u16)>)
        ensures
            r == self.confined_to(),
    {
        self.pasv_ports
    }

    /// The code a client logs in with.
    pub fn access_code(&self) -> (r: &str)
        ensures
            r@ == self.code(),
    {
        self.access_code.as_str()
    }

    fn carry_out<P: FtpPort>(
        &self,
        tap: &mut FtpTap<P>,
        action: &FtpAction,
        listening: &mut bool,
        local: Option<(u8, u8, u8, u8)>,
        peer: &Option<String>,
    ) -> (r: Result<FtpReply, String>)
        ensures
            old(tap).log().is_prefix_of(final(tap).log()),
            carried_out(
                final(tap).log().skip(old(tap).log().len() as int),
                *action,
                self.refuses_writes(),
                local,
                DataSide { listening: *old(listening), peer: opt_text(*peer) },
                *final(listening),
                outcome_view(r),
            ),
    {
        let writes: bool = match action {
            FtpAction::Store { .. } => true,
            FtpAction::Delete { .. } => true,
            FtpAction::Rename { .. } => true,
            FtpAction::MakeDir { .. } => true,
            FtpAction::RemoveDir { .. } => true,
            _ => false,
        };
        if self.read_only && writes {
            return Ok(
                reply_of(
                    550,
                    "refused by the bambu-rs emulator: relay is read-only".to_owned(),
                ),
            );
        }
        match action {
            FtpAction::Reply(x) => Ok(reply_of(x.code, x.text.clone())),
            FtpAction::Close(x) => Ok(reply_of(x.code, x.text.clone())),
            FtpAction::Passive(kind) => passive(tap, *kind, local, listening),
            FtpAction::Store { path } => {
                let t = store(tap, listening, peer, path.as_str());
                Ok(terminal_reply(t, "upload failed: "))
            },
            FtpAction::Retrieve { path } => {
                let t = retrieve(tap, listening, peer, path.as_str());
                Ok(terminal_reply(t, "download failed: "))
            },
            FtpAction::List { path, names_only } => {
                let t = list(tap, listening, peer, path.as_str(), *names_only);
                Ok(terminal_reply(t, "listing failed: "))
            },
            FtpAction::Delete { path } => {
                let res = tap.delete(path.as_str());
                written(res, 250, join2("deleted ", path.as_str()), "delete failed: ")
            },
            FtpAction::Rename { from, to } => {
                let res = tap.rename(from.as_str(), to.as_str());
                written(res, 250, "renamed".to_owned(), "the printer refused: ")
            },
            FtpAction::MakeDir { path } => {
                let res = tap.make_dir(path.as_str());
                written(
                    res,
                    257,
                    join3("\"", path.as_str(), "\" created"),
                    "the printer refused: ",
                )
            },
            FtpAction::RemoveDir { path } => {
                let res = tap.remove_dir(path.as_str());
                written(res, 250, "removed".to_owned(), "the printer refused: ")
            },
            FtpAction::Size { path } => Ok(size_of(tap, path.as_str())),
        }
    }

    /// Carry out one command and write its reply. `listening` says whether a
    /// data port is kept, `local` the address the client reached where that is
    /// an IPv4 one, `peer` the host it came from. What comes back says whether
    /// the connection is to be closed.
    pub fn run<P: FtpPort>(
        &self,
        tap: &mut FtpTap<P>,
        action: &FtpAction,
        listening: &mut bool,
        local: Option<(u8, u8, u8, u8)>,
        peer: &Option<String>,
    ) -> (r: Result<bool, String>)
        ensures
            old(tap).log().is_prefix_of(final(tap).log()),
            ran(
                final(tap).log().skip(old(tap).log().len() as int),
                *action,
                self.refuses_writes(),
                local,
                DataSide { listening: *old(listening), peer: opt_text(*peer) },
                *final(listening),
                r,
            ),
    {
        let ghost start = tap.log();
        let ghost d = DataSide { listening: *listening, peer: opt_text(*peer) };
        let ghost ro = self.refuses_writes();
        let o = self.carry_out(tap, action, listening, local, peer);
        let ghost out = outcome_view(o);
        let ghost mid = tap.log();
        let ghost k = mid.len() - start.len();
        let close: bool = match action {
            FtpAction::Close(_) => true,
            _ => false,
        };
        let r: Result<bool, String> = match o {
            Err(e) => Err(e),
            Ok(x) => match tap.reply(x.code, x.text.as_str()) {
                Err(e) => Err(e),
                Ok(_) => Ok(close),
            },
        };
        proof {
            assert(mid.is_prefix_of(tap.log()));
            lemma_then(start, mid, tap.log());
            let ev = tap.log().skip(start.len() as int);
            assert(carried_out(ev.take(k), *action, ro, local, d, *listening, out));
            assert(run_split(ev, k, *action, ro, local, d, *listening, r));
        }
        r
    }
}

// ── Laws ────────────────────────────────────────────────────────────────────

/// An event that changes something at the printer.
pub open spec fn changes_printer(e: FtpEvent) -> bool {
    e is Uploaded || e is Deleted || e is Renamed || e is MadeDir || e is RemovedDir
}

/// A reply that announces a transfer and does not end a command.
pub open spec fn is_preliminary(e: FtpEvent) -> bool {
    e matches FtpEvent::Replied { code, text, res } && code == 150
}

/// The connection that was encrypted at `i` came from the client's own host.
pub open spec fn secured_for(ev: Seq<FtpEvent>, i: int, peer: Option<Seq<char>>) -> bool {
    i > 0 && (ev[i - 1] matches FtpEvent::Accepted(Arrival::From(h)) && belongs(peer, h@))
}

/// What holds of every event of a transfer.
pub open spec fn mannered(ev: Seq<FtpEvent>, peer: Option<Seq<char>>) -> bool {
    forall|i: int|
        0 <= i < ev.len() ==> {
            &&& (#[trigger] ev[i]) is Replied ==> is_preliminary(ev[i])
            &&& ev[i] is Secured ==> secured_for(ev, i, peer)
        }
}

/// Events none of which changes anything at the printer.
pub open spec fn harmless(ev: Seq<FtpEvent>) -> bool {
    forall|i: int| 0 <= i < ev.len() ==> !changes_printer(#[trigger] ev[i])
}

proof fn lemma_joined(ev: Seq<FtpEvent>, k: int, peer: Option<Seq<char>>)
    requires
        0 <= k <= ev.len(),
    ensures
        mannered(ev.take(k), peer) && mannered(ev.skip(k), peer) ==> mannered(ev, peer),
        harmless(ev.take(k)) && harmless(ev.skip(k)) ==> harmless(ev),
{
    let a = ev.take(k);
    let b = ev.skip(k);
    assert forall|i: int| 0 <= i < ev.len() implies ev[i] == (if i < k {
        a[i]
    } else {
        b[i - k]
    }) by {}
    if mannered(a, peer) && mannered(b, peer) {
        assert forall|i: int| 0 <= i < ev.len() implies {
            &&& (#[trigger] ev[i]) is Replied ==> is_preliminary(ev[i])
            &&& ev[i] is Secured ==> secured_for(ev, i, peer)
        } by {
            if i < k {
                assert(a[i] == ev[i]);
                if i > 0 {
                    assert(a[i - 1] == ev[i - 1]);
                }
            } else {
                assert(b[i - k] == ev[i]);
                if i > k {
                    assert(b[i - k - 1] == ev[i - 1]);
                }
            }
        }
    }
    if harmless(a) && harmless(b) {
        assert forall|i: int| 0 <= i < ev.len() implies !changes_printer(#[trigger] ev[i]) by {
            if i < k {
                assert(a[i] == ev[i]);
            } else {
                assert(b[i - k] == ev[i]);
            }
        }
    }
}

proof fn lemma_opened(
    ev: Seq<FtpEvent>,
    listening: bool,
    peer: Option<Seq<char>>,
    what: Seq<char>,
    o: Result<(), DataError>,
)
    requires
        opened(ev, listening, peer, what, o),
    ensures
        mannered(ev, peer),
        harmless(ev),
{
    if listening {
        let t = ev.skip(1);
        assert forall|i: int| 0 <= i < ev.len() implies {
            &&& (#[trigger] ev[i]) is Replied ==> is_preliminary(ev[i])
            &&& ev[i] is Secured ==> secured_for(ev, i, peer)
            &&& !changes_printer(ev[i])
        } by {
            if i > 0 {
                assert(t[i - 1] == ev[i]);
                if i < ev.len() - 2 {
                    assert(i - 1 < t.len() - 2);
                }
                if i > 1 {
                    assert(t[i - 2] == ev[i - 1]);
                }
                if ev[i] is Secured {
                    assert(i == ev.len() - 1);
                }
            }
        }
    }
}

proof fn lemma_taken_in(ev: Seq<FtpEvent>)
    requires
        taken_in(ev) is Some,
    ensures
        forall|i: int| 0 <= i < ev.len() ==> (#[trigger] ev[i]) is Read || ev[i] is Appended,
        taken_in(ev) == Some(bytes_read(ev)),
        bytes_read(ev) == bytes_staged(ev),
        bytes_read(ev).len() <= MAX_UPLOAD,
    decreases ev.len(),
{
    if ev.len() >= 2 {
        let n = ev.len() as int;
        let less = ev.take(n - 2);
        lemma_taken_in(less);
        assert forall|i: int| 0 <= i < ev.len() implies (#[trigger] ev[i]) is Read
            || ev[i] is Appended by {
            if i < n - 2 {
                assert(less[i] == ev[i]);
            }
        }
        let e1 = ev.drop_last();
        assert(e1.drop_last() =~= less);
        assert(e1.last() == ev[n - 2]);
        reveal_with_fuel(bytes_read, 3);
        reveal_with_fuel(bytes_staged, 3);
        assert(bytes_read(ev) =~= bytes_read(less) + read_at(ev[n - 2]));
        assert(bytes_staged(ev) =~= bytes_staged(less) + staged_at(ev[n - 1]));
    }
}

/// What one event read.
pub open spec fn read_at(e: FtpEvent) -> Seq<u8> {
    match e {
        FtpEvent::Read(Ok(b)) => b,
        _ => Seq::empty(),
    }
}

/// What one event staged.
pub open spec fn staged_at(e: FtpEvent) -> Seq<u8> {
    match e {
        FtpEvent::Appended { bytes, res: Ok(_) } => bytes,
        _ => Seq::empty(),
    }
}

/// All that the client sent, in order.
pub open spec fn bytes_read(ev: Seq<FtpEvent>) -> Seq<u8>
    decreases ev.len(),
{
    if ev.len() == 0 {
        Seq::empty()
    } else {
        bytes_read(ev.drop_last()) + read_at(ev.last())
    }
}

/// All that was staged, in order.
pub open spec fn bytes_staged(ev: Seq<FtpEvent>) -> Seq<u8>
    decreases ev.len(),
{
    if ev.len() == 0 {
        Seq::empty()
    } else {
        bytes_staged(ev.drop_last()) + staged_at(ev.last())
    }
}

/// An upload that was received to its end is staged whole and as it came, and
/// no upload is staged past its limit.
pub proof fn a_received_upload_is_whole(ev: Seq<FtpEvent>, total: u64)
    requires
        received(ev, Ok(total)),
    ensures
        bytes_staged(ev) == bytes_read(ev),
        bytes_staged(ev).len() == total,
        total <= MAX_UPLOAD,
        ev.last() == FtpEvent::Read(Ok(Seq::<u8>::empty())),
{
    let n = ev.len() as int;
    let less = ev.take(n - 1);
    assert(ev.drop_last() =~= less);
    lemma_taken_in(less);
    assert(bytes_read(ev) =~= bytes_read(less));
    assert(bytes_staged(ev) =~= bytes_staged(less));
}

proof fn lemma_received(ev: Seq<FtpEvent>, o: Result<u64, DataError>)
    requires
        received(ev, o),
    ensures
        forall|i: int| 0 <= i < ev.len() ==> (#[trigger] ev[i]) is Read || ev[i] is Appended,
{
    let n = ev.len() as int;
    let tail: int = if n >= 2 && ev[n - 1] is Appended {
        2
    } else {
        1
    };
    let less = ev.take(n - tail);
    lemma_taken_in(less);
    assert forall|i: int| 0 <= i < ev.len() implies (#[trigger] ev[i]) is Read
        || ev[i] is Appended by {
        if i < n - tail {
            assert(less[i] == ev[i]);
        }
    }
}

proof fn lemma_stored(ev: Seq<FtpEvent>, k: int, path: Seq<char>, o: Result<FtpReply, DataError>)
    requires
        stored_at(ev, k, path, o),
    ensures
        forall|i: int|
            0 <= i < ev.len() ==> !((#[trigger] ev[i]) is Replied) && !(ev[i] is Secured),
{
    let got = choose|got: Result<u64, DataError>| #[trigger]
        received(ev.take(k), got) && match got {
            Ok(total) => forwarded(ev.skip(k), path, total, o),
            Err(DataError::Refused(r)) => k == ev.len() && (o matches Ok(x) && x@ == r@),
            Err(DataError::Io(e)) => k == ev.len() && broke_off(o, e@),
        };
    lemma_received(ev.take(k), got);
    assert forall|i: int| 0 <= i < ev.len() implies !((#[trigger] ev[i]) is Replied) && !(
    ev[i] is Secured) by {
        if i < k {
            assert(ev.take(k)[i] == ev[i]);
        } else {
            assert(ev.skip(k)[i - k] == ev[i]);
        }
    }
}

proof fn lemma_store(
    ev: Seq<FtpEvent>,
    d: DataSide,
    path: Seq<char>,
    o: Result<FtpReply, DataError>,
)
    requires
        store_done(ev, d, path, o),
    ensures
        mannered(ev, d.peer),
{
    let k = choose|k: int| #[trigger] store_split(ev, k, d, path, o);
    let c = choose|c: Result<(), DataError>| #[trigger]
        opened(ev.take(k), d.listening, d.peer, "sending file"@, c) && match c {
            Ok(_) => staged_and_forwarded(ev.skip(k), path, o),
            Err(_) => k == ev.len() && same_failure(c, o),
        };
    lemma_opened(ev.take(k), d.listening, d.peer, "sending file"@, c);
    let t = ev.skip(k);
    if c is Ok {
        if t[0]->Staged_0 is Ok {
            let j = choose|j: int| #[trigger] stored_at(t.skip(1), j, path, o);
            lemma_stored(t.skip(1), j, path, o);
        }
        assert forall|i: int| 0 <= i < t.len() implies !((#[trigger] t[i]) is Replied) && !(
        t[i] is Secured) by {
            if i > 0 {
                assert(t.skip(1)[i - 1] == t[i]);
            }
        }
    }
    lemma_joined(ev, k, d.peer);
}

proof fn lemma_retrieve(
    ev: Seq<FtpEvent>,
    d: DataSide,
    path: Seq<char>,
    o: Result<FtpReply, DataError>,
)
    requires
        retrieve_done(ev, d, path, o),
    ensures
        mannered(ev, d.peer),
        harmless(ev),
{
    if fetched(ev) && ev[0]->Staged_0 is Ok {
        let t = ev.skip(2);
        let k = choose|k: int| #[trigger] send_split(t, k, d, o);
        let c = choose|c: Result<(), DataError>| #[trigger]
            opened(t.take(k), d.listening, d.peer, "sending file"@, c) && match c {
                Ok(_) => file_sent(t.skip(k), o),
                Err(_) => k == t.len() && same_failure(c, o),
            };
        lemma_opened(t.take(k), d.listening, d.peer, "sending file"@, c);
        lemma_joined(t, k, d.peer);
        lemma_joined(ev, 2, d.peer);
    }
}

proof fn lemma_list(
    ev: Seq<FtpEvent>,
    d: DataSide,
    path: Seq<char>,
    names: bool,
    o: Result<FtpReply, DataError>,
)
    requires
        list_done(ev, d, path, names, o),
    ensures
        mannered(ev, d.peer),
        harmless(ev),
{
    if was_listed(ev) {
        let lines = texts(ev[0]->Listed_res->Ok_0->Ok_0@);
        let t = ev.skip(1);
        let k = choose|k: int| #[trigger] listing_split(t, k, d, lines, o);
        let c = choose|c: Result<(), DataError>| #[trigger]
            opened(t.take(k), d.listening, d.peer, "sending listing"@, c) && match c {
                Ok(_) => listing_sent(t.skip(k), lines, o),
                Err(_) => k == t.len() && same_failure(c, o),
            };
        lemma_opened(t.take(k), d.listening, d.peer, "sending listing"@, c);
        lemma_joined(t, k, d.peer);
        lemma_joined(ev, 1, d.peer);
    }
}

proof fn lemma_carried_out(
    ev: Seq<FtpEvent>,
    a: FtpAction,
    read_only: bool,
    local: Option<(u8, u8, u8, u8)>,
    d: DataSide,
    after: bool,
    o: Outcome,
)
    requires
        carried_out(ev, a, read_only, local, d, after, o),
    ensures
        mannered(ev, d.peer),
        read_only || !is_write(a) ==> harmless(ev),
{
    if !(read_only && is_write(a)) {
        match a {
            FtpAction::Store { path } => {
                let t = choose|t: Result<FtpReply, DataError>| #[trigger]
                    store_done(ev, d, path@, t) && o == Outcome::Ok(
                        terminal(t, "upload failed: "@),
                    );
                lemma_store(ev, d, path@, t);
            },
            FtpAction::Retrieve { path } => {
                let t = choose|t: Result<FtpReply, DataError>| #[trigger]
                    retrieve_done(ev, d, path@, t) && o == Outcome::Ok(
                        terminal(t, "download failed: "@),
                    );
                lemma_retrieve(ev, d, path@, t);
            },
            FtpAction::List { path, names_only } => {
                let t = choose|t: Result<FtpReply, DataError>| #[trigger]
                    list_done(ev, d, path@, names_only, t) && o == Outcome::Ok(
                        terminal(t, "listing failed: "@),
                    );
                lemma_list(ev, d, path@, names_only, t);
            },
            _ => {},
        }
    }
}

/// Every command is given exactly one reply that ends it, as the last thing
/// done; what is replied before only announces a transfer. A connection whose
/// every command went through is thus always in step.
pub proof fn a_command_gets_exactly_one_final_reply(
    ev: Seq<FtpEvent>,
    a: FtpAction,
    read_only: bool,
    local: Option<(u8, u8, u8, u8)>,
    d: DataSide,
    after: bool,
    r: Result<bool, String>,
)
    requires
        ran(ev, a, read_only, local, d, after, r),
        r is Ok,
    ensures
        ev.len() > 0,
        ev.last() is Replied,
        forall|i: int| 0 <= i < ev.len() - 1 && (#[trigger] ev[i]) is Replied ==> is_preliminary(ev[i]),
{
    let k = choose|k: int| #[trigger] run_split(ev, k, a, read_only, local, d, after, r);
    let o = run_outcome(ev, k, a, read_only, local, d, after, r);
    lemma_carried_out(ev.take(k), a, read_only, local, d, after, o);
    assert forall|i: int| 0 <= i < ev.len() - 1 && (#[trigger] ev[i]) is Replied implies is_preliminary(
        ev[i],
    ) by {
        assert(ev.take(k)[i] == ev[i]);
    }
}

/// What the work of a command came to.
proof fn run_outcome(
    ev: Seq<FtpEvent>,
    k: int,
    a: FtpAction,
    read_only: bool,
    local: Option<(u8, u8, u8, u8)>,
    d: DataSide,
    after: bool,
    r: Result<bool, String>,
) -> (o: Outcome)
    requires
        run_split(ev, k, a, read_only, local, d, after, r),
    ensures
        carried_out(ev.take(k), a, read_only, local, d, after, o),
        o is Ok ==> ev.len() == k + 1 && ev[k] is Replied,
        o is Err ==> ev.len() == k && r is Err,
{
    choose|o: Outcome| #[trigger]
        carried_out(ev.take(k), a, read_only, local, d, after, o) && match o {
            Err(e) => k == ev.len() && (r matches Err(x) && x@ == e),
            Ok(reply) => {
                &&& ev.len() == k + 1
                &&& ev[k] matches FtpEvent::Replied { code, text, res }
                &&& (code, text) == reply
                &&& match res {
                    Err(e) => r matches Err(x) && x@ == e@,
                    Ok(_) => r == Ok::<bool, String>(a is Close),
                }
            },
        }
}

/// A read-only relay changes nothing at the printer, whatever it is told.
pub proof fn a_read_only_relay_changes_nothing(
    ev: Seq<FtpEvent>,
    a: FtpAction,
    local: Option<(u8, u8, u8, u8)>,
    d: DataSide,
    after: bool,
    r: Result<bool, String>,
)
    requires
        ran(ev, a, true, local, d, after, r),
    ensures
        harmless(ev),
{
    let k = choose|k: int| #[trigger] run_split(ev, k, a, true, local, d, after, r);
    let o = run_outcome(ev, k, a, true, local, d, after, r);
    lemma_carried_out(ev.take(k), a, true, local, d, after, o);
    assert forall|i: int| 0 <= i < ev.len() implies !changes_printer(#[trigger] ev[i]) by {
        if i < k {
            assert(ev.take(k)[i] == ev[i]);
        }
    }
}

/// A data connection is used only where it came from the host of the control
/// connection.
pub proof fn only_the_client_gets_the_data(
    ev: Seq<FtpEvent>,
    a: FtpAction,
    read_only: bool,
    local: Option<(u8, u8, u8, u8)>,
    d: DataSide,
    after: bool,
    r: Result<bool, String>,
    i: int,
)
    requires
        ran(ev, a, read_only, local, d, after, r),
        0 <= i < ev.len(),
        ev[i] is Secured,
    ensures
        secured_for(ev, i, d.peer),
{
    let k = choose|k: int| #[trigger] run_split(ev, k, a, read_only, local, d, after, r);
    let o = run_outcome(ev, k, a, read_only, local, d, after, r);
    lemma_carried_out(ev.take(k), a, read_only, local, d, after, o);
    assert(i < k);
    assert(ev.take(k)[i] == ev[i]);
    if i > 0 {
        assert(ev.take(k)[i - 1] == ev[i - 1]);
    }
}

proof fn lemma_bytes_joined(a: Seq<FtpEvent>, b: Seq<FtpEvent>)
    ensures
        bytes_read(a + b) == bytes_read(a) + bytes_read(b),
        bytes_staged(a + b) == bytes_staged(a) + bytes_staged(b),
    decreases b.len(),
{
    if b.len() == 0 {
        assert(a + b =~= a);
    } else {
        lemma_bytes_joined(a, b.drop_last());
        assert((a + b).drop_last() =~= a + b.drop_last());
        assert((a + b).last() == b.last());
        assert(bytes_read(a + b) =~= bytes_read(a) + bytes_read(b));
        assert(bytes_staged(a + b) =~= bytes_staged(a) + bytes_staged(b));
    }
}

proof fn lemma_no_bytes(ev: Seq<FtpEvent>)
    requires
        forall|i: int| 0 <= i < ev.len() ==> !((#[trigger] ev[i]) is Read) && !(ev[i] is Appended),
    ensures
        bytes_read(ev) == Seq::<u8>::empty(),
        bytes_staged(ev) == Seq::<u8>::empty(),
    decreases ev.len(),
{
    if ev.len() > 0 {
        let less = ev.drop_last();
        assert forall|i: int| 0 <= i < less.len() implies !((#[trigger] less[i]) is Read) && !(
        less[i] is Appended) by {
            assert(less[i] == ev[i]);
        }
        lemma_no_bytes(less);
        assert(ev.last() == ev[ev.len() - 1]);
        assert(bytes_read(ev) =~= Seq::<u8>::empty());
        assert(bytes_staged(ev) =~= Seq::<u8>::empty());
    }
}

proof fn lemma_opening(
    ev: Seq<FtpEvent>,
    listening: bool,
    peer: Option<Seq<char>>,
    what: Seq<char>,
    o: Result<(), DataError>,
)
    requires
        opened(ev, listening, peer, what, o),
    ensures
        forall|i: int|
            0 <= i < ev.len() ==> (#[trigger] ev[i]) is Replied || ev[i] is Accepted
                || ev[i] is Secured,
        o is Ok ==> listening,
        o matches Err(DataError::Refused(r)) ==> r@.0 == 425,
{
    if listening {
        let t = ev.skip(1);
        assert forall|i: int| 0 <= i < ev.len() implies (#[trigger] ev[i]) is Replied
            || ev[i] is Accepted || ev[i] is Secured by {
            if i > 0 {
                assert(t[i - 1] == ev[i]);
            }
        }
    }
}

/// `o` tells of a success.
pub open spec fn reported_done(o: Result<FtpReply, DataError>) -> bool {
    o matches Ok(r) && r@.0 < 300
}

/// The last event puts the file in place at the printer.
pub open spec fn put_in_place(ev: Seq<FtpEvent>) -> bool {
    ev.len() > 0 && (ev.last() matches FtpEvent::Uploaded { remote, res } && res matches Ok(Ok(_)))
}

/// An upload is the last event if it is any, goes to `path` and is all that was read.
#[verifier::opaque]
spec fn uploads_last(ev: Seq<FtpEvent>, path: Seq<char>) -> bool {
    forall|i: int|
        0 <= i < ev.len() && (#[trigger] ev[i]) is Uploaded ==> i == ev.len() - 1
            && ev[i]->Uploaded_remote == path && bytes_staged(ev) == bytes_read(ev)
}

proof fn lemma_forwarded_ends(
    ev: Seq<FtpEvent>,
    path: Seq<char>,
    total: u64,
    o: Result<FtpReply, DataError>,
)
    requires
        forwarded(ev, path, total, o),
    ensures
        uploads_last(ev, path),
        reported_done(o) <==> put_in_place(ev),
        bytes_staged(ev) == Seq::<u8>::empty(),
        bytes_read(ev) == Seq::<u8>::empty(),
{
    reveal(uploads_last);
    lemma_no_bytes(ev);
}

proof fn lemma_uploads_joined(a: Seq<FtpEvent>, b: Seq<FtpEvent>, path: Seq<char>)
    requires
        uploads_last(b, path),
        forall|i: int| 0 <= i < a.len() ==> !((#[trigger] a[i]) is Uploaded),
        bytes_staged(a) == bytes_read(a) || b.len() == 0,
    ensures
        uploads_last(a + b, path),
        put_in_place(a + b) <==> put_in_place(b),
{
    reveal(uploads_last);
    let ev = a + b;
    lemma_bytes_joined(a, b);
    assert forall|i: int| 0 <= i < ev.len() && (#[trigger] ev[i]) is Uploaded implies i == ev.len()
        - 1 && ev[i]->Uploaded_remote == path && bytes_staged(ev) == bytes_read(ev) by {
        if i < a.len() {
            assert(a[i] == ev[i]);
        } else {
            assert(b[i - a.len()] == ev[i]);
        }
    }
    if b.len() > 0 {
        assert(ev.last() == b.last());
    } else if a.len() > 0 {
        assert(ev.last() == a[a.len() - 1]);
    }
}

proof fn lemma_stored_ends(
    ev: Seq<FtpEvent>,
    k: int,
    path: Seq<char>,
    o: Result<FtpReply, DataError>,
)
    requires
        stored_at(ev, k, path, o),
    ensures
        uploads_last(ev, path),
        reported_done(o) <==> put_in_place(ev),
{
    let got = choose|got: Result<u64, DataError>| #[trigger]
        received(ev.take(k), got) && match got {
            Ok(total) => forwarded(ev.skip(k), path, total, o),
            Err(DataError::Refused(r)) => k == ev.len() && (o matches Ok(x) && x@ == r@),
            Err(DataError::Io(e)) => k == ev.len() && broke_off(o, e@),
        };
    let a = ev.take(k);
    let b = ev.skip(k);
    assert(ev =~= a + b);
    lemma_received(a, got);
    assert forall|i: int| 0 <= i < a.len() implies !((#[trigger] a[i]) is Uploaded) by {
        assert(a[i] is Read || a[i] is Appended);
    }
    match got {
        Ok(total) => {
            a_received_upload_is_whole(a, total);
            lemma_forwarded_ends(b, path, total, o);
        },
        _ => {
            lemma_nothing_uploaded(b, path);
        },
    }
    lemma_uploads_joined(a, b, path);
}

proof fn lemma_staged_ends(ev: Seq<FtpEvent>, path: Seq<char>, o: Result<FtpReply, DataError>)
    requires
        staged_and_forwarded(ev, path, o),
    ensures
        uploads_last(ev, path),
        reported_done(o) <==> put_in_place(ev),
        !(o matches Err(DataError::Refused(r))),
{
    let a = ev.take(1);
    let b = ev.skip(1);
    assert(ev =~= a + b);
    lemma_no_bytes(a);
    if ev[0]->Staged_0 is Ok {
        let j = choose|j: int| #[trigger] stored_at(b, j, path, o);
        lemma_stored_ends(b, j, path, o);
        lemma_stored_kinds(b, j, path, o);
    } else {
        lemma_nothing_uploaded(b, path);
    }
    lemma_uploads_joined(a, b, path);
}

proof fn lemma_nothing_uploaded(ev: Seq<FtpEvent>, path: Seq<char>)
    requires
        ev.len() == 0,
    ensures
        uploads_last(ev, path),
{
    reveal(uploads_last);
}

proof fn lemma_store_ends(
    ev: Seq<FtpEvent>,
    d: DataSide,
    path: Seq<char>,
    o: Result<FtpReply, DataError>,
)
    requires
        store_done(ev, d, path, o),
    ensures
        uploads_last(ev, path),
        reported_done(o) <==> put_in_place(ev),
        o matches Err(DataError::Refused(r)) ==> r@.0 == 425,
        !d.listening ==> ev.len() == 0 && (o matches Err(DataError::Refused(r))),
{
    let k = choose|k: int| #[trigger] store_split(ev, k, d, path, o);
    let c = choose|c: Result<(), DataError>| #[trigger]
        opened(ev.take(k), d.listening, d.peer, "sending file"@, c) && match c {
            Ok(_) => staged_and_forwarded(ev.skip(k), path, o),
            Err(_) => k == ev.len() && same_failure(c, o),
        };
    let h = ev.take(k);
    let t = ev.skip(k);
    lemma_opening(h, d.listening, d.peer, "sending file"@, c);
    lemma_no_bytes(h);
    assert(ev =~= h + t);
    if c is Ok {
        lemma_staged_ends(t, path, o);
    } else {
        lemma_nothing_uploaded(t, path);
    }
    lemma_uploads_joined(h, t, path);
}

proof fn lemma_stored_kinds(
    ev: Seq<FtpEvent>,
    k: int,
    path: Seq<char>,
    o: Result<FtpReply, DataError>,
)
    requires
        stored_at(ev, k, path, o),
    ensures
        !(o matches Err(DataError::Refused(r))),
{
}

/// The reply that a command ended with, where it did not break off.
proof fn run_reply(
    ev: Seq<FtpEvent>,
    a: FtpAction,
    read_only: bool,
    local: Option<(u8, u8, u8, u8)>,
    d: DataSide,
    after: bool,
    r: Result<bool, String>,
) -> (o: (u16, Seq<char>))
    requires
        ran(ev, a, read_only, local, d, after, r),
        r is Ok,
    ensures
        ev.len() > 0,
        ev.last() is Replied,
        o == (ev.last()->code, ev.last()->Replied_text),
        carried_out(ev.drop_last(), a, read_only, local, d, after, Ok(o)),
        r == Ok::<bool, String>(a is Close),
{
    let k = choose|k: int| #[trigger] run_split(ev, k, a, read_only, local, d, after, r);
    let o = choose|o: Outcome| #[trigger]
        carried_out(ev.take(k), a, read_only, local, d, after, o) && match o {
            Err(e) => k == ev.len() && (r matches Err(x) && x@ == e),
            Ok(reply) => {
                &&& ev.len() == k + 1
                &&& ev[k] matches FtpEvent::Replied { code, text, res }
                &&& (code, text) == reply
                &&& match res {
                    Err(e) => r matches Err(x) && x@ == e@,
                    Ok(_) => r == Ok::<bool, String>(a is Close),
                }
            },
        };
    assert(ev.take(k) =~= ev.drop_last());
    o->Ok_0
}

/// An upload goes to the printer under the path that it was sent to and nowhere
/// else, after all that the client sent was staged as it came; and the client is
/// told that it was stored if and only if the printer took it. Without a data
/// port nothing is read.
pub proof fn an_upload_lands_where_it_was_sent(
    ev: Seq<FtpEvent>,
    path: String,
    local: Option<(u8, u8, u8, u8)>,
    d: DataSide,
    after: bool,
    r: Result<bool, String>,
    i: int,
)
    requires
        ran(ev, FtpAction::Store { path }, false, local, d, after, r),
        r is Ok,
        0 <= i < ev.len(),
    ensures
        ev[i] is Uploaded ==> i == ev.len() - 2 && ev[i]->Uploaded_remote == path@ && bytes_staged(
            ev,
        ) == bytes_read(ev),
        ev.last() is Replied,
        ev.last()->code < 300 <==> ev.len() >= 2 && (ev[ev.len() - 2] matches FtpEvent::Uploaded {
            remote,
            res,
        } && res matches Ok(Ok(_))),
        !d.listening ==> ev.len() == 1 && ev.last()->code == 425,
        !after,
{
    let a = FtpAction::Store { path };
    let o = run_reply(ev, a, false, local, d, after, r);
    let w = ev.drop_last();
    let t = choose|t: Result<FtpReply, DataError>| #[trigger]
        store_done(w, d, path@, t) && Outcome::Ok(o) == Outcome::Ok(
            terminal(t, "upload failed: "@),
        );
    lemma_store_ends(w, d, path@, t);
    reveal(uploads_last);
    if i < w.len() {
        assert(w[i] == ev[i]);
    }
    if w.len() > 0 {
        assert(w.last() == ev[ev.len() - 2]);
    }
    assert(put_in_place(w) <==> terminal(t, "upload failed: "@).0 < 300);
    assert(ev =~= w + seq![ev.last()]);
    lemma_no_bytes(seq![ev.last()]);
    lemma_bytes_joined(w, seq![ev.last()]);
}

/// A download fetches the file that was asked for, and nothing else, before
/// anything is sent; and the client is told that it was sent if and only if it was.
pub proof fn a_download_sends_what_was_asked_for(
    ev: Seq<FtpEvent>,
    path: String,
    read_only: bool,
    local: Option<(u8, u8, u8, u8)>,
    d: DataSide,
    after: bool,
    r: Result<bool, String>,
    i: int,
)
    requires
        ran(ev, FtpAction::Retrieve { path }, read_only, local, d, after, r),
        r is Ok,
        0 <= i < ev.len(),
    ensures
        ev[i] is Downloaded ==> ev[i]->Downloaded_remote == path@,
        ev[i] is SentStaged ==> d.listening && ev.len() > 2 && (ev[1] matches FtpEvent::Downloaded {
            remote,
            res,
        } && remote == path@ && res matches Ok(Ok(_))),
        !(ev[i] is SentText),
        ev.last() is Replied,
        ev.last()->code < 300 <==> ev.len() >= 2 && (ev[ev.len() - 2] matches FtpEvent::SentStaged(
            Ok(_),
        )),
{
    let a = FtpAction::Retrieve { path };
    let o = run_reply(ev, a, read_only, local, d, after, r);
    let w = ev.drop_last();
    let t = choose|t: Result<FtpReply, DataError>| #[trigger]
        retrieve_done(w, d, path@, t) && Outcome::Ok(o) == Outcome::Ok(
            terminal(t, "download failed: "@),
        );
    assert(w[0] == ev[0]);
    if i < w.len() {
        assert(w[i] == ev[i]);
    }
    if w.len() > 1 {
        assert(w[1] == ev[1]);
    }
    if w[0]->Staged_0 is Ok && (w[1]->Downloaded_res matches Ok(Ok(_))) {
        let s = w.skip(2);
        let k = choose|k: int| #[trigger] send_split(s, k, d, t);
        let c = choose|c: Result<(), DataError>| #[trigger]
            opened(s.take(k), d.listening, d.peer, "sending file"@, c) && match c {
                Ok(_) => file_sent(s.skip(k), t),
                Err(_) => k == s.len() && same_failure(c, t),
            };
        lemma_opening(s.take(k), d.listening, d.peer, "sending file"@, c);
        if 2 <= i < w.len() {
            assert(s[i - 2] == ev[i]);
            if i - 2 < k {
                assert(s.take(k)[i - 2] == ev[i]);
            } else {
                assert(s.skip(k)[i - 2 - k] == ev[i]);
            }
        }
        if c is Ok {
            assert(s.skip(k)[0] == ev[ev.len() - 2]);
        } else if s.len() > 0 {
            assert(s.take(k)[s.len() - 1] == ev[ev.len() - 2]);
        }
    }
}

/// A directory that is listed is the one that was asked for, in the form that was
/// asked for; what is sent holds every line of it, each with its line end; and the
/// client is told so if and only if it was sent.
pub proof fn a_listing_sends_every_line(
    ev: Seq<FtpEvent>,
    path: String,
    names_only: bool,
    read_only: bool,
    local: Option<(u8, u8, u8, u8)>,
    d: DataSide,
    after: bool,
    r: Result<bool, String>,
    i: int,
    lines: Seq<String>,
    body: Seq<char>,
)
    requires
        ran(ev, FtpAction::List { path, names_only }, read_only, local, d, after, r),
        r is Ok,
        0 <= i < ev.len(),
        ev[0] matches FtpEvent::Listed { dir, names_only: n, res } && (res matches Ok(Ok(l)) ==> l@
            == lines),
        ev[i] matches FtpEvent::SentText { body: b, res } ==> b == body,
    ensures
        ev[0] is Listed,
        ev[0]->Listed_dir == path@,
        ev[0]->names_only == names_only,
        i > 0 ==> !(ev[i] is Listed),
        ev[i] is SentText ==> d.listening && (ev[0]->Listed_res matches Ok(Ok(_))),
        ev[i] is SentText ==> body.len() == lines.len() * 2 + chars_in(texts(lines)),
        ev[i] is SentText ==> forall|j: int|
            0 <= j < lines.len() ==> #[trigger] has_text(body, lines[j]@ + "\r\n"@),
        !(ev[i] is SentStaged),
        ev.last() is Replied,
        ev.last()->code < 300 <==> ev.len() >= 2 && (ev[ev.len() - 2] matches FtpEvent::SentText {
            body,
            res,
        } && res is Ok),
{
    let a = FtpAction::List { path, names_only };
    let o = run_reply(ev, a, read_only, local, d, after, r);
    let w = ev.drop_last();
    let t = choose|t: Result<FtpReply, DataError>| #[trigger]
        list_done(w, d, path@, names_only, t) && Outcome::Ok(o) == Outcome::Ok(
            terminal(t, "listing failed: "@),
        );
    assert(w[0] == ev[0]);
    if i < w.len() {
        assert(w[i] == ev[i]);
    }
    if w[0]->Listed_res matches Ok(Ok(_)) {
        let s = w.skip(1);
        let ls = texts(lines);
        let k = choose|k: int| #[trigger] listing_split(s, k, d, ls, t);
        let c = choose|c: Result<(), DataError>| #[trigger]
            opened(s.take(k), d.listening, d.peer, "sending listing"@, c) && match c {
                Ok(_) => listing_sent(s.skip(k), ls, t),
                Err(_) => k == s.len() && same_failure(c, t),
            };
        lemma_opening(s.take(k), d.listening, d.peer, "sending listing"@, c);
        if 1 <= i < w.len() {
            assert(s[i - 1] == ev[i]);
            if i - 1 < k {
                assert(s.take(k)[i - 1] == ev[i]);
            } else {
                assert(s.skip(k)[i - 1 - k] == ev[i]);
            }
        }
        if c is Ok {
            assert(s.skip(k)[0] == ev[ev.len() - 2]);
        } else if s.len() > 0 {
            assert(s.take(k)[s.len() - 1] == ev[ev.len() - 2]);
        }
        if ev[i] is SentText {
            assert(body == crlf_lines(ls));
            lemma_crlf_length(ls);
            assert forall|j: int| 0 <= j < lines.len() implies #[trigger] has_text(
                body,
                lines[j]@ + "\r\n"@,
            ) by {
                lemma_crlf_holds(ls, j);
                assert(ls[j] == lines[j]@);
            }
        }
    }
}

/// All the characters of some texts.
pub open spec fn chars_in(t: Seq<Seq<char>>) -> nat
    decreases t.len(),
{
    if t.len() == 0 {
        0
    } else {
        chars_in(t.drop_last()) + t.last().len()
    }
}

proof fn lemma_crlf_length(lines: Seq<Seq<char>>)
    ensures
        crlf_lines(lines).len() == lines.len() * 2 + chars_in(lines),
    decreases lines.len(),
{
    reveal_strlit("\r\n");
    if lines.len() > 0 {
        lemma_crlf_length(lines.drop_last());
    }
}

proof fn lemma_crlf_holds(lines: Seq<Seq<char>>, j: int)
    requires
        0 <= j < lines.len(),
    ensures
        has_text(crlf_lines(lines), lines[j] + "\r\n"@),
    decreases lines.len(),
{
    let n = lines.len() as int;
    let less = lines.drop_last();
    let before = crlf_lines(less);
    let whole = crlf_lines(lines);
    let part = lines[j] + "\r\n"@;
    assert(whole =~= before + (lines[n - 1] + "\r\n"@));
    if j == n - 1 {
        let at = before.len() as int;
        assert(whole.subrange(at, at + part.len()) =~= part);
        assert(crate::text::text_at(whole, part, at));
    } else {
        lemma_crlf_holds(less, j);
        assert(less[j] == lines[j]);
        let at = choose|at: int| crate::text::text_at(before, part, at);
        assert(whole.subrange(at, at + part.len()) =~= before.subrange(at, at + part.len()));
        assert(crate::text::text_at(whole, part, at));
    }
}

/// A change at the printer is made to what was named and to nothing else, once;
/// and the client is told that it was made if and only if it was.
pub proof fn a_change_is_made_to_what_was_named(
    ev: Seq<FtpEvent>,
    a: FtpAction,
    local: Option<(u8, u8, u8, u8)>,
    d: DataSide,
    after: bool,
    r: Result<bool, String>,
)
    requires
        ran(ev, a, false, local, d, after, r),
        r is Ok,
        a is Delete || a is Rename || a is MakeDir || a is RemoveDir,
    ensures
        ev.len() == 2,
        ev[1] is Replied,
        after == d.listening,
        a matches FtpAction::Delete { path } ==> (ev[0] matches FtpEvent::Deleted { path: p, res }
            && p == path@ && (ev[1]->code < 300 <==> (res matches Ok(Ok(_))))),
        a matches FtpAction::Rename { from, to } ==> (ev[0] matches FtpEvent::Renamed {
            from: f,
            to: t,
            res,
        } && f == from@ && t == to@ && (ev[1]->code < 300 <==> (res matches Ok(Ok(_))))),
        a matches FtpAction::MakeDir { path } ==> (ev[0] matches FtpEvent::MadeDir { path: p, res }
            && p == path@ && (ev[1]->code < 300 <==> (res matches Ok(Ok(_))))),
        a matches FtpAction::RemoveDir { path } ==> (ev[0] matches FtpEvent::RemovedDir {
            path: p,
            res,
        } && p == path@ && (ev[1]->code < 300 <==> (res matches Ok(Ok(_))))),
{
    let o = run_reply(ev, a, false, local, d, after, r);
    let w = ev.drop_last();
    assert(w[0] == ev[0]);
    assert(ev[1] == ev.last());
}

/// What is only said is said as it is; and a connection is closed exactly where
/// that was asked for.
pub proof fn a_connection_is_closed_only_when_asked(
    ev: Seq<FtpEvent>,
    a: FtpAction,
    read_only: bool,
    local: Option<(u8, u8, u8, u8)>,
    d: DataSide,
    after: bool,
    r: Result<bool, String>,
)
    requires
        ran(ev, a, read_only, local, d, after, r),
        r is Ok,
    ensures
        r == Ok::<bool, String>(true) <==> a is Close,
        a matches FtpAction::Close(x) ==> ev.len() == 1 && ev[0]->code == x.code
            && ev[0]->Replied_text == x.text@,
        a matches FtpAction::Reply(x) ==> ev.len() == 1 && ev[0]->code == x.code
            && ev[0]->Replied_text == x.text@ && after == d.listening,
{
    let o = run_reply(ev, a, read_only, local, d, after, r);
    assert(ev.last() == ev[ev.len() - 1]);
}

/// A write that a read-only relay is asked for is refused with nothing done.
pub proof fn a_read_only_relay_says_so(
    ev: Seq<FtpEvent>,
    a: FtpAction,
    local: Option<(u8, u8, u8, u8)>,
    d: DataSide,
    after: bool,
    r: Result<bool, String>,
)
    requires
        ran(ev, a, true, local, d, after, r),
        r is Ok,
        a is Store || a is Delete || a is Rename || a is MakeDir || a is RemoveDir,
    ensures
        ev.len() == 1,
        ev[0] is Replied,
        ev[0]->code == 550,
        after == d.listening,
{
    let o = run_reply(ev, a, true, local, d, after, r);
    assert(ev.last() == ev[ev.len() - 1]);
}

/// A data port is kept if and only if the client is told of it, by its own number:
/// as it is, or as the two bytes that make it up, after the address of this host.
pub proof fn a_data_port_is_told_as_it_is(
    ev: Seq<FtpEvent>,
    kind: PassiveKind,
    read_only: bool,
    local: Option<(u8, u8, u8, u8)>,
    d: DataSide,
    after: bool,
    r: Result<bool, String>,
    port: u16,
    ip: (u8, u8, u8, u8),
)
    requires
        local matches Some(x) ==> x == ip,
        ran(ev, FtpAction::Passive(kind), read_only, local, d, after, r),
        r is Ok,
        ev[0] matches FtpEvent::Bound(b) && (b matches Bound::Port(p) ==> p == port),
    ensures
        ev.last() is Replied,
        ev.last()->code < 300 <==> ev.len() == 3 && ev[1] is Kept,
        ev.contains(FtpEvent::Kept) <==> (ev[0] matches FtpEvent::Bound(Bound::Port(_))) && (kind
            == PassiveKind::Extended || local is Some),
        ev.contains(FtpEvent::Kept) ==> after,
        !ev.contains(FtpEvent::Kept) ==> after == d.listening,
        ev.contains(FtpEvent::Kept) && kind == PassiveKind::Extended ==> ev.last()->code == 229
            && has_text(ev.last()->Replied_text, "|||"@ + digits(port as nat) + "|"@),
        ev.contains(FtpEvent::Kept) && kind == PassiveKind::Classic ==> ev.last()->code == 227
            && exists|high: nat, low: nat|
            high < 256 && low < 256 && high * 256 + low == port && #[trigger] has_text(
                ev.last()->Replied_text,
                digits(ip.0 as nat) + ","@ + digits(ip.1 as nat) + ","@ + digits(
                    ip.2 as nat,
                ) + ","@ + digits(ip.3 as nat) + ","@ + digits(high) + ","@ + digits(low),
            ),
{
    let o = run_reply(ev, FtpAction::Passive(kind), read_only, local, d, after, r);
    let w = ev.drop_last();
    assert(w[0] == ev[0]);
    assert(ev.last() == ev[ev.len() - 1]);
    if w.len() == 2 {
        assert(w[1] == ev[1]);
        assert(ev[1] == FtpEvent::Kept);
        assert(ev.contains(FtpEvent::Kept));
        let text = ev.last()->Replied_text;
        match kind {
            PassiveKind::Extended => {
                reveal_strlit("entering extended passive mode (|||");
                reveal_strlit("|||");
                reveal_strlit("|)");
                reveal_strlit("|");
                let part = "|||"@ + digits(port as nat) + "|"@;
                let head = "entering extended passive mode (|||"@;
                let at = head.len() - 3;
                assert(text =~= head + digits(port as nat) + "|)"@);
                assert(text.subrange(at, at + part.len()) =~= part);
                assert(crate::text::text_at(text, part, at));
            },
            PassiveKind::Classic => {
                let high = (port / 256) as nat;
                let low = (port % 256) as nat;
                let part = digits(ip.0 as nat) + ","@ + digits(ip.1 as nat) + ","@ + digits(
                    ip.2 as nat,
                ) + ","@ + digits(ip.3 as nat) + ","@ + digits(high) + ","@ + digits(low);
                let head = "entering passive mode ("@;
                assert(text =~= head + part + ")"@);
                let at = head.len() as int;
                assert(text.subrange(at, at + part.len()) =~= part);
                assert(crate::text::text_at(text, part, at));
                assert(has_text(text, part));
            },
        }
    } else {
        assert forall|j: int| 0 <= j < ev.len() implies ev[j] != FtpEvent::Kept by {}
    }
}

/// A file's size is asked of the directory that holds it, and is that of a file of
/// its name there; there is none where no file of the name is there.
pub proof fn a_size_is_that_of_the_file(
    ev: Seq<FtpEvent>,
    path: String,
    read_only: bool,
    local: Option<(u8, u8, u8, u8)>,
    d: DataSide,
    after: bool,
    r: Result<bool, String>,
    dir: Seq<char>,
    name: Seq<char>,
    entries: Seq<FileEntry>,
)
    requires
        ran(ev, FtpAction::Size { path }, read_only, local, d, after, r),
        r is Ok,
        path@ == dir + seq!['/'] + name,
        dir.len() > 0,
        !name.contains('/'),
        ev[0] matches FtpEvent::Entries { dir: x, res } && (res matches Ok(Ok(l)) ==> l@
            == entries),
    ensures
        ev.len() == 2,
        ev[0]->Entries_dir == dir,
        ev[1] is Replied,
        ev[1]->code == 213 ==> exists|j: int|
            0 <= j < entries.len() && (#[trigger] entries[j]).name@ == name && !entries[j].is_dir
                && ev[1]->Replied_text == digits(entries[j].size as nat),
        ev[1]->code < 300 ==> ev[1]->code == 213,
        ev[1]->code == 213 <==> (ev[0]->Entries_res matches Ok(Ok(_))) && exists|j: int|
            0 <= j < entries.len() && (#[trigger] entries[j]).name@ == name && !entries[j].is_dir,
{
    let o = run_reply(ev, FtpAction::Size { path }, read_only, local, d, after, r);
    let w = ev.drop_last();
    assert(w[0] == ev[0]);
    assert(ev[1] == ev.last());
    let p = path@;
    let cut = dir.len() as int;
    assert(p[cut] == '/');
    assert forall|j: int| cut + 1 <= j < p.len() implies p[j] != '/' by {
        assert(name[j - cut - 1] == p[j]);
    }
    crate::text::lemma_after_last(p, '/', cut + 1);
    assert(p.skip(cut + 1) =~= name);
    assert(p.take(cut) =~= dir);
    assert(p.contains('/'));
    lemma_size_found(entries, name);
}

proof fn lemma_size_found(entries: Seq<FileEntry>, name: Seq<char>)
    ensures
        match size_in(entries, name) {
            Some(n) => exists|j: int|
                0 <= j < entries.len() && (#[trigger] entries[j]).name@ == name
                    && !entries[j].is_dir && entries[j].size == n,
            None => forall|j: int|
                0 <= j < entries.len() && (#[trigger] entries[j]).name@ == name
                    ==> entries[j].is_dir,
        },
    decreases entries.len(),
{
    if entries.len() > 0 {
        let rest = entries.drop_first();
        lemma_size_found(rest, name);
        if entries[0].name@ == name && !entries[0].is_dir {
        } else if size_in(entries, name) is Some {
            let n = size_in(entries, name)->0;
            let j = choose|j: int|
                0 <= j < rest.len() && (#[trigger] rest[j]).name@ == name && !rest[j].is_dir
                    && rest[j].size == n;
            assert(entries[j + 1] == rest[j]);
        } else {
            assert forall|j: int|
                0 <= j < entries.len() && (#[trigger] entries[j]).name@ == name implies entries[j].is_dir by {
                if j > 0 {
                    assert(rest[j - 1] == entries[j]);
                }
            }
        }
    }
}

/// An upload is refused for its size exactly where the client sent more than half a
/// gibibyte, and one that is taken in is no larger.
pub proof fn an_upload_is_refused_only_for_its_size(ev: Seq<FtpEvent>, o: Result<u64, DataError>)
    requires
        received(ev, o),
    ensures
        (o matches Err(DataError::Refused(r))) <==> bytes_read(ev).len() > 536870912,
        o matches Err(DataError::Refused(r)) ==> r@.0 == 552 && bytes_staged(ev).len() <= 536870912,
        o matches Ok(total) ==> total == bytes_read(ev).len(),
{
    let n = ev.len() as int;
    if ev[n - 1] is Appended {
        let less = ev.take(n - 2);
        lemma_taken_in(less);
        assert(ev.drop_last().drop_last() =~= less);
        assert(ev.drop_last().last() == ev[n - 2]);
        reveal_with_fuel(bytes_read, 3);
        reveal_with_fuel(bytes_staged, 3);
        assert(bytes_read(ev) =~= bytes_read(less) + read_at(ev[n - 2]));
    } else {
        let less = ev.take(n - 1);
        lemma_taken_in(less);
        assert(ev.drop_last() =~= less);
        assert(bytes_read(ev) =~= bytes_read(less) + read_at(ev[n - 1]));
        assert(bytes_staged(ev) =~= bytes_staged(less));
    }
}

} // verus!
