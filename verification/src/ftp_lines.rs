//! The lines of a control connection: bytes come in as they may, commands come out
//! whole.
use vstd::prelude::*;

use crate::number::{decimal, digits};
use crate::text::{join3, opt_text, texts, trim_back, trim_end, Strip};

verus! {

/// The longest line that is held: a client that sends more without an end of line
/// is dropped.
pub const MAX_LINE: usize = 8192;

/// Bytes that are all ASCII.
pub open spec fn all_ascii(bytes: Seq<u8>) -> bool {
    forall|i: int| 0 <= i < bytes.len() ==> (#[trigger] bytes[i]) < 128
}

/// The characters that ASCII bytes are.
pub open spec fn ascii_chars(bytes: Seq<u8>) -> Seq<char> {
    bytes.map_values(|b: u8| b as char)
}

/// The text of bytes that are no UTF-8: what cannot be read is replaced.
pub uninterp spec fn mended_text(bytes: Seq<u8>) -> Seq<char>;

/// The text that bytes are, with what is no UTF-8 replaced.
pub open spec fn lossy_text(bytes: Seq<u8>) -> Seq<char> {
    if all_ascii(bytes) {
        ascii_chars(bytes)
    } else if vstd::utf8::valid_utf8(bytes) {
        vstd::utf8::decode_utf8(bytes)
    } else {
        mended_text(bytes)
    }
}

/// Reads bytes as text with `String::from_utf8_lossy`: ASCII bytes are the
/// characters they stand for, and UTF-8 is the text that it encodes. Of other bytes
/// only that they alone decide the text.
#[verifier::external_body]
fn lossy(bytes: &[u8]) -> (r: String)
    ensures
        all_ascii(bytes@) ==> r@ == ascii_chars(bytes@),
        vstd::utf8::valid_utf8(bytes@) ==> r@ == vstd::utf8::decode_utf8(bytes@),
        !vstd::utf8::valid_utf8(bytes@) && !all_ascii(bytes@) ==> r@ == mended_text(bytes@),
{
    String::from_utf8_lossy(bytes).into_owned()
}

/// The whole lines in `bytes`, each with its end, after what was held of the line
/// before; and what is held then.
pub open spec fn framed(held: Seq<u8>, bytes: Seq<u8>) -> (Seq<Seq<u8>>, Seq<u8>)
    decreases bytes.len(),
{
    if bytes.len() == 0 {
        (Seq::empty(), held)
    } else {
        let (lines, rest) = framed(held, bytes.drop_last());
        let line = rest.push(bytes.last());
        if bytes.last() == 10u8 {
            (lines.push(line), Seq::empty())
        } else {
            (lines, line)
        }
    }
}

/// The command that a line is: without the space at its end.
pub open spec fn command_of(line: Seq<u8>) -> Seq<char> {
    trim_back(lossy_text(line), Strip::Space)
}

/// The commands that lines are; empty lines are none.
pub open spec fn commands(lines: Seq<Seq<u8>>) -> Seq<Seq<char>>
    decreases lines.len(),
{
    if lines.len() == 0 {
        Seq::empty()
    } else {
        let r = commands(lines.drop_last());
        let c = command_of(lines.last());
        if c.len() == 0 {
            r
        } else {
            r.push(c)
        }
    }
}

/// What was received of a control connection and is no whole line yet.
#[derive(Debug)]
pub struct ControlLines {
    buf: Vec<u8>,
}

impl ControlLines {
    pub closed spec fn held(self) -> Seq<u8> {
        self.buf@
    }

    pub fn new() -> (r: ControlLines)
        ensures
            r.held() == Seq::<u8>::empty(),
    {
        ControlLines { buf: Vec::new() }
    }

    /// Take in what was received; the commands that are now whole. One read can
    /// bring several, or a part of one.
    pub fn feed(&mut self, chunk: &[u8]) -> (r: Vec<String>)
        ensures
            texts(r@) == commands(framed(old(self).held(), chunk@).0),
            final(self).held() == framed(old(self).held(), chunk@).1,
    {
        let ghost held = self.held();
        let mut out: Vec<String> = Vec::new();
        let mut i: usize = 0;
        proof {
            assert(chunk@.take(0) =~= Seq::<u8>::empty());
            assert(texts(out@) =~= Seq::<Seq<char>>::empty());
        }
        while i < chunk.len()
            invariant
                i <= chunk@.len(),
                held == old(self).held(),
                texts(out@) == commands(framed(held, chunk@.take(i as int)).0),
                self.held() == framed(held, chunk@.take(i as int)).1,
            decreases chunk@.len() - i,
        {
            proof {
                let t = chunk@.take(i + 1);
                assert(t.drop_last() =~= chunk@.take(i as int));
                assert(t.last() == chunk@[i as int]);
            }
            let b: u8 = chunk[i];
            let ghost lines = framed(held, chunk@.take(i as int)).0;
            self.buf.push(b);
            if b == 10 {
                let text = lossy(self.buf.as_slice());
                let command = trim_end(text.as_str(), Strip::Space);
                proof {
                    let line = self.buf@;
                    assert(lines.push(line).drop_last() =~= lines);
                    assert(lines.push(line).last() == line);
                }
                if !command.as_str().is_empty() {
                    let ghost had = texts(out@);
                    out.push(command);
                    proof {
                        assert(texts(out@) =~= had.push(command@));
                    }
                }
                self.buf = Vec::new();
                proof {
                    assert(self.buf@ =~= Seq::<u8>::empty());
                }
            }
            i += 1;
        }
        proof {
            assert(chunk@.take(chunk@.len() as int) =~= chunk@);
        }
        out
    }

    /// Why the client is to be dropped: it sends on without an end of line. What is
    /// left once the whole lines are gone counts, so that many short commands in
    /// one read do no harm.
    pub fn overlong(&self) -> (r: Option<String>)
        ensures
            opt_text(r) == (if self.held().len() > MAX_LINE {
                Some(
                    "client is holding "@ + digits(self.held().len())
                        + " bytes with no end of line in them"@,
                )
            } else {
                None
            }),
    {
        if self.buf.len() > MAX_LINE {
            let n = decimal(self.buf.len() as u64);
            Some(
                join3("client is holding ", n.as_str(), " bytes with no end of line in them"),
            )
        } else {
            None
        }
    }
}

/// How long a client is waited for, in milliseconds: only one that has not logged
/// in is timed; after that it may be idle for as long as its user thinks.
pub fn read_limit(authenticated: bool, left_ms: u64) -> (r: Option<u64>)
    ensures
        r == (if authenticated {
            None
        } else {
            Some(left_ms)
        }),
{
    if authenticated {
        None
    } else {
        Some(left_ms)
    }
}

// ── Laws ────────────────────────────────────────────────────────────────────

/// How the bytes are cut into reads makes no difference: two reads give the lines
/// and leave the rest that one read of both does.
pub proof fn the_cut_makes_no_difference(held: Seq<u8>, a: Seq<u8>, b: Seq<u8>)
    ensures
        framed(held, a + b).0 == framed(held, a).0 + framed(framed(held, a).1, b).0,
        framed(held, a + b).1 == framed(framed(held, a).1, b).1,
    decreases b.len(),
{
    if b.len() == 0 {
        assert(a + b =~= a);
        assert(framed(held, a).0 + Seq::<Seq<u8>>::empty() =~= framed(held, a).0);
    } else {
        the_cut_makes_no_difference(held, a, b.drop_last());
        assert((a + b).drop_last() =~= a + b.drop_last());
        assert((a + b).last() == b.last());
        let x = framed(held, a).0;
        let (y, rest) = framed(framed(held, a).1, b.drop_last());
        let line = rest.push(b.last());
        assert((x + y).push(line) =~= x + y.push(line));
    }
}

/// The commands of two lots of lines are those of both.
pub proof fn commands_come_in_order(a: Seq<Seq<u8>>, b: Seq<Seq<u8>>)
    ensures
        commands(a + b) == commands(a) + commands(b),
    decreases b.len(),
{
    if b.len() == 0 {
        assert(a + b =~= a);
        assert(commands(a) + Seq::<Seq<char>>::empty() =~= commands(a));
    } else {
        commands_come_in_order(a, b.drop_last());
        assert((a + b).drop_last() =~= a + b.drop_last());
        assert((a + b).last() == b.last());
        let c = command_of(b.last());
        assert((commands(a) + commands(b.drop_last())).push(c) =~= commands(a) + commands(
            b.drop_last(),
        ).push(c));
    }
}

/// No line that was taken out is held on to: what is held never has an end of line
/// in it.
pub proof fn nothing_whole_is_held_back(held: Seq<u8>, bytes: Seq<u8>)
    requires
        !held.contains(10u8),
    ensures
        !framed(held, bytes).1.contains(10u8),
    decreases bytes.len(),
{
    if bytes.len() > 0 {
        nothing_whole_is_held_back(held, bytes.drop_last());
        let rest = framed(held, bytes.drop_last()).1;
        let line = rest.push(bytes.last());
        if bytes.last() != 10u8 && line.contains(10u8) {
            let i = choose|i: int| 0 <= i < line.len() && line[i] == 10u8;
            assert(rest[i] == 10u8);
        }
    }
}

/// Lines one after the other.
pub open spec fn in_a_row(lines: Seq<Seq<u8>>) -> Seq<u8>
    decreases lines.len(),
{
    if lines.len() == 0 {
        Seq::empty()
    } else {
        in_a_row(lines.drop_last()) + lines.last()
    }
}

/// Nothing that was received is lost, doubled or moved: the lines and what is held
/// are what was held and what came. Each line ends at the first end of line in it.
pub proof fn every_byte_is_in_a_line_or_held(held: Seq<u8>, bytes: Seq<u8>)
    ensures
        in_a_row(framed(held, bytes).0) + framed(held, bytes).1 == held + bytes,
        !held.contains(10u8) ==> forall|i: int, j: int|
            0 <= i < framed(held, bytes).0.len() && 0 <= j < framed(held, bytes).0[i].len() ==> (
            #[trigger] framed(held, bytes).0[i][j] == 10u8 <==> j == framed(held, bytes).0[i].len()
                - 1),
        forall|i: int|
            0 <= i < framed(held, bytes).0.len() ==> (#[trigger] framed(held, bytes).0[i]).len()
                > 0,
    decreases bytes.len(),
{
    if bytes.len() == 0 {
        assert(in_a_row(framed(held, bytes).0) + framed(held, bytes).1 =~= held + bytes);
    } else {
        let less = bytes.drop_last();
        every_byte_is_in_a_line_or_held(held, less);
        let (lines, rest) = framed(held, less);
        let line = rest.push(bytes.last());
        let all = framed(held, bytes).0;
        assert(held + bytes =~= (held + less).push(bytes.last()));
        if !held.contains(10u8) {
            nothing_whole_is_held_back(held, less);
        }
        if bytes.last() == 10u8 {
            assert(all =~= lines.push(line));
            assert(all.drop_last() =~= lines);
            assert(in_a_row(all) =~= in_a_row(lines) + line);
            assert forall|i: int| 0 <= i < all.len() implies (#[trigger] all[i]).len() > 0 by {
                if i < lines.len() {
                    assert(all[i] == lines[i]);
                }
            }
            if !held.contains(10u8) {
                assert forall|i: int, j: int|
                    0 <= i < all.len() && 0 <= j < all[i].len() implies (#[trigger] all[i][j]
                    == 10u8 <==> j == all[i].len() - 1) by {
                    if i < lines.len() {
                        assert(all[i] == lines[i]);
                    } else if j < rest.len() {
                        assert(rest[j] == all[i][j]);
                        assert(rest.contains(rest[j]));
                    }
                }
            }
        }
        assert(in_a_row(framed(held, bytes).0) + framed(held, bytes).1 =~= held + bytes);
    }
}

/// A line is the command that it holds, without its end; what is said before and
/// in it stays.
pub proof fn a_command_is_what_its_line_says(text: Seq<u8>, lines: Seq<Seq<u8>>)
    requires
        all_ascii(text),
        text.len() > 0,
        33 <= text.last() < 127,
    ensures
        commands(lines.push(text + seq![13u8, 10u8])) == commands(lines).push(ascii_chars(text)),
        commands(lines.push(text + seq![10u8])) == commands(lines).push(ascii_chars(text)),
        commands(lines.push(seq![13u8, 10u8])) == commands(lines),
{
    let a = text + seq![13u8, 10u8];
    let b = text + seq![10u8];
    let c = seq![13u8, 10u8];
    let t = ascii_chars(text);
    assert(all_ascii(a));
    assert(all_ascii(b));
    assert(all_ascii(c));
    assert(t.last() == text.last() as char);
    assert(ascii_chars(b) =~= t.push(10u8 as char));
    assert(ascii_chars(a) =~= t.push(13u8 as char).push(10u8 as char));
    assert(ascii_chars(c) =~= Seq::<char>::empty().push(13u8 as char).push(10u8 as char));
    reveal_with_fuel(trim_back, 3);
    assert(t.push(10u8 as char).drop_last() =~= t);
    assert(t.push(13u8 as char).push(10u8 as char).drop_last() =~= t.push(13u8 as char));
    assert(t.push(13u8 as char).drop_last() =~= t);
    let e = Seq::<char>::empty();
    assert(e.push(13u8 as char).push(10u8 as char).drop_last() =~= e.push(13u8 as char));
    assert(e.push(13u8 as char).drop_last() =~= e);
    assert(lines.push(a).drop_last() =~= lines);
    assert(lines.push(b).drop_last() =~= lines);
    assert(lines.push(c).drop_last() =~= lines);
}

} // verus!
