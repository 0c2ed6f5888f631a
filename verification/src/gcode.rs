//! What G-code does to a machine: a small machine that reads the lines that are
//! sent for a control action, and what each action comes to on it.
use vstd::prelude::*;

use crate::control::{carries, Axis, Command, ControlAction, HomeAxes, TempPart};
use crate::number::{all_digits, digits, digits_read_back};

verus! {

// ── The machine ─────────────────────────────────────────────────────────────

/// Where a machine stands. Lengths, speeds and temperatures are in the units that
/// its G-code gives them in.
#[verifier::ext_equal]
pub struct Motion {
    pub x: int,
    pub y: int,
    pub z: int,
    /// How much filament was pushed.
    pub e: int,
    /// A move goes by its lengths, and not to them.
    pub relative: bool,
    /// So does an extrusion.
    pub e_relative: bool,
    pub feed: int,
    /// The temperature the nozzle is to have.
    pub nozzle: int,
    /// The temperature the bed is to have.
    pub bed: int,
    /// The motors hold the axes.
    pub motors: bool,
    /// Every line so far was one that this machine knows.
    pub known: bool,
}

/// `s` in pieces, cut at each `c`.
pub open spec fn cut(s: Seq<char>, c: char) -> Seq<Seq<char>>
    decreases s.len(),
{
    if s.len() == 0 {
        seq![Seq::empty()]
    } else {
        let r = cut(s.drop_last(), c);
        if s.last() == c {
            r.push(Seq::empty())
        } else {
            r.drop_last().push(r.last().push(s.last()))
        }
    }
}

/// Where a length takes an axis.
pub open spec fn moved(at: int, by: int, relative: bool) -> int {
    if relative {
        at + by
    } else {
        by
    }
}

/// What the word `w` of a move does. `read` is the number that a text stands for.
pub open spec fn moves(read: spec_fn(Seq<char>) -> int, m: Motion, w: Seq<char>) -> Motion {
    let n = read(w.skip(1));
    if w.len() == 0 {
        Motion { known: false, ..m }
    } else if w[0] == 'X' {
        Motion { x: moved(m.x, n, m.relative), ..m }
    } else if w[0] == 'Y' {
        Motion { y: moved(m.y, n, m.relative), ..m }
    } else if w[0] == 'Z' {
        Motion { z: moved(m.z, n, m.relative), ..m }
    } else if w[0] == 'E' {
        Motion { e: moved(m.e, n, m.e_relative), ..m }
    } else if w[0] == 'F' {
        Motion { feed: n, ..m }
    } else {
        Motion { known: false, ..m }
    }
}

/// What the word `w` of a homing does.
pub open spec fn homes(m: Motion, w: Seq<char>) -> Motion {
    if w == seq!['X'] {
        Motion { x: 0, ..m }
    } else if w == seq!['Y'] {
        Motion { y: 0, ..m }
    } else if w == seq!['Z'] {
        Motion { z: 0, ..m }
    } else {
        Motion { known: false, ..m }
    }
}

/// What one line does, given by its words.
pub open spec fn does(read: spec_fn(Seq<char>) -> int, m: Motion, words: Seq<Seq<char>>) -> Motion
    decreases words.len(),
{
    if words.len() == 0 {
        m
    } else if words.len() == 1 {
        let w = words[0];
        if w == seq!['G', '9', '0'] {
            Motion { relative: false, ..m }
        } else if w == seq!['G', '9', '1'] {
            Motion { relative: true, ..m }
        } else if w == seq!['M', '8', '2'] {
            Motion { e_relative: false, ..m }
        } else if w == seq!['M', '8', '3'] {
            Motion { e_relative: true, ..m }
        } else if w == seq!['M', '8', '4'] {
            Motion { motors: false, ..m }
        } else if w == seq!['G', '2', '8'] {
            Motion { x: 0, y: 0, z: 0, ..m }
        } else if w == seq!['G', '1'] {
            m
        } else {
            Motion { known: false, ..m }
        }
    } else if words[0] == seq!['G', '1'] {
        moves(read, does(read, m, words.drop_last()), words.last())
    } else if words[0] == seq!['G', '2', '8'] && words.len() == 2 {
        homes(m, words[1])
    } else if words[0] == seq!['M', '1', '0', '4'] && words.len() == 2 && words[1].len() > 0
        && words[1][0] == 'S' {
        Motion { nozzle: read(words[1].skip(1)), ..m }
    } else if words[0] == seq!['M', '1', '4', '0'] && words.len() == 2 && words[1].len() > 0
        && words[1][0] == 'S' {
        Motion { bed: read(words[1].skip(1)), ..m }
    } else {
        Motion { known: false, ..m }
    }
}

/// What lines do, one after the other.
pub open spec fn runs(read: spec_fn(Seq<char>) -> int, m: Motion, lines: Seq<Seq<char>>) -> Motion
    decreases lines.len(),
{
    if lines.len() == 0 {
        m
    } else {
        does(read, runs(read, m, lines.drop_last()), cut(lines.last(), ' '))
    }
}

/// What a command that is G-code does to a machine that stood at `m`.
pub open spec fn after(read: spec_fn(Seq<char>) -> int, m: Motion, c: Command) -> Motion {
    match c {
        Command::GcodeLine(text) => runs(read, m, cut(text@, '\n')),
        _ => Motion { known: false, ..m },
    }
}

/// `read` reads a whole number as that number.
pub open spec fn reads_numbers(read: spec_fn(Seq<char>) -> int) -> bool {
    forall|n: nat| read(#[trigger] digits(n)) == n
}

/// A text that fits into a word of a line.
pub open spec fn one_word(s: Seq<char>) -> bool {
    !s.contains(' ') && !s.contains('\n')
}

// ── How it reads ────────────────────────────────────────────────────────────

proof fn lemma_cut_none(s: Seq<char>, c: char)
    requires
        !s.contains(c),
    ensures
        cut(s, c) == seq![s],
    decreases s.len(),
{
    if s.len() == 0 {
        assert(s =~= Seq::<char>::empty());
    } else {
        assert(s[s.len() - 1] == s.last());
        assert forall|i: int| 0 <= i < s.drop_last().len() implies s.drop_last()[i] != c by {
            assert(s[i] != c);
        }
        lemma_cut_none(s.drop_last(), c);
        assert(s.drop_last().push(s.last()) =~= s);
        assert(seq![s.drop_last()].drop_last() =~= Seq::<Seq<char>>::empty());
        assert(cut(s, c) =~= seq![s]);
    }
}

proof fn lemma_cut_nonempty(s: Seq<char>, c: char)
    ensures
        cut(s, c).len() > 0,
    decreases s.len(),
{
    if s.len() > 0 {
        lemma_cut_nonempty(s.drop_last(), c);
    }
}

proof fn lemma_cut_at(a: Seq<char>, b: Seq<char>, c: char)
    ensures
        cut(a + seq![c] + b, c) == cut(a, c) + cut(b, c),
    decreases b.len(),
{
    let s = a + seq![c] + b;
    if b.len() == 0 {
        assert(s.drop_last() =~= a);
        assert(b =~= Seq::<char>::empty());
        assert(cut(s, c) =~= cut(a, c) + cut(b, c));
    } else {
        lemma_cut_at(a, b.drop_last(), c);
        lemma_cut_nonempty(b.drop_last(), c);
        assert(s.drop_last() =~= a + seq![c] + b.drop_last());
        assert(s.last() == b.last());
        assert(cut(s, c) =~= cut(a, c) + cut(b, c));
    }
}

proof fn lemma_digits_are_one_word(n: nat)
    ensures
        one_word(digits(n)),
{
    digits_read_back(n);
    let d = digits(n);
    assert forall|i: int| 0 <= i < d.len() implies d[i] != ' ' && d[i] != '\n' by {
        assert(crate::text::is_digit(d[i]));
    }
}

/// Two words on a line.
proof fn lemma_two_words(a: Seq<char>, b: Seq<char>)
    requires
        one_word(a),
        one_word(b),
    ensures
        cut(a + seq![' '] + b, ' ') == seq![a, b],
{
    lemma_cut_at(a, b, ' ');
    lemma_cut_none(a, ' ');
    lemma_cut_none(b, ' ');
    assert(seq![a] + seq![b] =~= seq![a, b]);
}

/// Three words on a line.
proof fn lemma_three_words(a: Seq<char>, b: Seq<char>, c: Seq<char>)
    requires
        one_word(a),
        one_word(b),
        one_word(c),
    ensures
        cut(a + seq![' '] + b + seq![' '] + c, ' ') == seq![a, b, c],
{
    lemma_cut_at(a + seq![' '] + b, c, ' ');
    lemma_two_words(a, b);
    lemma_cut_none(c, ' ');
    assert(seq![a, b] + seq![c] =~= seq![a, b, c]);
}

/// One line.
proof fn lemma_one_line(read: spec_fn(Seq<char>) -> int, m: Motion, a: Seq<char>)
    requires
        !a.contains('\n'),
    ensures
        runs(read, m, cut(a, '\n')) == does(read, m, cut(a, ' ')),
{
    lemma_cut_none(a, '\n');
    reveal_with_fuel(runs, 2);
    assert(seq![a].drop_last() =~= Seq::<Seq<char>>::empty());
}

/// Three lines.
proof fn lemma_three_lines(
    read: spec_fn(Seq<char>) -> int,
    m: Motion,
    a: Seq<char>,
    b: Seq<char>,
    c: Seq<char>,
)
    requires
        !a.contains('\n'),
        !b.contains('\n'),
        !c.contains('\n'),
    ensures
        runs(read, m, cut(a + seq!['\n'] + b + seq!['\n'] + c, '\n')) == does(
            read,
            does(read, does(read, m, cut(a, ' ')), cut(b, ' ')),
            cut(c, ' '),
        ),
{
    reveal_with_fuel(runs, 2);
    lemma_cut_at(a + seq!['\n'] + b, c, '\n');
    lemma_cut_at(a, b, '\n');
    lemma_cut_none(a, '\n');
    lemma_cut_none(b, '\n');
    lemma_cut_none(c, '\n');
    let l3 = seq![a] + seq![b] + seq![c];
    let l2 = seq![a] + seq![b];
    assert(l3.drop_last() =~= l2);
    assert(l2.drop_last() =~= seq![a]);
    assert(seq![a].drop_last() =~= Seq::<Seq<char>>::empty());
    assert(runs(read, m, seq![a]) == does(read, m, cut(a, ' ')));
    assert(runs(read, m, l2) == does(read, runs(read, m, seq![a]), cut(b, ' ')));
}

/// A move of one word and a feedrate.
proof fn lemma_move(
    read: spec_fn(Seq<char>) -> int,
    m: Motion,
    letter: char,
    number: Seq<char>,
    feed: Seq<char>,
)
    requires
        one_word(number),
        one_word(feed),
        letter != ' ' && letter != '\n',
    ensures
        does(
            read,
            m,
            cut(
                seq!['G', '1'] + seq![' '] + (seq![letter] + number) + seq![' '] + (seq!['F']
                    + feed),
                ' ',
            ),
        ) == moves(read, moves(read, m, seq![letter] + number), seq!['F'] + feed),
{
    let a = seq!['G', '1'];
    let b = seq![letter] + number;
    let c = seq!['F'] + feed;
    assert(one_word(b)) by {
        assert forall|i: int| 0 <= i < b.len() implies b[i] != ' ' && b[i] != '\n' by {
            if i > 0 {
                assert(number[i - 1] == b[i]);
            }
        }
    }
    assert(one_word(c)) by {
        assert forall|i: int| 0 <= i < c.len() implies c[i] != ' ' && c[i] != '\n' by {
            if i > 0 {
                assert(feed[i - 1] == c[i]);
            }
        }
    }
    lemma_three_words(a, b, c);
    let w3 = seq![a, b, c];
    let w2 = seq![a, b];
    let w1 = seq![a];
    assert(w3.drop_last() =~= w2);
    assert(w2.drop_last() =~= w1);
    assert(a.len() == 2);
    assert(a != seq!['G', '9', '0'] && a != seq!['G', '9', '1'] && a != seq!['M', '8', '2'] && a
        != seq!['M', '8', '3'] && a != seq!['M', '8', '4'] && a != seq!['G', '2', '8']) by {
        assert(seq!['G', '9', '0'].len() == 3);
        assert(seq!['G', '9', '1'].len() == 3);
        assert(seq!['M', '8', '2'].len() == 3);
        assert(seq!['M', '8', '3'].len() == 3);
        assert(seq!['M', '8', '4'].len() == 3);
        assert(seq!['G', '2', '8'].len() == 3);
    }
    assert(does(read, m, w1) == m);
    assert(does(read, m, w2) == moves(read, m, b));
}

/// A line of one word.
proof fn lemma_word(read: spec_fn(Seq<char>) -> int, m: Motion, w: Seq<char>)
    requires
        w.len() == 3,
        one_word(w),
    ensures
        cut(w, ' ') == seq![w],
        w == seq!['G', '9', '0'] ==> does(read, m, cut(w, ' ')) == (Motion { relative: false, ..m }),
        w == seq!['G', '9', '1'] ==> does(read, m, cut(w, ' ')) == (Motion { relative: true, ..m }),
        w == seq!['M', '8', '2'] ==> does(read, m, cut(w, ' ')) == (Motion {
            e_relative: false,
            ..m
        }),
        w == seq!['M', '8', '3'] ==> does(read, m, cut(w, ' ')) == (Motion { e_relative: true, ..m }),
        w == seq!['M', '8', '4'] ==> does(read, m, cut(w, ' ')) == (Motion { motors: false, ..m }),
        w == seq!['G', '2', '8'] ==> does(read, m, cut(w, ' ')) == (Motion {
            x: 0,
            y: 0,
            z: 0,
            ..m
        }),
{
    lemma_cut_none(w, ' ');
    let a = seq!['G', '9', '0'];
    let b = seq!['G', '9', '1'];
    let c = seq!['M', '8', '2'];
    let d = seq!['M', '8', '3'];
    let e = seq!['M', '8', '4'];
    let f = seq!['G', '2', '8'];
    assert(a[0] == 'G' && a[1] == '9' && a[2] == '0');
    assert(b[0] == 'G' && b[1] == '9' && b[2] == '1');
    assert(c[0] == 'M' && c[1] == '8' && c[2] == '2');
    assert(d[0] == 'M' && d[1] == '8' && d[2] == '3');
    assert(e[0] == 'M' && e[1] == '8' && e[2] == '4');
    assert(f[0] == 'G' && f[1] == '2' && f[2] == '8');
}

// ── Laws ────────────────────────────────────────────────────────────────────

/// A jog moves its axis by its length, from wherever the machine stands, and no
/// other: a machine that took moves to be absolute does so again.
pub proof fn a_jog_moves_its_axis_by_its_length(
    read: spec_fn(Seq<char>) -> int,
    m: Motion,
    axis: Axis,
    delta: String,
    feedrate: u32,
    c: Command,
)
    requires
        carries(c, (ControlAction::Move { axis, delta, feedrate })),
        reads_numbers(read),
        one_word(delta@),
        !m.relative,
    ensures
        after(read, m, c) == (Motion {
            x: if axis is X { m.x + read(delta@) } else { m.x },
            y: if axis is Y { m.y + read(delta@) } else { m.y },
            z: if axis is Z { m.z + read(delta@) } else { m.z },
            feed: feedrate as int,
            ..m
        }),
{
    let f = digits(feedrate as nat);
    let letter: char = match axis {
        Axis::X => 'X',
        Axis::Y => 'Y',
        Axis::Z => 'Z',
    };
    let up = seq!['G', '9', '1'];
    let down = seq!['G', '9', '0'];
    let go = seq!['G', '1'] + seq![' '] + (seq![letter] + delta@) + seq![' '] + (seq!['F'] + f);
    reveal_strlit("G91\nG1 ");
    reveal_strlit("X");
    reveal_strlit("Y");
    reveal_strlit("Z");
    reveal_strlit(" F");
    reveal_strlit("\nG90");
    lemma_digits_are_one_word(feedrate as nat);
    let text = c->GcodeLine_0@;
    assert(text =~= up + seq!['\n'] + go + seq!['\n'] + down);
    assert(!go.contains('\n')) by {
        assert forall|i: int| 0 <= i < go.len() implies go[i] != '\n' by {
            if 4 <= i < 4 + delta@.len() {
                assert(go[i] == delta@[i - 4]);
            } else if i >= 6 + delta@.len() {
                assert(go[i] == f[i - 6 - delta@.len()]);
            }
        }
    }
    lemma_three_lines(read, m, up, go, down);
    lemma_word(read, m, up);
    let m1 = Motion { relative: true, ..m };
    lemma_move(read, m1, letter, delta@, f);
    let w = seq![letter] + delta@;
    assert(w.skip(1) =~= delta@);
    assert((seq!['F'] + f).skip(1) =~= f);
    let m2 = moves(read, moves(read, m1, w), seq!['F'] + f);
    lemma_word(read, m2, down);
}

/// An extrusion pushes its length of filament and moves nothing else.
pub proof fn an_extrusion_pushes_its_length(
    read: spec_fn(Seq<char>) -> int,
    m: Motion,
    delta: String,
    feedrate: u32,
    c: Command,
)
    requires
        carries(c, (ControlAction::Extrude { delta, feedrate })),
        reads_numbers(read),
        one_word(delta@),
        !m.e_relative,
    ensures
        after(read, m, c) == (Motion { e: m.e + read(delta@), feed: feedrate as int, ..m }),
{
    let f = digits(feedrate as nat);
    let up = seq!['M', '8', '3'];
    let down = seq!['M', '8', '2'];
    let go = seq!['G', '1'] + seq![' '] + (seq!['E'] + delta@) + seq![' '] + (seq!['F'] + f);
    reveal_strlit("M83\nG1 E");
    reveal_strlit(" F");
    reveal_strlit("\nM82");
    lemma_digits_are_one_word(feedrate as nat);
    let text = c->GcodeLine_0@;
    assert(text =~= up + seq!['\n'] + go + seq!['\n'] + down);
    assert(!go.contains('\n')) by {
        assert forall|i: int| 0 <= i < go.len() implies go[i] != '\n' by {
            if 4 <= i < 4 + delta@.len() {
                assert(go[i] == delta@[i - 4]);
            } else if i >= 6 + delta@.len() {
                assert(go[i] == f[i - 6 - delta@.len()]);
            }
        }
    }
    lemma_three_lines(read, m, up, go, down);
    lemma_word(read, m, up);
    let m1 = Motion { e_relative: true, ..m };
    lemma_move(read, m1, 'E', delta@, f);
    let w = seq!['E'] + delta@;
    assert(w.skip(1) =~= delta@);
    assert((seq!['F'] + f).skip(1) =~= f);
    let m2 = moves(read, moves(read, m1, w), seq!['F'] + f);
    lemma_word(read, m2, down);
}

/// Homing takes the axes it names to their origin and no other.
pub proof fn homing_takes_its_axes_to_the_origin(
    read: spec_fn(Seq<char>) -> int,
    m: Motion,
    axes: HomeAxes,
    c: Command,
)
    requires
        carries(c, ControlAction::Home(axes)),
    ensures
        after(read, m, c) == (Motion {
            x: if axes is X || axes is All { 0 } else { m.x },
            y: if axes is Y || axes is All { 0 } else { m.y },
            z: if axes is Z || axes is All { 0 } else { m.z },
            ..m
        }),
{
    reveal_strlit("G28");
    reveal_strlit("G28 X");
    reveal_strlit("G28 Y");
    reveal_strlit("G28 Z");
    let text = c->GcodeLine_0@;
    let g = seq!['G', '2', '8'];
    if axes is All {
        assert(text =~= g);
        lemma_one_line(read, m, text);
        lemma_word(read, m, g);
    } else {
        let l: char = match axes {
            HomeAxes::X => 'X',
            HomeAxes::Y => 'Y',
            _ => 'Z',
        };
        assert(text =~= g + seq![' '] + seq![l]);
        lemma_one_line(read, m, text);
        lemma_two_words(g, seq![l]);
        assert(g.len() == 3 && seq!['G', '1'].len() == 2);
        assert(seq!['X'][0] == 'X' && seq!['Y'][0] == 'Y' && seq!['Z'][0] == 'Z' && seq![l][0] == l);
    }
}

/// A temperature is set for the part that it was asked for, and for no other.
pub proof fn a_temperature_is_set_for_its_part(
    read: spec_fn(Seq<char>) -> int,
    m: Motion,
    part: TempPart,
    celsius: u32,
    c: Command,
)
    requires
        carries(c, (ControlAction::SetTemp { part, celsius })),
        reads_numbers(read),
    ensures
        after(read, m, c) == (Motion {
            nozzle: if part is Nozzle { celsius as int } else { m.nozzle },
            bed: if part is Bed { celsius as int } else { m.bed },
            ..m
        }),
{
    let d = digits(celsius as nat);
    let s = seq!['S'] + d;
    let head = if part is Nozzle {
        seq!['M', '1', '0', '4']
    } else {
        seq!['M', '1', '4', '0']
    };
    reveal_strlit("M104 S");
    reveal_strlit("M140 S");
    lemma_digits_are_one_word(celsius as nat);
    let text = c->GcodeLine_0@;
    assert(text =~= head + seq![' '] + s);
    assert(one_word(s)) by {
        assert forall|i: int| 0 <= i < s.len() implies s[i] != ' ' && s[i] != '\n' by {
            if i > 0 {
                assert(s[i] == d[i - 1]);
            }
        }
    }
    assert(!text.contains('\n')) by {
        assert forall|i: int| 0 <= i < text.len() implies text[i] != '\n' by {
            if i >= 5 {
                assert(text[i] == s[i - 5]);
            }
        }
    }
    lemma_one_line(read, m, text);
    lemma_two_words(head, s);
    assert(s.skip(1) =~= d);
    assert(head.len() == 4 && seq!['G', '1'].len() == 2 && seq!['G', '2', '8'].len() == 3);
    assert(seq!['M', '1', '0', '4'][2] == '0' && seq!['M', '1', '4', '0'][2] == '4');
}

/// Releasing the steppers turns the motors off and moves nothing.
pub proof fn released_steppers_hold_nothing(
    read: spec_fn(Seq<char>) -> int,
    m: Motion,
    c: Command,
)
    requires
        carries(c, ControlAction::DisableSteppers),
    ensures
        after(read, m, c) == (Motion { motors: false, ..m }),
{
    reveal_strlit("M84");
    let text = c->GcodeLine_0@;
    assert(text =~= seq!['M', '8', '4']);
    lemma_one_line(read, m, text);
    lemma_word(read, m, text);
}

} // verus!
