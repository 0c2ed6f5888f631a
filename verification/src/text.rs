//! Text as sequences of characters: the character classes, trims, searches and
//! number renderings that identifiers, paths and messages are built from.
use vstd::prelude::*;

verus! {

/// `String::push` appends one character to the end of the text.
pub assume_specification[ String::push ](s: &mut String, ch: char)
    ensures
        final(s)@ == old(s)@.push(ch),
;

/// A text in which `{:?}` escapes nothing: printable ASCII, without a double quote
/// or a backslash.
pub open spec fn needs_no_escape(s: Seq<char>) -> bool {
    forall|i: int|
        0 <= i < s.len() ==> ' ' <= (#[trigger] s[i]) <= '~' && s[i] != '"' && s[i] != '\\'
}

/// What `{:?}` prints for a text in which something may be escaped.
pub uninterp spec fn escaped_text(s: Seq<char>) -> Seq<char>;

/// What `{:?}` prints for a text.
pub open spec fn debug_text(s: Seq<char>) -> Seq<char> {
    if needs_no_escape(s) {
        seq!['"'] + s + seq!['"']
    } else {
        escaped_text(s)
    }
}

/// The `Debug` rendering of `str` (`format!("{:?}")`): the text in double quotes,
/// with control characters escaped, so that what comes out is a single line.
/// Printable ASCII other than the double quote and the backslash stays as it is;
/// which other characters are escaped, and how, is left unsaid.
#[verifier::external_body]
pub(crate) fn quoted(s: &str) -> (r: String)
    ensures
        needs_no_escape(s@) ==> r@ == seq!['"'] + s@ + seq!['"'],
        !needs_no_escape(s@) ==> r@ == escaped_text(s@),
        !r@.contains('\n'),
{
    format!("{:?}", s)
}

// ── Character classes ───────────────────────────────────────────────────────

pub open spec fn is_digit(c: char) -> bool {
    '0' <= c <= '9'
}

/// An ASCII letter or digit.
pub open spec fn is_alnum(c: char) -> bool {
    ||| '0' <= c <= '9'
    ||| 'a' <= c <= 'z'
    ||| 'A' <= c <= 'Z'
}

/// Unicode `White_Space`.
pub open spec fn is_space(c: char) -> bool {
    ||| 0x9 <= c as u32 <= 0xd
    ||| c as u32 == 0x20
    ||| c as u32 == 0x85
    ||| c as u32 == 0xa0
    ||| c as u32 == 0x1680
    ||| 0x2000 <= c as u32 <= 0x200a
    ||| c as u32 == 0x2028
    ||| c as u32 == 0x2029
    ||| c as u32 == 0x202f
    ||| c as u32 == 0x205f
    ||| c as u32 == 0x3000
}

/// An ASCII capital in lower case; any other character as it is.
pub open spec fn lower_char(c: char) -> char {
    if 'A' <= c <= 'Z' {
        ((c as u32 + 32) as u32) as char
    } else {
        c
    }
}

/// An ASCII small letter in upper case; any other character as it is.
pub open spec fn upper_char(c: char) -> char {
    if 'a' <= c <= 'z' {
        ((c as u32 - 32) as u32) as char
    } else {
        c
    }
}

pub open spec fn lower(s: Seq<char>) -> Seq<char> {
    s.map_values(|c: char| lower_char(c))
}

pub open spec fn upper(s: Seq<char>) -> Seq<char> {
    s.map_values(|c: char| upper_char(c))
}

pub fn char_is_digit(c: char) -> (r: bool)
    ensures
        r == is_digit(c),
{
    '0' <= c && c <= '9'
}

pub fn char_is_alnum(c: char) -> (r: bool)
    ensures
        r == is_alnum(c),
{
    ('0' <= c && c <= '9') || ('a' <= c && c <= 'z') || ('A' <= c && c <= 'Z')
}

pub fn char_is_space(c: char) -> (r: bool)
    ensures
        r == is_space(c),
{
    let n: u32 = c as u32;
    (0x9 <= n && n <= 0xd) || n == 0x20 || n == 0x85 || n == 0xa0 || n == 0x1680 || (0x2000 <= n
        && n <= 0x200a) || n == 0x2028 || n == 0x2029 || n == 0x202f || n == 0x205f || n == 0x3000
}

pub fn char_to_lower(c: char) -> (r: char)
    ensures
        r == lower_char(c),
{
    if 'A' <= c && c <= 'Z' {
        ((c as u8) + 32) as char
    } else {
        c
    }
}

pub fn char_to_upper(c: char) -> (r: char)
    ensures
        r == upper_char(c),
{
    if 'a' <= c && c <= 'z' {
        ((c as u8) - 32) as char
    } else {
        c
    }
}

// ── Between texts and characters ────────────────────────────────────────────

/// The characters of `s`, in order.
pub fn chars_of(s: &str) -> (r: Vec<char>)
    ensures
        r@ == s@,
{
    let mut r: Vec<char> = Vec::new();
    for c in it: s.chars()
        invariant
            r@ == it.seq().take(it.index()),
            it.seq() == s@,
    {
        r.push(c);
    }
    r
}

/// The text whose characters are `chars`.
pub fn text_of(chars: &[char]) -> (r: String)
    ensures
        r@ == chars@,
{
    let mut r: String = String::new();
    let mut i: usize = 0;
    while i < chars.len()
        invariant
            i <= chars.len(),
            r@ == chars@.take(i as int),
        decreases chars.len() - i,
    {
        r.push(chars[i]);
        i += 1;
    }
    r
}

pub fn same_text(a: &str, b: &str) -> (r: bool)
    ensures
        r == (a@ == b@),
{
    a.to_owned() == b.to_owned()
}

/// `s` with every ASCII capital in lower case.
pub fn to_lower(s: &str) -> (r: String)
    ensures
        r@ == lower(s@),
{
    let mut r: String = String::new();
    for c in it: s.chars()
        invariant
            r@ == lower(it.seq().take(it.index())),
            it.seq() == s@,
    {
        let ghost before = it.seq().take(it.index());
        r.push(char_to_lower(c));
        proof {
            assert(it.seq().take(it.index() + 1) =~= before.push(c));
        }
    }
    proof {
        assert(s@.take(s@.len() as int) =~= s@);
    }
    r
}

/// `s` with every ASCII small letter in upper case.
pub fn to_upper(s: &str) -> (r: String)
    ensures
        r@ == upper(s@),
{
    let mut r: String = String::new();
    for c in it: s.chars()
        invariant
            r@ == upper(it.seq().take(it.index())),
            it.seq() == s@,
    {
        let ghost before = it.seq().take(it.index());
        r.push(char_to_upper(c));
        proof {
            assert(it.seq().take(it.index() + 1) =~= before.push(c));
        }
    }
    proof {
        assert(s@.take(s@.len() as int) =~= s@);
    }
    r
}

// ── Searching ───────────────────────────────────────────────────────────────

/// `p` occurs somewhere in `s`.
pub open spec fn has_text(s: Seq<char>, p: Seq<char>) -> bool {
    exists|i: int| text_at(s, p, i)
}

/// `p` stands in `s` at position `i`.
pub open spec fn text_at(s: Seq<char>, p: Seq<char>, i: int) -> bool {
    0 <= i && i + p.len() <= s.len() && s.subrange(i, i + p.len()) == p
}

fn chars_at(s: &[char], p: &[char], i: usize) -> (r: bool)
    ensures
        r == text_at(s@, p@, i as int),
{
    if i > s.len() || s.len() - i < p.len() {
        return false;
    }
    let mut k: usize = 0;
    while k < p.len()
        invariant
            k <= p.len(),
            i + p.len() <= s.len(),
            forall|j: int| 0 <= j < k ==> s@[i + j] == p@[j],
        decreases p.len() - k,
    {
        if s[i + k] != p[k] {
            proof {
                assert(s@.subrange(i as int, i + p.len())[k as int] != p@[k as int]);
            }
            return false;
        }
        k += 1;
    }
    proof {
        assert(s@.subrange(i as int, i + p.len()) =~= p@);
    }
    true
}

pub fn starts_with(s: &str, p: &str) -> (r: bool)
    ensures
        r == p@.is_prefix_of(s@),
{
    let cs = chars_of(s);
    let ps = chars_of(p);
    chars_at(cs.as_slice(), ps.as_slice(), 0)
}

pub fn ends_with(s: &str, p: &str) -> (r: bool)
    ensures
        r == p@.is_suffix_of(s@),
{
    let cs = chars_of(s);
    let ps = chars_of(p);
    if cs.len() < ps.len() {
        return false;
    }
    chars_at(cs.as_slice(), ps.as_slice(), cs.len() - ps.len())
}

pub fn contains_text(s: &str, p: &str) -> (r: bool)
    ensures
        r == has_text(s@, p@),
{
    let cs = chars_of(s);
    let ps = chars_of(p);
    let mut i: usize = 0;
    while i < cs.len()
        invariant
            i <= cs.len(),
            cs@ == s@,
            ps@ == p@,
            forall|j: int| 0 <= j < i ==> !#[trigger] text_at(s@, p@, j),
        decreases cs.len() - i,
    {
        if chars_at(cs.as_slice(), ps.as_slice(), i) {
            return true;
        }
        i += 1;
    }
    let r = chars_at(cs.as_slice(), ps.as_slice(), i);
    proof {
        if has_text(s@, p@) {
            let j = choose|j: int| text_at(s@, p@, j);
            assert(text_at(s@, p@, j));
        }
    }
    r
}

/// Where `c` first stands in `s`.
pub fn position(s: &[char], c: char) -> (r: Option<usize>)
    ensures
        match r {
            Some(i) => i < s@.len() && s@[i as int] == c && forall|j: int|
                0 <= j < i ==> s@[j] != c,
            None => !s@.contains(c),
        },
{
    let mut i: usize = 0;
    while i < s.len()
        invariant
            i <= s.len(),
            forall|j: int| 0 <= j < i ==> s@[j] != c,
        decreases s.len() - i,
    {
        if s[i] == c {
            return Some(i);
        }
        i += 1;
    }
    None
}

pub fn contains_char(s: &str, c: char) -> (r: bool)
    ensures
        r == s@.contains(c),
{
    let cs = chars_of(s);
    match position(cs.as_slice(), c) {
        Some(i) => {
            assert(s@[i as int] == c);
            true
        },
        None => false,
    }
}

/// The part of `s` before its first `c`; all of `s` where there is none.
pub open spec fn before_first(s: Seq<char>, c: char) -> Seq<char>
    decreases s.len(),
{
    if s.len() == 0 || s[0] == c {
        Seq::empty()
    } else {
        seq![s[0]] + before_first(s.drop_first(), c)
    }
}

/// The part of `s` after its last `c`; all of `s` where there is none.
pub open spec fn after_last(s: Seq<char>, c: char) -> Seq<char>
    decreases s.len(),
{
    if s.len() == 0 || s.last() == c {
        Seq::empty()
    } else {
        after_last(s.drop_last(), c).push(s.last())
    }
}

pub proof fn lemma_before_first(s: Seq<char>, c: char, i: int)
    requires
        0 <= i <= s.len(),
        forall|j: int| 0 <= j < i ==> s[j] != c,
        i == s.len() || s[i] == c,
    ensures
        before_first(s, c) == s.take(i),
    decreases s.len(),
{
    if s.len() == 0 || s[0] == c {
        assert(s.take(i) =~= Seq::<char>::empty());
    } else {
        lemma_before_first(s.drop_first(), c, i - 1);
        assert(seq![s[0]] + s.drop_first().take(i - 1) =~= s.take(i));
    }
}

pub proof fn lemma_after_last(s: Seq<char>, c: char, i: int)
    requires
        0 <= i <= s.len(),
        forall|j: int| i <= j < s.len() ==> s[j] != c,
        i == 0 || s[i - 1] == c,
    ensures
        after_last(s, c) == s.skip(i),
    decreases s.len(),
{
    if s.len() == 0 || s.last() == c {
        assert(s.skip(i) =~= Seq::<char>::empty());
    } else {
        lemma_after_last(s.drop_last(), c, i);
        assert(s.drop_last().skip(i).push(s.last()) =~= s.skip(i));
    }
}

/// The part of `s` before its first `c`; all of `s` where there is none.
pub fn head_before(s: &str, c: char) -> (r: String)
    ensures
        r@ == before_first(s@, c),
{
    let cs = chars_of(s);
    match position(cs.as_slice(), c) {
        Some(i) => {
            proof {
                lemma_before_first(s@, c, i as int);
            }
            s.substring_char(0, i).to_owned()
        },
        None => {
            proof {
                assert forall|j: int| 0 <= j < s@.len() implies s@[j] != c by {
                    if s@[j] == c {
                        assert(s@.contains(c));
                    }
                }
                lemma_before_first(s@, c, s@.len() as int);
                assert(s@.take(s@.len() as int) =~= s@);
            }
            s.to_owned()
        },
    }
}

/// The part of `s` after its last `c`; all of `s` where there is none.
pub fn tail_after(s: &str, c: char) -> (r: String)
    ensures
        r@ == after_last(s@, c),
{
    let cs = chars_of(s);
    let mut i: usize = cs.len();
    while i > 0 && cs[i - 1] != c
        invariant
            i <= cs.len(),
            cs@ == s@,
            forall|j: int| i <= j < s@.len() ==> s@[j] != c,
        decreases i,
    {
        i -= 1;
    }
    proof {
        lemma_after_last(s@, c, i as int);
        assert(s@.subrange(i as int, s@.len() as int) =~= s@.skip(i as int));
    }
    s.substring_char(i, cs.len()).to_owned()
}

// ── Trimming ────────────────────────────────────────────────────────────────

/// Which characters a trim takes off.
#[derive(Clone, Copy)]
pub enum Strip {
    /// Unicode white space.
    Space,
    /// `-` and `.`.
    DashDot,
    /// `_`.
    Underscore,
    /// `/`.
    Slash,
}

impl Strip {
    pub open spec fn takes(self, c: char) -> bool {
        match self {
            Strip::Space => is_space(c),
            Strip::DashDot => c == '-' || c == '.',
            Strip::Underscore => c == '_',
            Strip::Slash => c == '/',
        }
    }

    pub fn strips(self, c: char) -> (r: bool)
        ensures
            r == self.takes(c),
    {
        match self {
            Strip::Space => char_is_space(c),
            Strip::DashDot => c == '-' || c == '.',
            Strip::Underscore => c == '_',
            Strip::Slash => c == '/',
        }
    }
}

/// `s` without the characters that `k` takes off its front.
pub open spec fn trim_front(s: Seq<char>, k: Strip) -> Seq<char>
    decreases s.len(),
{
    if s.len() > 0 && k.takes(s[0]) {
        trim_front(s.drop_first(), k)
    } else {
        s
    }
}

/// `s` without the characters that `k` takes off its end.
pub open spec fn trim_back(s: Seq<char>, k: Strip) -> Seq<char>
    decreases s.len(),
{
    if s.len() > 0 && k.takes(s.last()) {
        trim_back(s.drop_last(), k)
    } else {
        s
    }
}

/// `s` trimmed at both ends.
pub open spec fn trimmed(s: Seq<char>, k: Strip) -> Seq<char> {
    trim_back(trim_front(s, k), k)
}

pub proof fn lemma_trim_front(s: Seq<char>, k: Strip, i: int)
    requires
        0 <= i <= s.len(),
        forall|j: int| 0 <= j < i ==> k.takes(#[trigger] s[j]),
        i == s.len() || !k.takes(s[i]),
    ensures
        trim_front(s, k) == s.skip(i),
    decreases s.len(),
{
    if i == 0 {
        assert(s.skip(0) =~= s);
    } else {
        assert(k.takes(s[0]));
        lemma_trim_front(s.drop_first(), k, i - 1);
        assert(s.drop_first().skip(i - 1) =~= s.skip(i));
    }
}

pub proof fn lemma_trim_back(s: Seq<char>, k: Strip, i: int)
    requires
        0 <= i <= s.len(),
        forall|j: int| i <= j < s.len() ==> k.takes(#[trigger] s[j]),
        i == 0 || !k.takes(s[i - 1]),
    ensures
        trim_back(s, k) == s.take(i),
    decreases s.len(),
{
    if i == s.len() {
        assert(s.take(i) =~= s);
    } else {
        assert(k.takes(s[s.len() - 1]));
        lemma_trim_back(s.drop_last(), k, i);
        assert(s.drop_last().take(i) =~= s.take(i));
    }
}

/// Neither end of a trimmed text is a character that the trim takes off.
pub proof fn lemma_trimmed_ends(s: Seq<char>, k: Strip)
    ensures
        trimmed(s, k).len() > 0 ==> !k.takes(trimmed(s, k)[0]) && !k.takes(trimmed(s, k).last()),
        trimmed(s, k).len() <= s.len(),
        forall|i: int| 0 <= i < trimmed(s, k).len() ==> s.contains(#[trigger] trimmed(s, k)[i]),
{
    lemma_trim_front_part(s, k);
    lemma_trim_back_part(trim_front(s, k), k);
}

proof fn lemma_trim_front_part(s: Seq<char>, k: Strip)
    ensures
        trim_front(s, k).len() <= s.len(),
        trim_front(s, k).len() > 0 ==> !k.takes(trim_front(s, k)[0]),
        forall|i: int|
            0 <= i < trim_front(s, k).len() ==> s.contains(#[trigger] trim_front(s, k)[i]),
    decreases s.len(),
{
    if s.len() > 0 && k.takes(s[0]) {
        lemma_trim_front_part(s.drop_first(), k);
        assert forall|i: int| 0 <= i < trim_front(s, k).len() implies s.contains(
            #[trigger] trim_front(s, k)[i],
        ) by {
            assert(s.drop_first().contains(trim_front(s.drop_first(), k)[i]));
            let j = choose|j: int|
                0 <= j < s.drop_first().len() && s.drop_first()[j] == trim_front(s, k)[i];
            assert(s[j + 1] == trim_front(s, k)[i]);
        }
    } else {
        assert forall|i: int| 0 <= i < s.len() implies s.contains(#[trigger] s[i]) by {}
    }
}

proof fn lemma_trim_back_part(s: Seq<char>, k: Strip)
    ensures
        trim_back(s, k).is_prefix_of(s),
        trim_back(s, k).len() > 0 ==> !k.takes(trim_back(s, k).last()),
    decreases s.len(),
{
    if s.len() > 0 && k.takes(s.last()) {
        lemma_trim_back_part(s.drop_last(), k);
        assert(trim_back(s, k) =~= s.take(trim_back(s, k).len() as int));
    } else {
        assert(s =~= s.subrange(0, s.len() as int));
    }
}

/// A text with neither end to take off is its own trim.
pub proof fn lemma_trimmed_fixed(s: Seq<char>, k: Strip)
    requires
        s.len() > 0 ==> !k.takes(s[0]) && !k.takes(s.last()),
    ensures
        trimmed(s, k) == s,
{
}

/// `s` trimmed at both ends.
pub fn trim(s: &str, k: Strip) -> (r: String)
    ensures
        r@ == trimmed(s@, k),
{
    let cs = chars_of(s);
    let mut i: usize = 0;
    while i < cs.len() && k.strips(cs[i])
        invariant
            i <= cs.len(),
            cs@ == s@,
            forall|j: int| 0 <= j < i ==> k.takes(#[trigger] s@[j]),
        decreases cs.len() - i,
    {
        i += 1;
    }
    let ghost front = s@.skip(i as int);
    proof {
        lemma_trim_front(s@, k, i as int);
    }
    let mut e: usize = cs.len();
    while e > i && k.strips(cs[e - 1])
        invariant
            i <= e <= cs.len(),
            cs@ == s@,
            front == s@.skip(i as int),
            forall|j: int| e - i <= j < front.len() ==> k.takes(#[trigger] front[j]),
        decreases e,
    {
        e -= 1;
    }
    proof {
        lemma_trim_back(front, k, e - i);
        assert(front.take(e - i) =~= s@.subrange(i as int, e as int));
    }
    s.substring_char(i, e).to_owned()
}

/// `s` trimmed at its end.
pub fn trim_end(s: &str, k: Strip) -> (r: String)
    ensures
        r@ == trim_back(s@, k),
{
    let cs = chars_of(s);
    let mut e: usize = cs.len();
    while e > 0 && k.strips(cs[e - 1])
        invariant
            e <= cs.len(),
            cs@ == s@,
            forall|j: int| e <= j < s@.len() ==> k.takes(#[trigger] s@[j]),
        decreases e,
    {
        e -= 1;
    }
    proof {
        lemma_trim_back(s@, k, e as int);
        assert(s@.take(e as int) =~= s@.subrange(0, e as int));
    }
    s.substring_char(0, e).to_owned()
}

// ── Joining ─────────────────────────────────────────────────────────────────

/// `a` and `b`, one behind the other.
pub fn join2(a: &str, b: &str) -> (r: String)
    ensures
        r@ == a@ + b@,
{
    let mut r: String = a.to_owned();
    r.append(b);
    r
}

/// `a`, `b` and `c`, one behind the other.
pub fn join3(a: &str, b: &str, c: &str) -> (r: String)
    ensures
        r@ == a@ + b@ + c@,
{
    let mut r: String = join2(a, b);
    r.append(c);
    r
}

/// `a` to `d`, one behind the other.
pub fn join4(a: &str, b: &str, c: &str, d: &str) -> (r: String)
    ensures
        r@ == a@ + b@ + c@ + d@,
{
    let mut r: String = join3(a, b, c);
    r.append(d);
    r
}

/// `a` to `e`, one behind the other.
pub fn join5(a: &str, b: &str, c: &str, d: &str, e: &str) -> (r: String)
    ensures
        r@ == a@ + b@ + c@ + d@ + e@,
{
    let mut r: String = join4(a, b, c, d);
    r.append(e);
    r
}

/// A copy of an optional text.
pub fn copied(s: &Option<String>) -> (r: Option<String>)
    ensures
        opt_text(r) == opt_text(*s),
{
    match s {
        Some(t) => Some(t.clone()),
        None => None,
    }
}

/// An optional text's characters.
pub open spec fn opt_text(s: Option<String>) -> Option<Seq<char>> {
    match s {
        Some(t) => Some(t@),
        None => None,
    }
}

// ── Lines ───────────────────────────────────────────────────────────────────

/// The texts of some strings.
pub open spec fn texts(v: Seq<String>) -> Seq<Seq<char>> {
    v.map_values(|s: String| s@)
}

/// The pieces of `s` between its line feeds.
pub open spec fn lines_of(s: Seq<char>) -> Seq<Seq<char>>
    decreases s.len(),
{
    let head = before_first(s, '\n');
    if head.len() < s.len() {
        seq![head] + lines_of(s.skip(head.len() as int + 1))
    } else {
        seq![s]
    }
}

/// The pieces of `s` between its line feeds.
pub fn split_lines(s: &str) -> (r: Vec<String>)
    ensures
        texts(r@) == lines_of(s@),
{
    let cs = chars_of(s);
    let n: usize = cs.len();
    let mut out: Vec<String> = Vec::new();
    let mut start: usize = 0;
    let mut i: usize = 0;
    proof {
        assert(s@.skip(0) =~= s@);
        assert(texts(out@) + lines_of(s@) =~= lines_of(s@));
    }
    while i < n
        invariant
            start <= i <= n,
            n == cs@.len(),
            cs@ == s@,
            forall|j: int| start <= j < i ==> s@[j] != '\n',
            texts(out@) + lines_of(s@.skip(start as int)) == lines_of(s@),
        decreases n - i,
    {
        if cs[i] == '\n' {
            let piece = s.substring_char(start, i).to_owned();
            let ghost rest = s@.skip(start as int);
            let ghost before = out@;
            proof {
                lemma_before_first(rest, '\n', i - start);
                assert(rest.take(i - start) =~= piece@);
                assert(rest.skip(i - start + 1) =~= s@.skip(i + 1));
            }
            out.push(piece);
            start = i + 1;
            proof {
                assert(texts(out@) =~= texts(before).push(piece@));
                assert(texts(out@) + lines_of(s@.skip(start as int)) =~= texts(before) + lines_of(
                    rest,
                ));
            }
        }
        i += 1;
    }
    let piece = s.substring_char(start, n).to_owned();
    let ghost rest = s@.skip(start as int);
    let ghost before = out@;
    proof {
        lemma_before_first(rest, '\n', rest.len() as int);
        assert(rest.take(rest.len() as int) =~= rest);
        assert(piece@ =~= rest);
    }
    out.push(piece);
    proof {
        assert(texts(out@) =~= texts(before).push(piece@));
        assert(texts(out@) =~= texts(before) + lines_of(rest));
    }
    out
}

/// Some texts with a separator between each two.
pub open spec fn joined(parts: Seq<Seq<char>>, sep: Seq<char>) -> Seq<char>
    decreases parts.len(),
{
    if parts.len() == 0 {
        Seq::empty()
    } else if parts.len() == 1 {
        parts[0]
    } else {
        joined(parts.drop_last(), sep) + sep + parts.last()
    }
}

/// Some texts with a separator between each two.
pub fn join_all(parts: &Vec<String>, sep: &str) -> (r: String)
    ensures
        r@ == joined(texts(parts@), sep@),
{
    let mut r: String = String::new();
    let mut i: usize = 0;
    while i < parts.len()
        invariant
            i <= parts@.len(),
            r@ == joined(texts(parts@).take(i as int), sep@),
        decreases parts@.len() - i,
    {
        let ghost done = texts(parts@).take(i as int);
        let ghost next = texts(parts@).take(i + 1);
        proof {
            assert(next.drop_last() =~= done);
            assert(next.last() == parts@[i as int]@);
        }
        if i > 0 {
            r.append(sep);
        }
        r.append(parts[i].as_str());
        proof {
            if i == 0 {
                assert(r@ =~= next[0]);
            }
        }
        i += 1;
    }
    proof {
        assert(texts(parts@).take(i as int) =~= texts(parts@));
    }
    r
}

/// What stands between two texts stands in the three together.
pub proof fn lemma_stands_between(a: Seq<char>, part: Seq<char>, b: Seq<char>)
    ensures
        has_text(a + part + b, part),
{
    let whole = a + part + b;
    let at = a.len() as int;
    assert(whole.subrange(at, at + part.len()) =~= part);
    assert(text_at(whole, part, at));
}

} // verus!
