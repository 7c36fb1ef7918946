//! Character-level text handling shared by the profile format, the colour
//! parser and the report renderers: trimming, splitting, integer parsing and
//! integer formatting, each stated over `Seq<char>`.

use vstd::prelude::*;
use vstd::string::*;

verus! {

/// Unicode `White_Space` code points, the set `char::is_whitespace` and
/// `str::trim` go by.
pub open spec fn is_ws(c: char) -> bool {
    let u = c as u32;
    ||| 0x09 <= u <= 0x0D
    ||| u == 0x20
    ||| u == 0x85
    ||| u == 0xA0
    ||| u == 0x1680
    ||| 0x2000 <= u <= 0x200A
    ||| u == 0x2028
    ||| u == 0x2029
    ||| u == 0x202F
    ||| u == 0x205F
    ||| u == 0x3000
}

pub open spec fn trim_start(s: Seq<char>) -> Seq<char>
    decreases s.len(),
{
    if s.len() > 0 && is_ws(s[0]) {
        trim_start(s.drop_first())
    } else {
        s
    }
}

pub open spec fn trim_end(s: Seq<char>) -> Seq<char>
    decreases s.len(),
{
    if s.len() > 0 && is_ws(s.last()) {
        trim_end(s.drop_last())
    } else {
        s
    }
}

/// `str::trim`: leading and trailing whitespace removed.
pub open spec fn trim(s: Seq<char>) -> Seq<char> {
    trim_end(trim_start(s))
}

/// Index of the first occurrence of `c` in `s`.
pub open spec fn find(s: Seq<char>, c: char) -> Option<int>
    decreases s.len(),
{
    if s.len() == 0 {
        None
    } else if s[0] == c {
        Some(0)
    } else {
        match find(s.drop_first(), c) {
            Some(i) => Some(i + 1),
            None => None,
        }
    }
}

/// `str::split_once(c)`: the text before and after the first `c`.
pub open spec fn split_once(s: Seq<char>, c: char) -> Option<(Seq<char>, Seq<char>)> {
    match find(s, c) {
        Some(i) => Some((s.subrange(0, i), s.subrange(i + 1, s.len() as int))),
        None => None,
    }
}

/// `str::split(c)`: every piece between occurrences of `c` (at least one).
pub open spec fn split(s: Seq<char>, c: char) -> Seq<Seq<char>>
    decreases s.len(),
{
    match find(s, c) {
        Some(i) => {
            if 0 <= i < s.len() {
                seq![s.subrange(0, i)] + split(s.subrange(i + 1, s.len() as int), c)
            } else {
                seq![s]
            }
        },
        None => seq![s],
    }
}

/// A line as `str::lines` yields it: a `\r` right before the `\n` is dropped.
pub open spec fn strip_cr(l: Seq<char>) -> Seq<char> {
    if l.len() > 0 && l.last() == '\r' {
        l.drop_last()
    } else {
        l
    }
}

/// `str::lines`: split at `\n`, with `\r\n` endings stripped; a final line
/// ending does not start another line.
pub open spec fn lines(s: Seq<char>) -> Seq<Seq<char>>
    decreases s.len(),
{
    if s.len() == 0 {
        seq![]
    } else {
        match find(s, '\n') {
            Some(i) => {
                if 0 <= i < s.len() {
                    seq![strip_cr(s.subrange(0, i))] + lines(s.subrange(i + 1, s.len() as int))
                } else {
                    seq![s]
                }
            },
            None => seq![s],
        }
    }
}

/// `str::strip_prefix`.
pub open spec fn strip_prefix(s: Seq<char>, p: Seq<char>) -> Option<Seq<char>> {
    if p.len() <= s.len() && s.subrange(0, p.len() as int) == p {
        Some(s.subrange(p.len() as int, s.len() as int))
    } else {
        None
    }
}

pub open spec fn ascii_lower_char(c: char) -> char {
    if 'A' <= c <= 'Z' {
        ((c as u32) + 32) as char
    } else {
        c
    }
}

pub open spec fn is_ascii(s: Seq<char>) -> bool {
    forall|i: int| 0 <= i < s.len() ==> (s[i] as u32) < 0x80
}

/// `str::eq_ignore_ascii_case`.
pub open spec fn eq_ignore_ascii_case(a: Seq<char>, b: Seq<char>) -> bool {
    &&& a.len() == b.len()
    &&& forall|i: int| 0 <= i < a.len() ==> ascii_lower_char(a[i]) == ascii_lower_char(b[i])
}

/// `char::len_utf8`.
pub open spec fn utf8_width(c: char) -> nat {
    let u = c as u32;
    if u < 0x80 {
        1
    } else if u < 0x800 {
        2
    } else if u < 0x10000 {
        3
    } else {
        4
    }
}

/// Byte length of the UTF-8 encoding (`str::len`).
pub open spec fn utf8_len(s: Seq<char>) -> nat
    decreases s.len(),
{
    if s.len() == 0 {
        0
    } else {
        utf8_width(s[0]) + utf8_len(s.drop_first())
    }
}

/// `str::split_whitespace` from position `i`, with `cur` the word being read.
pub open spec fn split_ws(s: Seq<char>, i: int, cur: Seq<char>) -> Seq<Seq<char>>
    decreases s.len() - i,
{
    if i >= s.len() {
        if cur.len() > 0 {
            seq![cur]
        } else {
            seq![]
        }
    } else if is_ws(s[i]) {
        (if cur.len() > 0 {
            seq![cur]
        } else {
            Seq::<Seq<char>>::empty()
        }) + split_ws(s, i + 1, seq![])
    } else {
        split_ws(s, i + 1, cur.push(s[i]))
    }
}

/// `str::split_whitespace`: the non-empty runs of non-whitespace.
pub open spec fn words(s: Seq<char>) -> Seq<Seq<char>> {
    split_ws(s, 0, seq![])
}

// ---------------------------------------------------------------- numbers

/// Why an integer did not parse (`core::num::IntErrorKind`, unsigned case).
#[derive(Clone, Copy, Debug, PartialEq, Eq, Structural)]
pub enum IntErrorKind {
    Empty,
    InvalidDigit,
    PosOverflow,
}

/// How an integer parse error reads (as `ParseIntError` shows it).
pub open spec fn int_error_text(k: IntErrorKind) -> Seq<char> {
    match k {
        IntErrorKind::Empty => "cannot parse integer from empty string"@,
        IntErrorKind::InvalidDigit => "invalid digit found in string"@,
        IntErrorKind::PosOverflow => "number too large to fit in target type"@,
    }
}

impl IntErrorKind {
    pub fn message(&self) -> (r: String)
        ensures
            r@ == int_error_text(*self),
    {
        match self {
            IntErrorKind::Empty => String::from_str("cannot parse integer from empty string"),
            IntErrorKind::InvalidDigit => String::from_str("invalid digit found in string"),
            IntErrorKind::PosOverflow => String::from_str("number too large to fit in target type"),
        }
    }
}

/// `char::to_digit(radix)`.
pub open spec fn digit_value(c: char, radix: nat) -> Option<nat> {
    let u = c as u32;
    let d: int = if '0' <= c <= '9' {
        u - 48
    } else if 'a' <= c <= 'z' {
        u - 97 + 10
    } else if 'A' <= c <= 'Z' {
        u - 65 + 10
    } else {
        99
    };
    if d < radix {
        Some(d as nat)
    } else {
        None
    }
}

/// Digits read left to right; each digit is checked before the running value
/// is checked against `max`.
pub open spec fn parse_digits(s: Seq<char>, radix: nat, max: nat, acc: nat) -> Result<
    nat,
    IntErrorKind,
>
    decreases s.len(),
{
    if s.len() == 0 {
        Ok(acc)
    } else {
        match digit_value(s[0], radix) {
            None => Err(IntErrorKind::InvalidDigit),
            Some(d) => {
                if acc * radix + d > max {
                    Err(IntErrorKind::PosOverflow)
                } else {
                    parse_digits(s.drop_first(), radix, max, acc * radix + d)
                }
            },
        }
    }
}

/// `<uN>::from_str_radix(s, radix)` for an unsigned type whose largest value is `max`.
pub open spec fn parse_uint(s: Seq<char>, radix: nat, max: nat) -> Result<nat, IntErrorKind> {
    if s.len() == 0 {
        Err(IntErrorKind::Empty)
    } else if s.len() == 1 && (s[0] == '+' || s[0] == '-') {
        Err(IntErrorKind::InvalidDigit)
    } else if s[0] == '+' {
        parse_digits(s.drop_first(), radix, max, 0)
    } else {
        parse_digits(s, radix, max, 0)
    }
}

/// `s.parse::<u8>()`.
pub open spec fn parse_u8(s: Seq<char>) -> Result<u8, IntErrorKind> {
    match parse_uint(s, 10, 255) {
        Ok(n) => Ok(n as u8),
        Err(e) => Err(e),
    }
}

/// `s.parse::<u32>()`.
pub open spec fn parse_u32(s: Seq<char>) -> Result<u32, IntErrorKind> {
    match parse_uint(s, 10, 0xffff_ffff) {
        Ok(n) => Ok(n as u32),
        Err(e) => Err(e),
    }
}

pub open spec fn digit_char(d: nat) -> char {
    ((d + 48) as u32) as char
}

/// Decimal rendering of `n` (`{}` on an unsigned integer).
pub open spec fn dec(n: nat) -> Seq<char>
    decreases n,
{
    if n < 10 {
        seq![digit_char(n)]
    } else {
        dec(n / 10).push(digit_char(n % 10))
    }
}

pub open spec fn hex_digit_upper(d: nat) -> char {
    if d < 10 {
        digit_char(d)
    } else {
        ((d - 10 + 65) as u32) as char
    }
}

pub open spec fn hex_digit_lower(d: nat) -> char {
    if d < 10 {
        digit_char(d)
    } else {
        ((d - 10 + 97) as u32) as char
    }
}

/// `{:02X}` on a byte.
pub open spec fn hex2_upper(b: u8) -> Seq<char> {
    seq![hex_digit_upper(b as nat / 16), hex_digit_upper(b as nat % 16)]
}

/// `{:02x}` on a byte.
pub open spec fn hex2_lower(b: u8) -> Seq<char> {
    seq![hex_digit_lower(b as nat / 16), hex_digit_lower(b as nat % 16)]
}

/// `{}` on a `bool`.
pub open spec fn bool_text(b: bool) -> Seq<char> {
    if b {
        "true"@
    } else {
        "false"@
    }
}

// ---------------------------------------------------------------- exec

/// The characters of `s`.
pub fn chars_of(s: &str) -> (r: Vec<char>)
    ensures
        r@ == s@,
{
    let n = s.unicode_len();
    let mut r: Vec<char> = Vec::new();
    let mut i: usize = 0;
    while i < n
        invariant
            n == s@.len(),
            i <= n,
            r@ == s@.subrange(0, i as int),
        decreases n - i,
    {
        let c = s.get_char(i);
        r.push(c);
        i = i + 1;
        assert(r@ =~= s@.subrange(0, i as int));
    }
    assert(r@ =~= s@);
    r
}

/// Appends one character (`String::push`).
#[verifier::external_body]
fn push_char(s: &mut String, c: char)
    ensures
        final(s)@ == old(s)@.push(c),
{
    s.push(c);
}

/// Appends the characters of `v` to `s`.
pub fn push_chars(s: &mut String, v: &Vec<char>)
    ensures
        final(s)@ == old(s)@ + v@,
{
    let mut i: usize = 0;
    while i < v.len()
        invariant
            i <= v.len(),
            s@ == old(s)@ + v@.subrange(0, i as int),
        decreases v.len() - i,
    {
        push_char(s, v[i]);
        i = i + 1;
        assert(s@ =~= old(s)@ + v@.subrange(0, i as int));
    }
    assert(v@.subrange(0, v.len() as int) =~= v@);
}

/// A `String` holding the characters of `v`.
pub fn string_of(v: &Vec<char>) -> (r: String)
    ensures
        r@ == v@,
{
    let mut s = String::new();
    push_chars(&mut s, v);
    assert(s@ =~= v@);
    s
}

/// `v[a..b]` as a new vector.
pub fn slice_chars(v: &Vec<char>, a: usize, b: usize) -> (r: Vec<char>)
    requires
        a <= b <= v.len(),
    ensures
        r@ == v@.subrange(a as int, b as int),
{
    let mut r: Vec<char> = Vec::new();
    let mut i = a;
    while i < b
        invariant
            a <= i <= b <= v.len(),
            r@ == v@.subrange(a as int, i as int),
        decreases b - i,
    {
        r.push(v[i]);
        i = i + 1;
        assert(r@ =~= v@.subrange(a as int, i as int));
    }
    r
}

pub fn eq_chars(a: &Vec<char>, b: &Vec<char>) -> (r: bool)
    ensures
        r == (a@ == b@),
{
    if a.len() != b.len() {
        return false;
    }
    let mut i: usize = 0;
    while i < a.len()
        invariant
            a.len() == b.len(),
            i <= a.len(),
            forall|j: int| 0 <= j < i ==> a@[j] == b@[j],
        decreases a.len() - i,
    {
        if a[i] != b[i] {
            return false;
        }
        i = i + 1;
    }
    assert(a@ =~= b@);
    true
}

/// Whether the characters of `v` spell `lit`.
pub fn is_text(v: &Vec<char>, lit: &str) -> (r: bool)
    ensures
        r == (v@ == lit@),
{
    let l = chars_of(lit);
    eq_chars(v, &l)
}

pub fn is_ws_char(c: char) -> (r: bool)
    ensures
        r == is_ws(c),
{
    let u = c as u32;
    (0x09 <= u && u <= 0x0D) || u == 0x20 || u == 0x85 || u == 0xA0 || u == 0x1680 || (0x2000
        <= u && u <= 0x200A) || u == 0x2028 || u == 0x2029 || u == 0x202F || u == 0x205F || u
        == 0x3000
}


// ---------------------------------------------------------------- lemmas

pub proof fn lemma_find(s: Seq<char>, c: char)
    ensures
        match find(s, c) {
            Some(i) => 0 <= i < s.len() && s[i] == c && forall|j: int| 0 <= j < i ==> s[j] != c,
            None => forall|j: int| 0 <= j < s.len() ==> s[j] != c,
        },
    decreases s.len(),
{
    if s.len() > 0 && s[0] != c {
        lemma_find(s.drop_first(), c);
        match find(s.drop_first(), c) {
            Some(i) => {
                assert forall|j: int| 0 <= j < i + 1 implies s[j] != c by {
                    if j > 0 {
                        assert(s[j] == s.drop_first()[j - 1]);
                    }
                }
            },
            None => {
                assert forall|j: int| 0 <= j < s.len() implies s[j] != c by {
                    if j > 0 {
                        assert(s[j] == s.drop_first()[j - 1]);
                    }
                }
            },
        }
    }
}

/// `find` is pinned down by the first occurrence.
pub proof fn lemma_find_at(s: Seq<char>, c: char, i: int)
    requires
        0 <= i <= s.len(),
        forall|j: int| 0 <= j < i ==> s[j] != c,
        i < s.len() ==> s[i] == c,
    ensures
        find(s, c) == (if i < s.len() { Some(i) } else { None::<int> }),
{
    lemma_find(s, c);
    match find(s, c) {
        Some(k) => {
            if k < i {
            } else if k > i {
                assert(s[i] != c);
            }
        },
        None => {
            if i < s.len() {
                assert(s[i] != c);
            }
        },
    }
}

proof fn lemma_trim_start_skip(s: Seq<char>, i: int)
    requires
        0 <= i <= s.len(),
        forall|j: int| 0 <= j < i ==> is_ws(s[j]),
    ensures
        trim_start(s) == trim_start(s.subrange(i, s.len() as int)),
    decreases i,
{
    if i == 0 {
        assert(s.subrange(0, s.len() as int) =~= s);
    } else {
        let t = s.drop_first();
        assert forall|j: int| 0 <= j < i - 1 implies is_ws(t[j]) by {
            assert(t[j] == s[j + 1]);
        }
        lemma_trim_start_skip(t, i - 1);
        assert(t.subrange(i - 1, t.len() as int) =~= s.subrange(i, s.len() as int));
    }
}

proof fn lemma_trim_end_skip(s: Seq<char>, b: int)
    requires
        0 <= b <= s.len(),
        forall|j: int| b <= j < s.len() ==> is_ws(s[j]),
    ensures
        trim_end(s) == trim_end(s.subrange(0, b)),
    decreases s.len() - b,
{
    if b == s.len() {
        assert(s.subrange(0, b) =~= s);
    } else {
        let t = s.drop_last();
        assert forall|j: int| b <= j < t.len() implies is_ws(t[j]) by {
            assert(t[j] == s[j]);
        }
        lemma_trim_end_skip(t, b);
        assert(t.subrange(0, b) =~= s.subrange(0, b));
    }
}

// ---------------------------------------------------------------- exec scanning

/// Position of the first `c` at or after `start`.
pub fn find_from(v: &Vec<char>, start: usize, c: char) -> (r: Option<usize>)
    requires
        start <= v.len(),
    ensures
        match find(v@.subrange(start as int, v.len() as int), c) {
            Some(i) => r == Some((start + i) as usize),
            None => r is None,
        },
{
    let ghost s = v@.subrange(start as int, v.len() as int);
    let mut i = start;
    while i < v.len()
        invariant
            start <= i <= v.len(),
            s == v@.subrange(start as int, v.len() as int),
            forall|j: int| 0 <= j < i - start ==> s[j] != c,
        decreases v.len() - i,
    {
        if v[i] == c {
            proof {
                lemma_find_at(s, c, i - start);
            }
            return Some(i);
        }
        i = i + 1;
    }
    proof {
        lemma_find_at(s, c, s.len() as int);
    }
    None
}

/// `str::trim`.
pub fn trim_chars(v: &Vec<char>) -> (r: Vec<char>)
    ensures
        r@ == trim(v@),
{
    let n = v.len();
    let mut a: usize = 0;
    while a < n && is_ws_char(v[a])
        invariant
            n == v.len(),
            a <= n,
            forall|j: int| 0 <= j < a ==> is_ws(v@[j]),
        decreases n - a,
    {
        a = a + 1;
    }
    proof {
        lemma_trim_start_skip(v@, a as int);
    }
    let ghost t = v@.subrange(a as int, n as int);
    assert(trim_start(t) == t);
    let mut b: usize = n;
    while b > a && is_ws_char(v[b - 1])
        invariant
            n == v.len(),
            a <= b <= n,
            t == v@.subrange(a as int, n as int),
            forall|j: int| b - a <= j < t.len() ==> is_ws(t[j]),
        decreases b,
    {
        b = b - 1;
    }
    proof {
        lemma_trim_end_skip(t, b - a);
        assert(t.subrange(0, b - a) =~= v@.subrange(a as int, b as int));
    }
    slice_chars(v, a, b)
}

/// `str::split_once(c)`.
pub fn split_once_chars(v: &Vec<char>, c: char) -> (r: Option<(Vec<char>, Vec<char>)>)
    ensures
        match split_once(v@, c) {
            Some((x, y)) => r matches Some((a, b)) && a@ == x && b@ == y,
            None => r is None,
        },
{
    assert(v@.subrange(0, v.len() as int) =~= v@);
    match find_from(v, 0, c) {
        Some(i) => {
            proof {
                lemma_find(v@, c);
            }
            Some((slice_chars(v, 0, i), slice_chars(v, i + 1, v.len())))
        },
        None => None,
    }
}

/// `str::strip_prefix`.
pub fn strip_prefix_chars(v: &Vec<char>, p: &str) -> (r: Option<Vec<char>>)
    ensures
        match strip_prefix(v@, p@) {
            Some(x) => r matches Some(a) && a@ == x,
            None => r is None,
        },
{
    let pv = chars_of(p);
    if pv.len() > v.len() {
        return None;
    }
    let head = slice_chars(v, 0, pv.len());
    if eq_chars(&head, &pv) {
        Some(slice_chars(v, pv.len(), v.len()))
    } else {
        None
    }
}

/// `str::split(c)`.
pub fn split_chars(v: &Vec<char>, c: char) -> (r: Vec<Vec<char>>)
    ensures
        r.len() == split(v@, c).len(),
        forall|k: int| 0 <= k < r.len() ==> r[k]@ == split(v@, c)[k],
{
    let mut r: Vec<Vec<char>> = Vec::new();
    let mut pos: usize = 0;
    let ghost mut done: Seq<Seq<char>> = seq![];
    assert(v@.subrange(0, v.len() as int) =~= v@);
    assert(done + split(v@, c) =~= split(v@, c));
    loop
        invariant
            pos <= v.len(),
            r.len() == done.len(),
            forall|k: int| 0 <= k < r.len() ==> r[k]@ == done[k],
            split(v@, c) == done + split(v@.subrange(pos as int, v.len() as int), c),
        decreases v.len() - pos,
    {
        let ghost rest = v@.subrange(pos as int, v.len() as int);
        proof {
            lemma_find(rest, c);
        }
        match find_from(v, pos, c) {
            Some(i) => {
                let piece = slice_chars(v, pos, i);
                proof {
                    assert(piece@ =~= rest.subrange(0, i - pos));
                    assert(rest.subrange(i - pos + 1, rest.len() as int) =~= v@.subrange(
                        i + 1,
                        v.len() as int,
                    ));
                    assert(split(rest, c) == seq![piece@] + split(
                        v@.subrange(i + 1, v.len() as int),
                        c,
                    ));
                    assert(done + split(rest, c) =~= done.push(piece@) + split(
                        v@.subrange(i + 1, v.len() as int),
                        c,
                    ));
                    done = done.push(piece@);
                }
                r.push(piece);
                pos = i + 1;
            },
            None => {
                let piece = slice_chars(v, pos, v.len());
                proof {
                    assert(split(rest, c) == seq![rest]);
                    assert(done + split(rest, c) =~= done.push(piece@));
                    done = done.push(piece@);
                }
                r.push(piece);
                return r;
            },
        }
    }
}

/// `str::lines`.
pub fn lines_of(v: &Vec<char>) -> (r: Vec<Vec<char>>)
    ensures
        r.len() == lines(v@).len(),
        forall|k: int| 0 <= k < r.len() ==> r[k]@ == lines(v@)[k],
{
    let mut r: Vec<Vec<char>> = Vec::new();
    let mut pos: usize = 0;
    let ghost mut done: Seq<Seq<char>> = seq![];
    assert(v@.subrange(0, v.len() as int) =~= v@);
    assert(done + lines(v@) =~= lines(v@));
    while pos < v.len()
        invariant
            pos <= v.len(),
            r.len() == done.len(),
            forall|k: int| 0 <= k < r.len() ==> r[k]@ == done[k],
            lines(v@) == done + lines(v@.subrange(pos as int, v.len() as int)),
        decreases v.len() - pos,
    {
        let ghost rest = v@.subrange(pos as int, v.len() as int);
        proof {
            lemma_find(rest, '\n');
        }
        match find_from(v, pos, '\n') {
            Some(i) => {
                let end = if i > pos && v[i - 1] == '\r' {
                    i - 1
                } else {
                    i
                };
                let piece = slice_chars(v, pos, end);
                proof {
                    let l = rest.subrange(0, i - pos);
                    assert(piece@ =~= strip_cr(l));
                    assert(rest.subrange(i - pos + 1, rest.len() as int) =~= v@.subrange(
                        i + 1,
                        v.len() as int,
                    ));
                    assert(done + lines(rest) =~= done.push(piece@) + lines(
                        v@.subrange(i + 1, v.len() as int),
                    ));
                    done = done.push(piece@);
                }
                r.push(piece);
                pos = i + 1;
            },
            None => {
                let piece = slice_chars(v, pos, v.len());
                proof {
                    assert(done + lines(rest) =~= done.push(piece@));
                    done = done.push(piece@);
                    assert(v@.subrange(v.len() as int, v.len() as int) =~= Seq::<char>::empty());
                }
                r.push(piece);
                pos = v.len();
            },
        }
    }
    proof {
        assert(v@.subrange(pos as int, v.len() as int) =~= Seq::<char>::empty());
        assert(done + Seq::<Seq<char>>::empty() =~= done);
    }
    r
}


/// `str::split_whitespace`.
pub fn words_of(v: &Vec<char>) -> (r: Vec<Vec<char>>)
    ensures
        r.len() == words(v@).len(),
        forall|k: int| 0 <= k < r.len() ==> r[k]@ == words(v@)[k],
{
    let mut r: Vec<Vec<char>> = Vec::new();
    let mut cur: Vec<char> = Vec::new();
    let ghost mut done: Seq<Seq<char>> = seq![];
    let mut i: usize = 0;
    while i < v.len()
        invariant
            i <= v.len(),
            r.len() == done.len(),
            forall|k: int| 0 <= k < r.len() ==> r[k]@ == done[k],
            words(v@) == done + split_ws(v@, i as int, cur@),
        decreases v.len() - i,
    {
        if is_ws_char(v[i]) {
            if cur.len() > 0 {
                proof {
                    assert(done + split_ws(v@, i as int, cur@) =~= done.push(cur@) + split_ws(
                        v@,
                        i + 1,
                        seq![],
                    ));
                    done = done.push(cur@);
                }
                r.push(cur);
            } else {
                assert(done + split_ws(v@, i as int, cur@) =~= done + split_ws(
                    v@,
                    i + 1,
                    seq![],
                ));
            }
            cur = Vec::new();
            assert(cur@ =~= Seq::<char>::empty());
        } else {
            let ghost before = cur@;
            cur.push(v[i]);
            assert(cur@ == before.push(v@[i as int]));
        }
        i = i + 1;
    }
    if cur.len() > 0 {
        proof {
            assert(done + split_ws(v@, i as int, cur@) =~= done.push(cur@));
            done = done.push(cur@);
        }
        r.push(cur);
    } else {
        assert(done + split_ws(v@, i as int, cur@) =~= done);
    }
    r
}

// ---------------------------------------------------------------- exec numbers

fn digit_of(c: char, radix: u32) -> (r: Option<u32>)
    requires
        2 <= radix <= 36,
    ensures
        match digit_value(c, radix as nat) {
            Some(d) => r == Some(d as u32),
            None => r is None,
        },
{
    let u = c as u32;
    let d: u32 = if 48 <= u && u <= 57 {
        u - 48
    } else if 97 <= u && u <= 122 {
        u - 97 + 10
    } else if 65 <= u && u <= 90 {
        u - 65 + 10
    } else {
        99
    };
    if d < radix {
        Some(d)
    } else {
        None
    }
}

/// `<uN>::from_str_radix` on the characters of `v`, for a type whose largest
/// value is `max`.
pub fn parse_uint_chars(v: &Vec<char>, radix: u32, max: u32) -> (r: Result<u32, IntErrorKind>)
    requires
        2 <= radix <= 36,
    ensures
        match parse_uint(v@, radix as nat, max as nat) {
            Ok(n) => r == Ok::<u32, IntErrorKind>(n as u32) && n <= max,
            Err(e) => r == Err::<u32, IntErrorKind>(e),
        },
{
    let n = v.len();
    if n == 0 {
        return Err(IntErrorKind::Empty);
    }
    if n == 1 && (v[0] == '+' || v[0] == '-') {
        return Err(IntErrorKind::InvalidDigit);
    }
    let mut i: usize = if v[0] == '+' {
        1
    } else {
        0
    };
    let ghost digits = v@.subrange(i as int, n as int);
    proof {
        if v@[0] == '+' {
            assert(digits =~= v@.drop_first());
        } else {
            assert(digits =~= v@);
        }
    }
    let mut acc: u64 = 0;
    while i < n
        invariant
            n == v.len(),
            i <= n,
            2 <= radix <= 36,
            acc <= max,
            parse_uint(v@, radix as nat, max as nat) == parse_digits(
                v@.subrange(i as int, n as int),
                radix as nat,
                max as nat,
                acc as nat,
            ),
        decreases n - i,
    {
        let ghost rest = v@.subrange(i as int, n as int);
        assert(rest[0] == v@[i as int]);
        assert(rest.drop_first() =~= v@.subrange(i + 1, n as int));
        match digit_of(v[i], radix) {
            None => {
                return Err(IntErrorKind::InvalidDigit);
            },
            Some(d) => {
                assert(acc * (radix as u64) <= 0xffff_ffff * 36) by (nonlinear_arith)
                    requires
                        acc <= 0xffff_ffff,
                        radix <= 36,
                ;
                let next: u64 = acc * (radix as u64) + (d as u64);
                if next > max as u64 {
                    return Err(IntErrorKind::PosOverflow);
                }
                acc = next;
            },
        }
        i = i + 1;
    }
    assert(v@.subrange(n as int, n as int).len() == 0);
    Ok(acc as u32)
}

/// `s.parse::<u8>()`.
pub fn parse_u8_chars(v: &Vec<char>) -> (r: Result<u8, IntErrorKind>)
    ensures
        r == parse_u8(v@),
{
    match parse_uint_chars(v, 10, 255) {
        Ok(n) => Ok(n as u8),
        Err(e) => Err(e),
    }
}

/// `s.parse::<u32>()`.
pub fn parse_u32_chars(v: &Vec<char>) -> (r: Result<u32, IntErrorKind>)
    ensures
        r == parse_u32(v@),
{
    parse_uint_chars(v, 10, 0xffff_ffff)
}

fn digit_char_of(d: u64) -> (c: char)
    requires
        d < 10,
    ensures
        c == digit_char(d as nat),
{
    let b: u8 = (d as u8) + 48;
    let c = b as char;
    assert(c == digit_char(d as nat)) by {
        assert((b as u32) as char == b as char);
    }
    c
}

/// Appends the decimal rendering of `n`.
pub fn push_dec(s: &mut String, n: u64)
    ensures
        final(s)@ == old(s)@ + dec(n as nat),
    decreases n,
{
    if n >= 10 {
        push_dec(s, n / 10);
    }
    push_char(s, digit_char_of(n % 10));
    assert(s@ =~= old(s)@ + dec(n as nat));
}

fn hex_char_of(d: u8, upper: bool) -> (c: char)
    requires
        d < 16,
    ensures
        c == (if upper { hex_digit_upper(d as nat) } else { hex_digit_lower(d as nat) }),
{
    let b: u8 = if d < 10 {
        d + 48
    } else if upper {
        d - 10 + 65
    } else {
        d - 10 + 97
    };
    let c = b as char;
    assert(c == (b as u32) as char);
    c
}

/// Appends `{:02X}` of `b`.
pub fn push_hex2_upper(s: &mut String, b: u8)
    ensures
        final(s)@ == old(s)@ + hex2_upper(b),
{
    push_char(s, hex_char_of(b / 16, true));
    push_char(s, hex_char_of(b % 16, true));
    assert(s@ =~= old(s)@ + hex2_upper(b));
}

/// Appends `{:02x}` of `b`.
pub fn push_hex2_lower(s: &mut String, b: u8)
    ensures
        final(s)@ == old(s)@ + hex2_lower(b),
{
    push_char(s, hex_char_of(b / 16, false));
    push_char(s, hex_char_of(b % 16, false));
    assert(s@ =~= old(s)@ + hex2_lower(b));
}

/// Appends `{}` of `b`.
pub fn push_bool(s: &mut String, b: bool)
    ensures
        final(s)@ == old(s)@ + bool_text(b),
{
    if b {
        s.append("true");
    } else {
        s.append("false");
    }
}

// ---------------------------------------------------------------- case

pub open spec fn ascii_lower(s: Seq<char>) -> Seq<char> {
    Seq::new(s.len(), |i: int| ascii_lower_char(s[i]))
}

/// What `str::to_lowercase` returns for `s` (Unicode lower-case mapping).
pub uninterp spec fn lowercase(s: Seq<char>) -> Seq<char>;

/// Lower-case text: for ASCII text the Unicode mapping is the ASCII one
/// (`A`-`Z` to `a`-`z`, everything else kept); otherwise it is `lowercase`.
pub open spec fn to_lower(s: Seq<char>) -> Seq<char> {
    if is_ascii(s) {
        ascii_lower(s)
    } else {
        lowercase(s)
    }
}

/// Calls `str::to_lowercase`. The result is named `lowercase`, and for ASCII
/// text it is stated: ASCII upper-case letters become lower-case, every
/// other character is kept. Nothing is stated about non-ASCII text.
#[verifier::external_body]
fn str_to_lowercase(s: &str) -> (r: String)
    ensures
        !is_ascii(s@) ==> r@ == lowercase(s@),
        is_ascii(s@) ==> r@ == ascii_lower(s@),
{
    s.to_lowercase()
}

/// The lower-case form of the characters of `v`.
pub fn lowercase_chars(v: &Vec<char>) -> (r: Vec<char>)
    ensures
        r@ == to_lower(v@),
{
    let s = string_of(v);
    let l = str_to_lowercase(s.as_str());
    chars_of(l.as_str())
}

fn ascii_lower_of(c: char) -> (r: char)
    ensures
        r == ascii_lower_char(c),
{
    let u = c as u32;
    if 65 <= u && u <= 90 {
        let b: u8 = (u as u8) + 32;
        assert((b as char) == ((c as u32) + 32) as char) by {
            assert((b as u32) as char == b as char);
        }
        b as char
    } else {
        c
    }
}

/// `str::eq_ignore_ascii_case`.
pub fn eq_ignore_ascii_case_chars(a: &Vec<char>, b: &Vec<char>) -> (r: bool)
    ensures
        r == eq_ignore_ascii_case(a@, b@),
{
    if a.len() != b.len() {
        return false;
    }
    let mut i: usize = 0;
    while i < a.len()
        invariant
            a.len() == b.len(),
            i <= a.len(),
            forall|j: int| 0 <= j < i ==> ascii_lower_char(a@[j]) == ascii_lower_char(b@[j]),
        decreases a.len() - i,
    {
        if ascii_lower_of(a[i]) != ascii_lower_of(b[i]) {
            return false;
        }
        i = i + 1;
    }
    true
}

fn utf8_width_of(c: char) -> (r: usize)
    ensures
        r == utf8_width(c),
{
    let u = c as u32;
    if u < 0x80 {
        1
    } else if u < 0x800 {
        2
    } else if u < 0x10000 {
        3
    } else {
        4
    }
}

proof fn lemma_utf8_len_split(s: Seq<char>, i: int)
    requires
        0 <= i < s.len(),
    ensures
        utf8_len(s.subrange(i, s.len() as int)) == utf8_width(s[i]) + utf8_len(
            s.subrange(i + 1, s.len() as int),
        ),
{
    let t = s.subrange(i, s.len() as int);
    assert(t.drop_first() =~= s.subrange(i + 1, s.len() as int));
}

/// Whether the UTF-8 encoding of `v` is `n` bytes long.
pub fn utf8_len_is(v: &Vec<char>, n: usize) -> (r: bool)
    ensures
        r == (utf8_len(v@) == n),
{
    let mut acc: usize = 0;
    let mut i: usize = 0;
    assert(v@.subrange(0, v.len() as int) =~= v@);
    while i < v.len()
        invariant
            i <= v.len(),
            acc <= n,
            utf8_len(v@) == acc + utf8_len(v@.subrange(i as int, v.len() as int)),
        decreases v.len() - i,
    {
        proof {
            lemma_utf8_len_split(v@, i as int);
        }
        let w = utf8_width_of(v[i]);
        if w > n - acc {
            return false;
        }
        acc = acc + w;
        i = i + 1;
    }
    assert(v@.subrange(i as int, v.len() as int).len() == 0);
    acc == n
}


// ---------------------------------------------------------------- facts

pub proof fn lemma_digit_char(d: nat)
    requires
        d < 10,
    ensures
        digit_char(d) as u32 == d + 48,
        digit_value(digit_char(d), 10) == Some(d),
        digit_value(digit_char(d), 16) == Some(d),
        !is_ws(digit_char(d)),
        digit_char(d) != '+',
        digit_char(d) != '-',
        digit_char(d) != '#',
        digit_char(d) != '=',
        digit_char(d) != '\n',
        digit_char(d) != '\r',
        ascii_lower_char(digit_char(d)) == digit_char(d),
        (digit_char(d) as u32) < 0x80,
{
}

pub open spec fn is_digit(c: char) -> bool {
    48 <= (c as u32) <= 57
}

/// A plain-text character: ASCII, not whitespace, and none of the
/// characters that the profile format or number parsing treats specially.
pub open spec fn plain(c: char) -> bool {
    &&& !is_ws(c)
    &&& c != '='
    &&& c != '#'
    &&& c != '\n'
    &&& c != '\r'
    &&& c != '+'
    &&& c != '-'
    &&& c != ','
    &&& (c as u32) < 0x80
}

pub proof fn lemma_hex_digit_upper(d: nat)
    requires
        d < 16,
    ensures
        digit_value(hex_digit_upper(d), 16) == Some(d),
        plain(hex_digit_upper(d)),
{
    if d < 10 {
        lemma_digit_char(d);
    }
}

pub proof fn lemma_hex_digit_lower(d: nat)
    requires
        d < 16,
    ensures
        digit_value(hex_digit_lower(d), 16) == Some(d),
        plain(hex_digit_lower(d)),
{
    if d < 10 {
        lemma_digit_char(d);
    }
}

pub proof fn lemma_dec(n: nat)
    ensures
        dec(n).len() > 0,
        forall|i: int| 0 <= i < dec(n).len() ==> is_digit(#[trigger] dec(n)[i]) && plain(dec(n)[i]),
    decreases n,
{
    lemma_digit_char(n % 10);
    if n >= 10 {
        lemma_dec(n / 10);
        assert forall|i: int| 0 <= i < dec(n).len() implies is_digit(#[trigger] dec(n)[i]) && plain(
            dec(n)[i],
        ) by {
            if i < dec(n / 10).len() {
                assert(dec(n)[i] == dec(n / 10)[i]);
            }
        }
    }
}

pub proof fn lemma_parse_digits_concat(s: Seq<char>, t: Seq<char>, radix: nat, max: nat, acc: nat)
    requires
        parse_digits(s, radix, max, acc) is Ok,
    ensures
        parse_digits(s + t, radix, max, acc) == parse_digits(
            t,
            radix,
            max,
            parse_digits(s, radix, max, acc)->Ok_0,
        ),
    decreases s.len(),
{
    if s.len() == 0 {
        assert(s + t =~= t);
    } else {
        assert((s + t).drop_first() =~= s.drop_first() + t);
        assert((s + t)[0] == s[0]);
        let d = digit_value(s[0], radix)->0;
        lemma_parse_digits_concat(s.drop_first(), t, radix, max, acc * radix + d);
    }
}

pub proof fn lemma_parse_dec(n: nat, max: nat)
    requires
        n <= max,
    ensures
        parse_digits(dec(n), 10, max, 0) == Ok::<nat, IntErrorKind>(n),
        parse_uint(dec(n), 10, max) == Ok::<nat, IntErrorKind>(n),
    decreases n,
{
    lemma_dec(n);
    lemma_digit_char(n % 10);
    if n < 10 {
        assert(dec(n) == seq![digit_char(n)]);
        assert(dec(n).drop_first() =~= Seq::<char>::empty());
        assert(parse_digits(Seq::<char>::empty(), 10, max, n) == Ok::<nat, IntErrorKind>(n));
    } else {
        lemma_parse_dec(n / 10, max);
        let c = digit_char(n % 10);
        lemma_parse_digits_concat(dec(n / 10), seq![c], 10, max, 0);
        assert(dec(n) == dec(n / 10) + seq![c]);
        assert(seq![c].drop_first() =~= Seq::<char>::empty());
        assert((n / 10) * 10 + n % 10 == n);
        assert(parse_digits(Seq::<char>::empty(), 10, max, n) == Ok::<nat, IntErrorKind>(n));
        assert(parse_digits(seq![c], 10, max, n / 10) == parse_digits(
            Seq::<char>::empty(),
            10,
            max,
            n,
        ));
    }
    assert(dec(n)[0] != '+' && dec(n)[0] != '-');
}

/// The byte `x` as two hex digits reads back as `x` after `acc`.
pub proof fn lemma_parse_hex2(x: u8, max: nat, acc: nat)
    requires
        acc * 256 + 255 <= max,
    ensures
        parse_digits(hex2_upper(x), 16, max, acc) == Ok::<nat, IntErrorKind>(acc * 256 + x as nat),
{
    let hi = x as nat / 16;
    let lo = x as nat % 16;
    lemma_hex_digit_upper(hi);
    lemma_hex_digit_upper(lo);
    let s = hex2_upper(x);
    assert(s.drop_first() =~= seq![hex_digit_upper(lo)]);
    assert(s.drop_first().drop_first() =~= Seq::<char>::empty());
    assert(acc * 16 + hi <= max) by (nonlinear_arith)
        requires
            acc * 256 + 255 <= max,
            hi < 16,
    ;
    assert((acc * 16 + hi) * 16 + lo == acc * 256 + x) by (nonlinear_arith)
        requires
            hi == x as nat / 16,
            lo == x as nat % 16,
    ;
    let v = acc * 256 + x as nat;
    assert(parse_digits(s.drop_first().drop_first(), 16, max, v) == Ok::<nat, IntErrorKind>(v));
    assert(parse_digits(s.drop_first(), 16, max, acc * 16 + hi) == parse_digits(
        s.drop_first().drop_first(),
        16,
        max,
        v,
    ));
}

/// The byte `x` as two lower-case hex digits reads back as `x` after `acc`.
pub proof fn lemma_parse_hex2_lower(x: u8, max: nat, acc: nat)
    requires
        acc * 256 + 255 <= max,
    ensures
        parse_digits(hex2_lower(x), 16, max, acc) == Ok::<nat, IntErrorKind>(acc * 256 + x as nat),
{
    let hi = x as nat / 16;
    let lo = x as nat % 16;
    lemma_hex_digit_lower(hi);
    lemma_hex_digit_lower(lo);
    let s = hex2_lower(x);
    assert(s.drop_first() =~= seq![hex_digit_lower(lo)]);
    assert(s.drop_first().drop_first() =~= Seq::<char>::empty());
    assert(acc * 16 + hi <= max) by (nonlinear_arith)
        requires
            acc * 256 + 255 <= max,
            hi < 16,
    ;
    assert((acc * 16 + hi) * 16 + lo == acc * 256 + x) by (nonlinear_arith)
        requires
            hi == x as nat / 16,
            lo == x as nat % 16,
    ;
    let v = acc * 256 + x as nat;
    assert(parse_digits(s.drop_first().drop_first(), 16, max, v) == Ok::<nat, IntErrorKind>(v));
    assert(parse_digits(s.drop_first(), 16, max, acc * 16 + hi) == parse_digits(
        s.drop_first().drop_first(),
        16,
        max,
        v,
    ));
}

pub proof fn lemma_trim_unchanged(s: Seq<char>)
    requires
        s.len() > 0,
        !is_ws(s[0]),
        !is_ws(s.last()),
    ensures
        trim(s) == s,
{
}

pub proof fn lemma_trim_space_after(s: Seq<char>)
    requires
        s.len() > 0,
        !is_ws(s[0]),
        !is_ws(s.last()),
    ensures
        trim(s + seq![' ']) == s,
{
    let t = s + seq![' '];
    assert(t[0] == s[0]);
    assert(t.drop_last() =~= s);
    assert(is_ws(' '));
    assert(trim_start(t) == t);
    assert(trim_end(s) == s);
    assert(trim_end(t) == trim_end(t.drop_last()));
}

pub proof fn lemma_trim_space_before(s: Seq<char>)
    requires
        s.len() > 0,
        !is_ws(s[0]),
        !is_ws(s.last()),
    ensures
        trim(seq![' '] + s) == s,
{
    let t = seq![' '] + s;
    assert(t.drop_first() =~= s);
    assert(is_ws(' '));
    assert(trim_start(s) == s);
    assert(trim_start(t) == trim_start(t.drop_first()));
    assert(trim_end(s) == s);
}

/// A `key = value` line splits at the `=` after the key.
pub proof fn lemma_split_kv(key: Seq<char>, v: Seq<char>)
    requires
        forall|i: int| 0 <= i < key.len() ==> key[i] != '=',
    ensures
        split_once(key + seq![' ', '=', ' '] + v, '=') == Some(
            (key + seq![' '], seq![' '] + v),
        ),
{
    let l = key + seq![' ', '=', ' '] + v;
    let i: int = key.len() as int + 1;
    assert forall|j: int| 0 <= j < i implies l[j] != '=' by {
        if j < key.len() {
            assert(l[j] == key[j]);
        }
    }
    assert(l[i] == '=');
    lemma_find_at(l, '=', i);
    assert(l.subrange(0, i) =~= key + seq![' ']);
    assert(l.subrange(i + 1, l.len() as int) =~= seq![' '] + v);
}

} // verus!
