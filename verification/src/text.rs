//! Character-level helpers on strings: building strings, trimming,
//! decimal rendering and the integer grammar that `str::parse` accepts.

use vstd::prelude::*;

verus! {

/// The characters that `char::is_whitespace` accepts (Unicode `White_Space`).
pub open spec fn is_whitespace(c: char) -> bool {
    let u = c as u32;
    ||| 0x09 <= u <= 0x0D
    ||| u == 0x20
    ||| u == 0x85
    ||| u == 0xA0
    ||| u == 0x1680
    ||| 0x2000 <= u <= 0x200A
    ||| u == 0x2028
    ||| u == 0x2029
    ||| u == 0x202F
    ||| u == 0x205F
    ||| u == 0x3000
}

pub fn char_is_whitespace(c: char) -> (b: bool)
    ensures
        b == is_whitespace(c),
{
    let u = c as u32;
    (0x09 <= u && u <= 0x0D) || u == 0x20 || u == 0x85 || u == 0xA0 || u == 0x1680 || (0x2000
        <= u && u <= 0x200A) || u == 0x2028 || u == 0x2029 || u == 0x202F || u == 0x205F || u
        == 0x3000
}

/// `s` with its leading whitespace removed.
pub open spec fn trim_start(s: Seq<char>) -> Seq<char>
    decreases s.len(),
{
    if s.len() > 0 && is_whitespace(s[0]) {
        trim_start(s.drop_first())
    } else {
        s
    }
}

/// `s` with its trailing whitespace removed.
pub open spec fn trim_end(s: Seq<char>) -> Seq<char>
    decreases s.len(),
{
    if s.len() > 0 && is_whitespace(s.last()) {
        trim_end(s.drop_last())
    } else {
        s
    }
}

/// What `str::trim` leaves of `s`.
pub open spec fn trim(s: Seq<char>) -> Seq<char> {
    trim_end(trim_start(s))
}

/// `String::push`.
#[verifier::external_body]
pub(crate) fn push_char(s: &mut String, c: char)
    ensures
        final(s)@ == old(s)@.push(c),
{
    s.push(c);
}

/// The characters of `s`, in order.
pub fn chars_of(s: &str) -> (v: Vec<char>)
    ensures
        v@ == s@,
{
    let mut v: Vec<char> = Vec::new();
    for c in it: s.chars()
        invariant
            it.seq() == s@,
            v@ == it.seq().take(it.index() as int),
    {
        v.push(c);
        assert(it.seq().take(it.index() + 1) =~= it.seq().take(it.index() as int).push(c));
    }
    assert(v@ =~= s@);
    v
}

/// The characters `v[from..to]` as a `String`.
pub fn string_from_range(v: &Vec<char>, from: usize, to: usize) -> (s: String)
    requires
        from <= to <= v.len(),
    ensures
        s@ == v@.subrange(from as int, to as int),
{
    let mut s = String::new();
    let mut i = from;
    while i < to
        invariant
            from <= i <= to <= v.len(),
            s@ == v@.subrange(from as int, i as int),
        decreases to - i,
    {
        push_char(&mut s, v[i]);
        assert(v@.subrange(from as int, i + 1) =~= v@.subrange(from as int, i as int).push(v@[i as int]));
        i = i + 1;
    }
    s
}

/// A fresh `String` with the characters of `s`.
pub fn owned(s: &str) -> (r: String)
    ensures
        r@ == s@,
{
    let v = chars_of(s);
    string_from_range(&v, 0, v.len())
}

/// Appends the characters of `t` to `s`.
pub fn push_str(s: &mut String, t: &str)
    ensures
        final(s)@ == old(s)@ + t@,
{
    let v = chars_of(t);
    let mut i: usize = 0;
    while i < v.len()
        invariant
            0 <= i <= v.len(),
            v@ == t@,
            s@ == old(s)@ + t@.take(i as int),
        decreases v.len() - i,
    {
        push_char(s, v[i]);
        assert(t@.take(i + 1) =~= t@.take(i as int).push(v@[i as int]));
        i = i + 1;
    }
    assert(t@.take(i as int) =~= t@);
}

proof fn lemma_trim_start_skip(s: Seq<char>, i: int)
    requires
        0 <= i <= s.len(),
        forall|k: int| 0 <= k < i ==> is_whitespace(#[trigger] s[k]),
    ensures
        trim_start(s) == trim_start(s.subrange(i, s.len() as int)),
    decreases i,
{
    if i > 0 {
        assert(s.drop_first().subrange(i - 1, s.drop_first().len() as int) =~= s.subrange(
            i,
            s.len() as int,
        ));
        assert forall|k: int| 0 <= k < i - 1 implies is_whitespace(#[trigger] s.drop_first()[k]) by {
            assert(s.drop_first()[k] == s[k + 1]);
        }
        lemma_trim_start_skip(s.drop_first(), i - 1);
    } else {
        assert(s.subrange(0, s.len() as int) =~= s);
    }
}

proof fn lemma_trim_end_skip(s: Seq<char>, j: int)
    requires
        0 <= j <= s.len(),
        forall|k: int| j <= k < s.len() ==> is_whitespace(#[trigger] s[k]),
    ensures
        trim_end(s) == trim_end(s.subrange(0, j)),
    decreases s.len() - j,
{
    if j < s.len() {
        assert(s.drop_last().subrange(0, j) =~= s.subrange(0, j));
        assert forall|k: int| j <= k < s.drop_last().len() implies is_whitespace(
            #[trigger] s.drop_last()[k],
        ) by {
            assert(s.drop_last()[k] == s[k]);
        }
        lemma_trim_end_skip(s.drop_last(), j);
    } else {
        assert(s.subrange(0, j) =~= s);
    }
}

/// The bounds `(start, end)` of `trim(v)` inside `v`.
pub fn trim_bounds(v: &Vec<char>) -> (r: (usize, usize))
    ensures
        r.0 <= r.1 <= v.len(),
        v@.subrange(r.0 as int, r.1 as int) == trim(v@),
{
    let n = v.len();
    let mut i: usize = 0;
    while i < n && char_is_whitespace(v[i])
        invariant
            0 <= i <= n == v.len(),
            forall|k: int| 0 <= k < i ==> is_whitespace(#[trigger] v@[k]),
        decreases n - i,
    {
        i = i + 1;
    }
    proof {
        lemma_trim_start_skip(v@, i as int);
    }
    let ghost rest = v@.subrange(i as int, n as int);
    assert(trim_start(rest) == rest);
    let mut j: usize = n;
    while j > i && char_is_whitespace(v[j - 1])
        invariant
            i <= j <= n == v.len(),
            rest == v@.subrange(i as int, n as int),
            forall|k: int| j - i <= k < rest.len() ==> is_whitespace(#[trigger] rest[k]),
        decreases j,
    {
        assert(rest[j - 1 - i] == v@[j - 1]);
        j = j - 1;
    }
    proof {
        lemma_trim_end_skip(rest, (j - i) as int);
        assert(rest.subrange(0, (j - i) as int) =~= v@.subrange(i as int, j as int));
    }
    (i, j)
}

// ---------------------------------------------------------------------------
// Decimal rendering
/// The ASCII digit for `d < 10`.
pub open spec fn digit_char(d: nat) -> char {
    if d == 0 {
        '0'
    } else if d == 1 {
        '1'
    } else if d == 2 {
        '2'
    } else if d == 3 {
        '3'
    } else if d == 4 {
        '4'
    } else if d == 5 {
        '5'
    } else if d == 6 {
        '6'
    } else if d == 7 {
        '7'
    } else if d == 8 {
        '8'
    } else {
        '9'
    }
}

/// The value of an ASCII decimal digit.
pub open spec fn digit_value(c: char) -> Option<nat> {
    if c == '0' {
        Some(0)
    } else if c == '1' {
        Some(1)
    } else if c == '2' {
        Some(2)
    } else if c == '3' {
        Some(3)
    } else if c == '4' {
        Some(4)
    } else if c == '5' {
        Some(5)
    } else if c == '6' {
        Some(6)
    } else if c == '7' {
        Some(7)
    } else if c == '8' {
        Some(8)
    } else if c == '9' {
        Some(9)
    } else {
        None
    }
}

/// The decimal digits of `n`, as `{}` formats an unsigned integer.
pub open spec fn decimal(n: nat) -> Seq<char>
    decreases n,
{
    if n < 10 {
        seq![digit_char(n)]
    } else {
        decimal(n / 10).push(digit_char(n % 10))
    }
}

/// How `{}` formats an integer: a minus sign before the digits of a negative value.
pub open spec fn signed_decimal(i: int) -> Seq<char> {
    if i < 0 {
        seq!['-'] + decimal((-i) as nat)
    } else {
        decimal(i as nat)
    }
}

pub fn digit_to_char(d: u64) -> (c: char)
    requires
        d < 10,
    ensures
        c == digit_char(d as nat),
{
    if d == 0 {
        '0'
    } else if d == 1 {
        '1'
    } else if d == 2 {
        '2'
    } else if d == 3 {
        '3'
    } else if d == 4 {
        '4'
    } else if d == 5 {
        '5'
    } else if d == 6 {
        '6'
    } else if d == 7 {
        '7'
    } else if d == 8 {
        '8'
    } else {
        '9'
    }
}

pub fn char_to_digit(c: char) -> (d: Option<u8>)
    ensures
        d matches Some(x) ==> digit_value(c) == Some(x as nat),
        d is None ==> digit_value(c) is None,
{
    if c == '0' {
        Some(0)
    } else if c == '1' {
        Some(1)
    } else if c == '2' {
        Some(2)
    } else if c == '3' {
        Some(3)
    } else if c == '4' {
        Some(4)
    } else if c == '5' {
        Some(5)
    } else if c == '6' {
        Some(6)
    } else if c == '7' {
        Some(7)
    } else if c == '8' {
        Some(8)
    } else if c == '9' {
        Some(9)
    } else {
        None
    }
}

/// Appends the decimal digits of `n` to `out`.
pub fn push_decimal(out: &mut String, n: u64)
    ensures
        final(out)@ == old(out)@ + decimal(n as nat),
    decreases n,
{
    if n >= 10 {
        push_decimal(out, n / 10);
    }
    push_char(out, digit_to_char(n % 10));
    proof {
        if n < 10 {
            assert(decimal(n as nat) =~= seq![digit_char(n as nat)]);
        }
    }
}

/// Appends `i` formatted as `{}` formats an `i64`.
pub fn push_signed_decimal(out: &mut String, i: i64)
    ensures
        final(out)@ == old(out)@ + signed_decimal(i as int),
{
    if i < 0 {
        push_char(out, '-');
        let m: u64 = (-(i as i128)) as u64;
        push_decimal(out, m);
        assert(final(out)@ =~= old(out)@ + (seq!['-'] + decimal((-i) as nat)));
    } else {
        push_decimal(out, i as u64);
    }
}

// ---------------------------------------------------------------------------
// The integer grammar of `str::parse` for the primitive integer types
/// Why `str::parse` refused a string (the kinds of `std::num::ParseIntError`).
#[derive(Clone, Copy, Debug, PartialEq, Eq, Structural)]
pub enum IntErrorKind {
    Empty,
    InvalidDigit,
    PosOverflow,
    NegOverflow,
}

impl IntErrorKind {
    /// The text that `ParseIntError` displays for this kind.
    pub fn message(&self) -> (s: String)
        ensures
            s@ == int_error_message(*self),
    {
        match self {
            IntErrorKind::Empty => owned("cannot parse integer from empty string"),
            IntErrorKind::InvalidDigit => owned("invalid digit found in string"),
            IntErrorKind::PosOverflow => owned("number too large to fit in target type"),
            IntErrorKind::NegOverflow => owned("number too small to fit in target type"),
        }
    }
}

pub open spec fn int_error_message(k: IntErrorKind) -> Seq<char> {
    match k {
        IntErrorKind::Empty => "cannot parse integer from empty string"@,
        IntErrorKind::InvalidDigit => "invalid digit found in string"@,
        IntErrorKind::PosOverflow => "number too large to fit in target type"@,
        IntErrorKind::NegOverflow => "number too small to fit in target type"@,
    }
}

/// Reads the digits left to right as `str::parse` does: the first character
/// that is no digit, or the first step that leaves `lo..=hi`, ends it.
pub open spec fn scan_digits(digits: Seq<char>, acc: int, negative: bool, lo: int, hi: int) -> Result<
    int,
    IntErrorKind,
>
    decreases digits.len(),
{
    if digits.len() == 0 {
        Ok(acc)
    } else {
        match digit_value(digits[0]) {
            None => Err(IntErrorKind::InvalidDigit),
            Some(d) => {
                let next = if negative {
                    acc * 10 - d
                } else {
                    acc * 10 + d
                };
                if next > hi {
                    Err(IntErrorKind::PosOverflow)
                } else if next < lo {
                    Err(IntErrorKind::NegOverflow)
                } else {
                    scan_digits(digits.drop_first(), next, negative, lo, hi)
                }
            },
        }
    }
}

/// What `str::parse` gives for an integer type with range `lo..=hi`
/// (`signed` where the type accepts a leading `-`).
pub open spec fn parse_int(s: Seq<char>, lo: int, hi: int, signed: bool) -> Result<int, IntErrorKind> {
    if s.len() == 0 {
        Err(IntErrorKind::Empty)
    } else if s.len() == 1 && (s[0] == '+' || s[0] == '-') {
        Err(IntErrorKind::InvalidDigit)
    } else if s[0] == '+' {
        scan_digits(s.drop_first(), 0, false, lo, hi)
    } else if s[0] == '-' && signed {
        scan_digits(s.drop_first(), 0, true, lo, hi)
    } else {
        scan_digits(s, 0, false, lo, hi)
    }
}

proof fn lemma_scan_in_range(digits: Seq<char>, acc: int, negative: bool, lo: int, hi: int)
    requires
        lo <= acc <= hi,
    ensures
        scan_digits(digits, acc, negative, lo, hi) matches Ok(v) ==> lo <= v <= hi,
    decreases digits.len(),
{
    if digits.len() > 0 {
        if let Some(d) = digit_value(digits[0]) {
            let next = if negative {
                acc * 10 - d
            } else {
                acc * 10 + d
            };
            if lo <= next <= hi {
                lemma_scan_in_range(digits.drop_first(), next, negative, lo, hi);
            }
        }
    }
}

/// Scans `v[from..]` as `scan_digits` does, within `lo..=hi` (a subrange of `i64`).
fn scan_digit_chars(v: &Vec<char>, from: usize, negative: bool, lo: i64, hi: i64) -> (r: Result<
    i64,
    IntErrorKind,
>)
    requires
        from <= v.len(),
        lo <= 0 <= hi,
    ensures
        r matches Ok(x) ==> scan_digits(v@.subrange(from as int, v.len() as int), 0, negative, lo as int, hi as int) == Ok::<int, IntErrorKind>(x as int),
        r matches Err(e) ==> scan_digits(v@.subrange(from as int, v.len() as int), 0, negative, lo as int, hi as int) == Err::<int, IntErrorKind>(e),
{
    let mut acc: i64 = 0;
    let mut i = from;
    let ghost whole = v@.subrange(from as int, v.len() as int);
    while i < v.len()
        invariant
            from <= i <= v.len(),
            lo <= acc <= hi,
            lo <= 0 <= hi,
            whole == v@.subrange(from as int, v.len() as int),
            scan_digits(whole, 0, negative, lo as int, hi as int) == scan_digits(
                v@.subrange(i as int, v.len() as int),
                acc as int,
                negative,
                lo as int,
                hi as int,
            ),
        decreases v.len() - i,
    {
        let ghost rest = v@.subrange(i as int, v.len() as int);
        assert(rest[0] == v@[i as int]);
        assert(rest.drop_first() =~= v@.subrange(i + 1, v.len() as int));
        match char_to_digit(v[i]) {
            None => {
                return Err(IntErrorKind::InvalidDigit);
            },
            Some(d) => {
                let wide: i128 = if negative {
                    (acc as i128) * 10 - (d as i128)
                } else {
                    (acc as i128) * 10 + (d as i128)
                };
                if wide > hi as i128 {
                    return Err(IntErrorKind::PosOverflow);
                } else if wide < lo as i128 {
                    return Err(IntErrorKind::NegOverflow);
                }
                acc = wide as i64;
            },
        }
        i = i + 1;
    }
    assert(v@.subrange(i as int, v.len() as int).len() == 0);
    Ok(acc)
}

/// `s.parse::<T>()` for an integer type `T` whose range is `lo..=hi`.
fn parse_int_chars(s: &str, lo: i64, hi: i64, signed: bool) -> (r: Result<i64, IntErrorKind>)
    requires
        lo <= 0 <= hi,
    ensures
        r matches Ok(x) ==> parse_int(s@, lo as int, hi as int, signed) == Ok::<int, IntErrorKind>(x as int),
        r matches Err(e) ==> parse_int(s@, lo as int, hi as int, signed) == Err::<int, IntErrorKind>(e),
{
    let v = chars_of(s);
    if v.len() == 0 {
        return Err(IntErrorKind::Empty);
    }
    if v.len() == 1 && (v[0] == '+' || v[0] == '-') {
        return Err(IntErrorKind::InvalidDigit);
    }
    if v[0] == '+' {
        assert(v@.subrange(1, v.len() as int) =~= s@.drop_first());
        scan_digit_chars(&v, 1, false, lo, hi)
    } else if v[0] == '-' && signed {
        assert(v@.subrange(1, v.len() as int) =~= s@.drop_first());
        scan_digit_chars(&v, 1, true, lo, hi)
    } else {
        assert(v@.subrange(0, v.len() as int) =~= s@);
        scan_digit_chars(&v, 0, false, lo, hi)
    }
}

/// `s.parse::<i64>()`.
pub fn parse_i64(s: &str) -> (r: Result<i64, IntErrorKind>)
    ensures
        r matches Ok(x) ==> parse_int(s@, i64::MIN as int, i64::MAX as int, true) == Ok::<int, IntErrorKind>(x as int),
        r matches Err(e) ==> parse_int(s@, i64::MIN as int, i64::MAX as int, true) == Err::<int, IntErrorKind>(e),
{
    parse_int_chars(s, i64::MIN, i64::MAX, true)
}

/// `s.parse::<u8>()`.
pub fn parse_u8(s: &str) -> (r: Result<u8, IntErrorKind>)
    ensures
        r matches Ok(x) ==> parse_int(s@, 0, u8::MAX as int, false) == Ok::<int, IntErrorKind>(x as int),
        r matches Err(e) ==> parse_int(s@, 0, u8::MAX as int, false) == Err::<int, IntErrorKind>(e),
{
    let r = parse_int_chars(s, 0, 255, false);
    match r {
        Ok(x) => {
            proof {
                let ghost v = s@;
                if v.len() > 0 && !(v.len() == 1 && (v[0] == '+' || v[0] == '-')) {
                    if v[0] == '+' {
                        lemma_scan_in_range(v.drop_first(), 0, false, 0, 255);
                    } else {
                        lemma_scan_in_range(v, 0, false, 0, 255);
                    }
                }
            }
            Ok(x as u8)
        },
        Err(e) => Err(e),
    }
}

/// `s.parse::<u32>()`.
pub fn parse_u32(s: &str) -> (r: Result<u32, IntErrorKind>)
    ensures
        r matches Ok(x) ==> parse_int(s@, 0, u32::MAX as int, false) == Ok::<int, IntErrorKind>(x as int),
        r matches Err(e) ==> parse_int(s@, 0, u32::MAX as int, false) == Err::<int, IntErrorKind>(e),
{
    let r = parse_int_chars(s, 0, 0xFFFF_FFFF, false);
    match r {
        Ok(x) => {
            proof {
                let ghost v = s@;
                if v.len() > 0 && !(v.len() == 1 && (v[0] == '+' || v[0] == '-')) {
                    if v[0] == '+' {
                        lemma_scan_in_range(v.drop_first(), 0, false, 0, 0xFFFF_FFFF);
                    } else {
                        lemma_scan_in_range(v, 0, false, 0, 0xFFFF_FFFF);
                    }
                }
            }
            Ok(x as u32)
        },
        Err(e) => Err(e),
    }
}

} // verus!

verus! {

// ---------------------------------------------------------------------------
// Splitting
/// The pieces `str::split(c)` yields: the text between occurrences of `c`.
pub open spec fn split_pieces(s: Seq<char>, c: char) -> Seq<Seq<char>>
    decreases s.len(),
{
    if s.len() == 0 {
        seq![Seq::<char>::empty()]
    } else {
        let p = split_pieces(s.drop_last(), c);
        if s.last() == c {
            p.push(Seq::empty())
        } else {
            p.update(p.len() - 1, p.last().push(s.last()))
        }
    }
}

/// The pieces `str::split_terminator(c)` yields: those of `split`, without
/// a last piece that is empty.
pub open spec fn terminated_pieces(s: Seq<char>, c: char) -> Seq<Seq<char>> {
    let p = split_pieces(s, c);
    if p.last().len() == 0 {
        p.drop_last()
    } else {
        p
    }
}

pub proof fn lemma_split_nonempty(s: Seq<char>, c: char)
    ensures
        split_pieces(s, c).len() >= 1,
    decreases s.len(),
{
    if s.len() > 0 {
        lemma_split_nonempty(s.drop_last(), c);
    }
}

/// `s.split(c)`, the pieces copied out.
pub fn split_on(s: &str, c: char) -> (r: Vec<String>)
    ensures
        crate::strset::views(r@) == split_pieces(s@, c),
{
    let v = chars_of(s);
    let mut done: Vec<String> = Vec::new();
    let mut cur = String::new();
    let mut i: usize = 0;
    assert(v@.take(0) =~= Seq::<char>::empty());
    while i < v.len()
        invariant
            0 <= i <= v.len(),
            v@ == s@,
            crate::strset::views(done@).push(cur@) == split_pieces(v@.take(i as int), c),
        decreases v.len() - i,
    {
        proof {
            lemma_split_nonempty(v@.take(i as int), c);
            assert(v@.take(i + 1).drop_last() =~= v@.take(i as int));
            assert(v@.take(i + 1).last() == v@[i as int]);
        }
        let ghost before = crate::strset::views(done@);
        if v[i] == c {
            let piece = cur;
            done.push(piece);
            cur = String::new();
            assert(crate::strset::views(done@) =~= before.push(piece@));
            assert(crate::strset::views(done@).push(cur@) =~= before.push(piece@).push(Seq::empty()));
        } else {
            push_char(&mut cur, v[i]);
            assert(crate::strset::views(done@).push(cur@) =~= before.push(old_cur_view(cur@)).update(before.len() as int, cur@));
        }
        i = i + 1;
    }
    assert(v@.take(i as int) =~= s@);
    done.push(cur);
    done
}

spec fn old_cur_view(s: Seq<char>) -> Seq<char> {
    s.drop_last()
}

/// The words `str::split_whitespace` yields: the maximal runs of non-whitespace characters.
pub open spec fn words(s: Seq<char>) -> Seq<Seq<char>>
    decreases s.len(),
{
    if s.len() == 0 {
        Seq::empty()
    } else {
        let w = words(s.drop_last());
        if is_whitespace(s.last()) {
            w
        } else if s.len() >= 2 && !is_whitespace(s.drop_last().last()) {
            w.update(w.len() - 1, w.last().push(s.last()))
        } else {
            w.push(seq![s.last()])
        }
    }
}

pub proof fn lemma_words_nonempty(s: Seq<char>)
    requires
        s.len() > 0,
        !is_whitespace(s.last()),
    ensures
        words(s).len() >= 1,
    decreases s.len(),
{
    if s.len() >= 2 && !is_whitespace(s.drop_last().last()) {
        lemma_words_nonempty(s.drop_last());
    }
}

/// `s.split_whitespace()`, the words copied out.
pub fn split_whitespace(s: &str) -> (r: Vec<String>)
    ensures
        crate::strset::views(r@) == words(s@),
{
    let v = chars_of(s);
    let mut done: Vec<String> = Vec::new();
    let mut cur = String::new();
    let mut in_word = false;
    let mut i: usize = 0;
    assert(v@.take(0) =~= Seq::<char>::empty());
    while i < v.len()
        invariant
            0 <= i <= v.len(),
            v@ == s@,
            in_word <==> (i > 0 && !is_whitespace(v@[i - 1])),
            in_word ==> cur@.len() > 0,
            !in_word ==> cur@.len() == 0,
            !in_word ==> crate::strset::views(done@) == words(v@.take(i as int)),
            in_word ==> crate::strset::views(done@).push(cur@) == words(v@.take(i as int)),
        decreases v.len() - i,
    {
        proof {
            assert(v@.take(i + 1).drop_last() =~= v@.take(i as int));
            assert(v@.take(i + 1).last() == v@[i as int]);
            if i > 0 {
                assert(v@.take(i + 1).drop_last().last() == v@[i - 1]);
            }
        }
        let ghost before = crate::strset::views(done@);
        if char_is_whitespace(v[i]) {
            if in_word {
                let w = cur;
                done.push(w);
                cur = String::new();
                assert(crate::strset::views(done@) =~= before.push(w@));
            }
            in_word = false;
        } else {
            let ghost old_cur = cur@;
            push_char(&mut cur, v[i]);
            if in_word {
                assert(crate::strset::views(done@).push(cur@) =~= before.push(old_cur).update(before.len() as int, cur@));
            } else {
                assert(cur@ =~= seq![v@[i as int]]);
                assert(crate::strset::views(done@).push(cur@) =~= before.push(seq![v@[i as int]]));
            }
            in_word = true;
        }
        i = i + 1;
    }
    assert(v@.take(i as int) =~= s@);
    if in_word {
        let ghost before = crate::strset::views(done@);
        let w = cur;
        done.push(w);
        assert(crate::strset::views(done@) =~= before.push(w@));
    }
    done
}

/// `s` without the characters `,` and `.`.
pub open spec fn drop_separators(s: Seq<char>) -> Seq<char>
    decreases s.len(),
{
    if s.len() == 0 {
        s
    } else if s.last() == ',' || s.last() == '.' {
        drop_separators(s.drop_last())
    } else {
        drop_separators(s.drop_last()).push(s.last())
    }
}

/// `s.replace(&[',', '.'][..], "")`.
pub fn remove_separators(s: &str) -> (r: String)
    ensures
        r@ == drop_separators(s@),
{
    let v = chars_of(s);
    let mut r = String::new();
    let mut i: usize = 0;
    assert(v@.take(0) =~= Seq::<char>::empty());
    while i < v.len()
        invariant
            0 <= i <= v.len(),
            v@ == s@,
            r@ == drop_separators(v@.take(i as int)),
        decreases v.len() - i,
    {
        assert(v@.take(i + 1).drop_last() =~= v@.take(i as int));
        assert(v@.take(i + 1).last() == v@[i as int]);
        if !(v[i] == ',' || v[i] == '.') {
            push_char(&mut r, v[i]);
        }
        i = i + 1;
    }
    assert(v@.take(i as int) =~= s@);
    r
}

/// `s.trim()` as a fresh string.
pub fn trimmed(s: &str) -> (r: String)
    ensures
        r@ == trim(s@),
{
    let v = chars_of(s);
    let (a, b) = trim_bounds(&v);
    string_from_range(&v, a, b)
}

/// Whether `s` holds `t` at index `i`.
pub open spec fn occurs_at(s: Seq<char>, t: Seq<char>, i: int) -> bool {
    0 <= i && i + t.len() <= s.len() && s.subrange(i, i + t.len()) == t
}

/// Whether `t` is a prefix of `s` (`str::starts_with`).
pub open spec fn starts_with(s: Seq<char>, t: Seq<char>) -> bool {
    occurs_at(s, t, 0)
}

fn occurs_at_exec(s: &Vec<char>, t: &Vec<char>, i: usize) -> (b: bool)
    ensures
        b == occurs_at(s@, t@, i as int),
{
    if i > s.len() || t.len() > s.len() - i {
        return false;
    }
    let mut k: usize = 0;
    while k < t.len()
        invariant
            0 <= k <= t.len(),
            i + t.len() <= s.len(),
            forall|j: int| 0 <= j < k ==> s@[i + j] == t@[j],
        decreases t.len() - k,
    {
        if s[i + k] != t[k] {
            assert(s@.subrange(i as int, i + t.len())[k as int] != t@[k as int]);
            return false;
        }
        k = k + 1;
    }
    assert(s@.subrange(i as int, i + t.len()) =~= t@);
    true
}

pub fn starts_with_str(s: &str, t: &str) -> (b: bool)
    ensures
        b == starts_with(s@, t@),
{
    let sv = chars_of(s);
    let tv = chars_of(t);
    occurs_at_exec(&sv, &tv, 0)
}

/// The first index at which `t` occurs in `s` at or after `from`.
#[verifier::opaque]
pub open spec fn first_occurrence(s: Seq<char>, t: Seq<char>, from: int) -> Option<int> {
    if exists|i: int| from <= i && #[trigger] occurs_at(s, t, i) {
        Some(choose|i: int| from <= i && #[trigger] occurs_at(s, t, i) && forall|j: int| from <= j < i ==> !#[trigger] occurs_at(s, t, j))
    } else {
        None
    }
}

pub fn find_from(s: &Vec<char>, t: &Vec<char>, from: usize) -> (r: Option<usize>)
    requires
        from <= s.len(),
    ensures
        r matches Some(i) ==> first_occurrence(s@, t@, from as int) == Some(i as int) && occurs_at(s@, t@, i as int),
        r is None ==> first_occurrence(s@, t@, from as int) is None,
{
    let mut i = from;
    while i < s.len()
        invariant
            from <= i <= s.len(),
            forall|j: int| from <= j < i ==> !#[trigger] occurs_at(s@, t@, j),
        decreases s.len() - i,
    {
        if occurs_at_exec(s, t, i) {
            proof {
                lemma_first_occurrence(s@, t@, from as int, i as int);
            }
            return Some(i);
        }
        i = i + 1;
    }
    if occurs_at_exec(s, t, i) {
        proof {
            lemma_first_occurrence(s@, t@, from as int, i as int);
        }
        return Some(i);
    }
    assert forall|j: int| from <= j implies !#[trigger] occurs_at(s@, t@, j) by {
        if j > i {
            assert(j + t@.len() > s@.len());
        }
    }
    proof {
        reveal(first_occurrence);
    }
    None
}

proof fn lemma_first_occurrence(s: Seq<char>, t: Seq<char>, from: int, i: int)
    requires
        from <= i,
        occurs_at(s, t, i),
        forall|j: int| from <= j < i ==> !#[trigger] occurs_at(s, t, j),
    ensures
        first_occurrence(s, t, from) == Some(i),
{
    reveal(first_occurrence);
    let k = choose|k: int| from <= k && #[trigger] occurs_at(s, t, k) && forall|j: int| from <= j < k ==> !#[trigger] occurs_at(s, t, j);
    if k < i {
        assert(!occurs_at(s, t, k));
    }
    if i < k {
        assert(!occurs_at(s, t, i));
    }
}

} // verus!
