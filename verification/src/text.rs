//! Text helpers: UTF-8 and big-endian UTF-16 decoding, decimal integers, and replacing
//! characters and substrings.
use vstd::prelude::*;
use vstd::string::*;
use vstd::utf8::*;

verus! {

/// What `String::from_utf8_lossy` makes of the bytes `b`.
pub uninterp spec fn spec_utf8_lossy(b: Seq<u8>) -> Seq<char>;

/// `String::from_utf8_lossy`: the text of `bytes`, with each invalid sequence replaced by
/// U+FFFD. Claimed: the result depends on the bytes alone, and valid UTF-8 is decoded as is
/// (as std documents). What an invalid sequence becomes is left unsaid.
#[verifier::external_body]
pub(crate) fn utf8_lossy(bytes: &[u8]) -> (res: String)
    ensures
        res@ == spec_utf8_lossy(bytes@),
        valid_utf8(bytes@) ==> res@ == decode_utf8(bytes@),
{
    String::from_utf8_lossy(bytes).into_owned()
}

/// `String::push`: appends the character `c`.
#[verifier::external_body]
pub(crate) fn push_char(s: &mut String, c: char)
    ensures
        final(s)@ == old(s)@.push(c),
{
    s.push(c);
}

/// `char::from_u32`: the character with code point `v`, if `v` is a Unicode scalar value.
#[verifier::external_body]
pub(crate) fn char_from_u32(v: u32) -> (res: Option<char>)
    ensures
        is_scalar(v) ==> res == Some(v as char),
        !is_scalar(v) ==> res is None,
{
    char::from_u32(v)
}

// ---------------------------------------------------------------- UTF-16

/// The big-endian 16-bit code units of `b` (a trailing odd byte is ignored).
pub open spec fn utf16_be_units(b: Seq<u8>) -> Seq<u16> {
    Seq::new(b.len() / 2, |i: int| (b[2 * i] as int * 256 + b[2 * i + 1] as int) as u16)
}

/// Whether `u` is a surrogate code unit.
pub open spec fn is_surrogate(u: u16) -> bool {
    0xD800 <= u <= 0xDFFF
}

/// The text that the UTF-16 code units `u` encode, or `None` when a surrogate is unpaired.
pub open spec fn decode_utf16(u: Seq<u16>) -> Option<Seq<char>>
    decreases u.len(),
{
    if u.len() == 0 {
        Some(Seq::empty())
    } else if !is_surrogate(u[0]) {
        match decode_utf16(u.drop_first()) {
            Some(rest) => Some(seq![(u[0] as u32) as char] + rest),
            None => None,
        }
    } else if u[0] <= 0xDBFF && u.len() >= 2 && 0xDC00 <= u[1] <= 0xDFFF {
        let c = (0x10000 + (u[0] - 0xD800) * 0x400 + (u[1] - 0xDC00)) as u32;
        match decode_utf16(u.subrange(2, u.len() as int)) {
            Some(rest) => Some(seq![c as char] + rest),
            None => None,
        }
    } else {
        None
    }
}

/// Decodes the even-length byte slice `b` as big-endian UTF-16.
pub fn decode_utf16_be(b: &[u8]) -> (res: Option<String>)
    requires
        b@.len() % 2 == 0,
    ensures
        match res {
            Some(s) => decode_utf16(utf16_be_units(b@)) == Some(s@),
            None => decode_utf16(utf16_be_units(b@)) is None,
        },
{
    let ghost u = utf16_be_units(b@);
    let n = b.len() / 2;
    let mut out = String::new();
    let mut i: usize = 0;
    let blen = b.len();
    proof {
        assert(u.subrange(0, n as int) =~= u);
        match decode_utf16(u) {
            Some(r) => {
                assert(out@ + r =~= r);
            },
            None => {},
        }
    }
    while i < n
        invariant
            n == u.len(),
            blen == b@.len(),
            n * 2 == blen,
            i <= n,
            u == utf16_be_units(b@),
            decode_utf16(u) == match decode_utf16(u.subrange(i as int, n as int)) {
                Some(rest) => Some(out@ + rest),
                None => None::<Seq<char>>,
            },
        decreases n - i,
    {
        let ghost suffix = u.subrange(i as int, n as int);
        let hi: u16 = (b[2 * i] as u16) * 256 + (b[2 * i + 1] as u16);
        assert(hi == u[i as int]);
        assert(suffix[0] == hi);
        if hi < 0xD800 || hi > 0xDFFF {
            let c = char_from_u32(hi as u32);
            match c {
                Some(c) => {
                    assert(suffix.drop_first() =~= u.subrange(i + 1, n as int));
                    let ghost before = out@;
                    push_char(&mut out, c);
                    proof {
                        match decode_utf16(suffix.drop_first()) {
                            Some(rest) => {
                                assert(before + (seq![c] + rest) =~= out@ + rest);
                            },
                            None => {},
                        }
                    }
                    i = i + 1;
                },
                None => {
                    return None;
                },
            }
        } else if hi <= 0xDBFF && i + 1 < n {
            let lo: u16 = (b[2 * i + 2] as u16) * 256 + (b[2 * i + 3] as u16);
            assert(lo == u[i + 1]);
            assert(suffix[1] == lo);
            if 0xDC00 <= lo && lo <= 0xDFFF {
                let v: u32 = 0x10000 + ((hi - 0xD800) as u32) * 0x400 + ((lo - 0xDC00) as u32);
                match char_from_u32(v) {
                    Some(c) => {
                        assert(suffix.subrange(2, suffix.len() as int) =~= u.subrange(
                            i + 2,
                            n as int,
                        ));
                        let ghost before = out@;
                        push_char(&mut out, c);
                        proof {
                            match decode_utf16(suffix.subrange(2, suffix.len() as int)) {
                                Some(rest) => {
                                    assert(before + (seq![c] + rest) =~= out@ + rest);
                                },
                                None => {},
                            }
                        }
                        i = i + 2;
                    },
                    None => {
                        return None;
                    },
                }
            } else {
                return None;
            }
        } else {
            return None;
        }
    }
    proof {
        assert(u.subrange(n as int, n as int) =~= Seq::<u16>::empty());
        assert(out@ + Seq::<char>::empty() =~= out@);
    }
    Some(out)
}

// ---------------------------------------------------------------- decimal text

/// The character of the decimal digit `d`.
pub open spec fn digit_char(d: nat) -> char {
    ((48 + d) as u32) as char
}

/// The decimal digits of `n`, most significant first, without leading zeros.
pub open spec fn decimal_digits(n: nat) -> Seq<char>
    decreases n,
{
    if n < 10 {
        seq![digit_char(n)]
    } else {
        decimal_digits(n / 10).push(digit_char(n % 10))
    }
}

/// The decimal text of the integer `n`, with a leading `-` when it is negative.
pub open spec fn decimal_text(n: int) -> Seq<char> {
    if n < 0 {
        seq!['-'] + decimal_digits((-n) as nat)
    } else {
        decimal_digits(n as nat)
    }
}

/// Appends the decimal digits of `n`.
fn push_decimal(s: &mut String, n: u64)
    ensures
        final(s)@ == old(s)@ + decimal_digits(n as nat),
    decreases n,
{
    if n >= 10 {
        push_decimal(s, n / 10);
    }
    let d: u8 = (n % 10) as u8;
    let c = (48u8 + d) as char;
    assert(c == digit_char((n % 10) as nat));
    push_char(s, c);
    assert(s@ =~= old(s)@ + decimal_digits(n as nat));
}

/// The decimal text of `n`, as `i64::to_string` writes it.
pub fn i64_to_text(n: i64) -> (res: String)
    ensures
        res@ == decimal_text(n as int),
{
    let mut s = String::new();
    if n < 0 {
        push_char(&mut s, '-');
        let m: u64 = if n == i64::MIN {
            9223372036854775808u64
        } else {
            (-n) as u64
        };
        push_decimal(&mut s, m);
    } else {
        push_decimal(&mut s, n as u64);
    }
    assert(s@ =~= decimal_text(n as int));
    s
}

// ---------------------------------------------------------------- decimal parsing

/// Whether every character of `s` is an ASCII digit.
pub open spec fn all_digits(s: Seq<char>) -> bool {
    forall|i: int| 0 <= i < s.len() ==> '0' <= #[trigger] s[i] <= '9'
}

/// The value of the decimal digits `s`.
pub open spec fn digits_value(s: Seq<char>) -> nat
    decreases s.len(),
{
    if s.len() == 0 {
        0
    } else {
        digits_value(s.drop_last()) * 10 + (s.last() as nat - 48) as nat
    }
}

/// What `str::parse::<i64>` gives for `s`: an optional `+` or `-`, then at least one
/// ASCII digit and nothing else, with a value that fits in an `i64`.
pub open spec fn spec_parse_i64(s: Seq<char>) -> Option<i64> {
    let signed = s.len() > 0 && (s[0] == '-' || s[0] == '+');
    let body = if signed { s.drop_first() } else { s };
    let v: int = if signed && s[0] == '-' { -digits_value(body) } else { digits_value(body) as int };
    if body.len() == 0 || !all_digits(body) || v < i64::MIN || v > i64::MAX {
        None
    } else {
        Some(v as i64)
    }
}

/// Parses `s` as a decimal `i64`, as `str::parse::<i64>` does.
pub fn parse_i64(s: &str) -> (res: Option<i64>)
    ensures
        res == spec_parse_i64(s@),
{
    let n = s.unicode_len();
    let mut start: usize = 0;
    let mut negative = false;
    if n > 0 {
        let c0 = s.get_char(0);
        if c0 == '-' {
            negative = true;
            start = 1;
        } else if c0 == '+' {
            start = 1;
        }
    }
    let ghost signed = start == 1;
    let ghost body = if signed { s@.drop_first() } else { s@ };
    assert(body =~= s@.subrange(start as int, n as int));
    if start >= n {
        return None;
    }
    let cap: u128 = 9223372036854775809;
    let mut acc: u128 = 0;
    let mut digits_only = true;
    let mut i = start;
    while i < n
        invariant
            start <= i <= n,
            n == s@.len(),
            body =~= s@.subrange(start as int, n as int),
            digits_only == all_digits(body.subrange(0, i - start)),
            digits_only ==> acc == if digits_value(body.subrange(0, i - start)) < cap {
                digits_value(body.subrange(0, i - start))
            } else {
                cap as nat
            },
            acc <= cap,
            cap == 9223372036854775809,
        decreases n - i,
    {
        let c = s.get_char(i);
        let ghost pre = body.subrange(0, i - start);
        let ghost pre2 = body.subrange(0, i + 1 - start);
        assert(pre2.drop_last() =~= pre);
        assert(pre2.last() == c);
        if '0' <= c && c <= '9' {
            let d = (c as u32 - 48) as u128;
            let next = acc * 10 + d;
            acc = if next < cap { next } else { cap };
            assert(all_digits(pre) ==> all_digits(pre2));
        } else {
            digits_only = false;
        }
        i = i + 1;
    }
    assert(body.subrange(0, n - start) =~= body);
    if !digits_only {
        return None;
    }
    if negative {
        if acc <= 9223372036854775808 {
            Some((-(acc as i128)) as i64)
        } else {
            None
        }
    } else {
        if acc <= 9223372036854775807 {
            Some(acc as i64)
        } else {
            None
        }
    }
}

// ---------------------------------------------------------------- replacing

/// `t` with every character `c` replaced by the text `r`.
pub open spec fn replace_char(t: Seq<char>, c: char, r: Seq<char>) -> Seq<char>
    decreases t.len(),
{
    if t.len() == 0 {
        Seq::empty()
    } else if t.last() == c {
        replace_char(t.drop_last(), c, r) + r
    } else {
        replace_char(t.drop_last(), c, r).push(t.last())
    }
}

/// `text` with every character `from` replaced by `to`, as `str::replace` does with a
/// character pattern.
pub fn replace_char_str(text: &str, from: char, to: &str) -> (res: String)
    ensures
        res@ == replace_char(text@, from, to@),
{
    let n = text.unicode_len();
    let mut out = String::new();
    let mut i: usize = 0;
    while i < n
        invariant
            i <= n,
            n == text@.len(),
            out@ == replace_char(text@.subrange(0, i as int), from, to@),
        decreases n - i,
    {
        let c = text.get_char(i);
        let ghost pre2 = text@.subrange(0, i + 1);
        assert(pre2.drop_last() =~= text@.subrange(0, i as int));
        if c == from {
            out.append(to);
        } else {
            push_char(&mut out, c);
        }
        i = i + 1;
    }
    assert(text@.subrange(0, n as int) =~= text@);
    out
}

/// `r` before, between and after the characters of `t`: what replacing the empty pattern
/// gives.
pub open spec fn interleave(t: Seq<char>, r: Seq<char>) -> Seq<char>
    decreases t.len(),
{
    if t.len() == 0 {
        r
    } else {
        r + seq![t[0]] + interleave(t.drop_first(), r)
    }
}

/// `t` with the non-overlapping occurrences of `f`, found from the left, replaced by `r`,
/// as `str::replace` does with a string pattern.
pub open spec fn replace_all(t: Seq<char>, f: Seq<char>, r: Seq<char>) -> Seq<char>
    decreases t.len(),
{
    if f.len() == 0 {
        interleave(t, r)
    } else if t.len() < f.len() {
        t
    } else if t.subrange(0, f.len() as int) == f {
        r + replace_all(t.subrange(f.len() as int, t.len() as int), f, r)
    } else {
        seq![t[0]] + replace_all(t.drop_first(), f, r)
    }
}

/// Whether `f` occurs in `text` at the character position `i`.
fn occurs_at(text: &str, n: usize, f: &str, m: usize, i: usize) -> (res: bool)
    requires
        n == text@.len(),
        m == f@.len(),
        i + m <= n,
    ensures
        res == (text@.subrange(i as int, i + m) == f@),
{
    let mut k: usize = 0;
    while k < m
        invariant
            k <= m,
            i + m <= n,
            n == text@.len(),
            m == f@.len(),
            text@.subrange(i as int, i + k) =~= f@.subrange(0, k as int),
        decreases m - k,
    {
        if text.get_char(i + k) != f.get_char(k) {
            assert(text@.subrange(i as int, i + m)[k as int] != f@[k as int]);
            return false;
        }
        k = k + 1;
    }
    assert(f@.subrange(0, m as int) =~= f@);
    true
}

/// `text` with every occurrence of `from` replaced by `to`, as `str::replace` does with a
/// string pattern.
pub fn replace_str(text: &str, from: &str, to: &str) -> (res: String)
    ensures
        res@ == replace_all(text@, from@, to@),
{
    let n = text.unicode_len();
    let m = from.unicode_len();
    let mut out = String::new();
    let mut i: usize = 0;
    assert(text@.subrange(0, n as int) =~= text@);
    assert(out@ + replace_all(text@, from@, to@) =~= replace_all(text@, from@, to@));
    if m == 0 {
        while i < n
            invariant
                i <= n,
                n == text@.len(),
                from@.len() == 0,
                out@ + interleave(text@.subrange(i as int, n as int), to@) == replace_all(
                    text@,
                    from@,
                    to@,
                ),
            decreases n - i,
        {
            let ghost rest = text@.subrange(i as int, n as int);
            assert(rest.drop_first() =~= text@.subrange(i + 1, n as int));
            let ghost before = out@;
            out.append(to);
            push_char(&mut out, text.get_char(i));
            assert(before + interleave(rest, to@) =~= out@ + interleave(rest.drop_first(), to@));
            i = i + 1;
        }
        assert(text@.subrange(n as int, n as int) =~= Seq::<char>::empty());
        out.append(to);
        return out;
    }
    while i < n
        invariant
            i <= n,
            n == text@.len(),
            m == from@.len(),
            m > 0,
            out@ + replace_all(text@.subrange(i as int, n as int), from@, to@) == replace_all(
                text@,
                from@,
                to@,
            ),
        decreases n - i,
    {
        let ghost rest = text@.subrange(i as int, n as int);
        let ghost before = out@;
        if m <= n - i && occurs_at(text, n, from, m, i) {
            assert(rest.subrange(0, m as int) =~= text@.subrange(i as int, i + m));
            assert(rest.subrange(m as int, rest.len() as int) =~= text@.subrange(i + m, n as int));
            out.append(to);
            assert(before + replace_all(rest, from@, to@) =~= out@ + replace_all(
                text@.subrange(i + m, n as int),
                from@,
                to@,
            ));
            i = i + m;
        } else {
            if m <= n - i {
                assert(rest.subrange(0, m as int) =~= text@.subrange(i as int, i + m));
            }
            assert(rest.drop_first() =~= text@.subrange(i + 1, n as int));
            push_char(&mut out, text.get_char(i));
            assert(before + replace_all(rest, from@, to@) =~= out@ + replace_all(
                rest.drop_first(),
                from@,
                to@,
            ));
            i = i + 1;
        }
    }
    assert(out@ + Seq::<char>::empty() =~= out@);
    out
}

// ---------------------------------------------------------------- round trip

/// The digits of `n` are decimal digits, at least one of them.
proof fn lemma_decimal_digits(n: nat)
    ensures
        decimal_digits(n).len() > 0,
        all_digits(decimal_digits(n)),
        digits_value(decimal_digits(n)) == n,
    decreases n,
{
    if n < 10 {
        let s = decimal_digits(n);
        assert(s.drop_last() =~= Seq::<char>::empty());
        assert(digit_char(n) as nat == 48 + n);
        assert(digits_value(s) == digits_value(s.drop_last()) * 10 + (s.last() as nat - 48) as nat);
    } else {
        lemma_decimal_digits(n / 10);
        let s = decimal_digits(n);
        assert(s.drop_last() =~= decimal_digits(n / 10));
        assert(digit_char(n % 10) as nat == 48 + n % 10);
        assert(n == (n / 10) * 10 + n % 10) by (nonlinear_arith);
        assert(digits_value(s) == digits_value(s.drop_last()) * 10 + (s.last() as nat - 48) as nat);
        assert forall|i: int| 0 <= i < s.len() implies '0' <= #[trigger] s[i] <= '9' by {
            if i < s.len() - 1 {
                assert(s[i] == decimal_digits(n / 10)[i]);
            }
        }
    }
}

/// Reading back the decimal text of an `i64` gives the same `i64`.
pub proof fn law_parse_reads_back_decimal_text(n: i64)
    ensures
        spec_parse_i64(decimal_text(n as int)) == Some(n),
{
    if n < 0 {
        let m = (-(n as int)) as nat;
        lemma_decimal_digits(m);
        let s = decimal_text(n as int);
        assert(s.drop_first() =~= decimal_digits(m));
    } else {
        lemma_decimal_digits(n as nat);
        let s = decimal_text(n as int);
        assert('0' <= s[0] <= '9');
    }
}

// ---------------------------------------------------------------- UTF-16 laws

/// Units without surrogates decode one character per unit, each with the unit as its code
/// point.
proof fn lemma_decode_bmp(u: Seq<u16>)
    requires
        forall|i: int| 0 <= i < u.len() ==> !is_surrogate(#[trigger] u[i]),
    ensures
        decode_utf16(u) is Some,
        decode_utf16(u)->0.len() == u.len(),
        forall|i: int| 0 <= i < u.len() ==> (#[trigger] decode_utf16(u)->0[i]) as u32 == u[i] as u32,
    decreases u.len(),
{
    if u.len() > 0 {
        let rest = u.drop_first();
        assert forall|i: int| 0 <= i < rest.len() implies !is_surrogate(#[trigger] rest[i]) by {
            assert(rest[i] == u[i + 1]);
        }
        lemma_decode_bmp(rest);
        assert(!is_surrogate(u[0]));
        let c = (u[0] as u32) as char;
        assert(c as u32 == u[0] as u32);
        let s = decode_utf16(u)->0;
        assert(s == seq![c] + decode_utf16(rest)->0);
        assert forall|i: int| 0 <= i < u.len() implies (#[trigger] s[i]) as u32 == u[i] as u32 by {
            if i > 0 {
                assert(s[i] == decode_utf16(rest)->0[i - 1]);
                assert(rest[i - 1] == u[i]);
            }
        }
    }
}

/// Big-endian UTF-16 bytes without surrogates decode to one character per byte pair, whose
/// code point is the pair read as a big-endian 16-bit number, as `String::from_utf16` does.
pub proof fn law_utf16_be_without_surrogates(b: Seq<u8>)
    requires
        b.len() % 2 == 0,
        forall|i: int| 0 <= i < b.len() / 2 ==> !(0xD8 <= #[trigger] b[2 * i] <= 0xDF),
    ensures
        decode_utf16(utf16_be_units(b)) is Some,
        decode_utf16(utf16_be_units(b))->0.len() == b.len() / 2,
        forall|i: int|
            0 <= i < b.len() / 2 ==> (#[trigger] decode_utf16(utf16_be_units(b))->0[i]) as u32 == b[2
                * i] as int * 256 + b[2 * i + 1] as int,
{
    let u = utf16_be_units(b);
    assert forall|i: int| 0 <= i < u.len() implies !is_surrogate(#[trigger] u[i]) by {
        assert(0 <= 2 * i < b.len());
        assert(!(0xD8 <= b[2 * i] <= 0xDF));
        assert(u[i] as int == b[2 * i] as int * 256 + b[2 * i + 1] as int);
    }
    lemma_decode_bmp(u);
    assert forall|i: int| 0 <= i < b.len() / 2 implies (#[trigger] decode_utf16(u)->0[i]) as u32
        == b[2 * i] as int * 256 + b[2 * i + 1] as int by {
        assert(u[i] as int == b[2 * i] as int * 256 + b[2 * i + 1] as int);
    }
}

/// Four big-endian bytes holding a high and then a low surrogate decode to the one
/// character `0x10000 + (high - 0xD800) * 0x400 + (low - 0xDC00)`.
pub proof fn law_utf16_be_surrogate_pair(b: Seq<u8>)
    requires
        b.len() == 4,
        0xD8 <= b[0] <= 0xDB,
        0xDC <= b[2] <= 0xDF,
    ensures
        decode_utf16(utf16_be_units(b)) is Some,
        decode_utf16(utf16_be_units(b))->0.len() == 1,
        decode_utf16(utf16_be_units(b))->0[0] as u32 == 0x10000 + (b[0] as int * 256 + b[1] as int
            - 0xD800) * 0x400 + (b[2] as int * 256 + b[3] as int - 0xDC00),
{
    let u = utf16_be_units(b);
    let hi = b[0] as int * 256 + b[1] as int;
    let lo = b[2] as int * 256 + b[3] as int;
    assert(u.len() == 2);
    assert(u[0] as int == hi);
    assert(u[1] as int == lo);
    assert(is_surrogate(u[0]) && u[0] <= 0xDBFF && 0xDC00 <= u[1] <= 0xDFFF);
    assert(decode_utf16(u.subrange(2, u.len() as int)) == Some(Seq::<char>::empty())) by {
        assert(u.subrange(2, u.len() as int) =~= Seq::<u16>::empty());
    }
    let v = (0x10000 + (u[0] - 0xD800) * 0x400 + (u[1] - 0xDC00)) as u32;
    assert(v as int == 0x10000 + (hi - 0xD800) * 0x400 + (lo - 0xDC00));
    assert((v as char) as u32 == v);
    assert(decode_utf16(u) == Some(seq![v as char] + Seq::<char>::empty()));
    assert(seq![v as char] + Seq::<char>::empty() =~= seq![v as char]);
}

} // verus!
