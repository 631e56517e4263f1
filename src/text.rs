use vstd::prelude::*;
use vstd::string::*;

verus! {

/// An ASCII decimal digit, or a hexadecimal one when `radix` is 16.
pub open spec fn is_digit(c: char, radix: nat) -> bool {
    ('0' <= c && c <= '9') || (radix == 16 && (('a' <= c && c <= 'f') || ('A' <= c && c <= 'F')))
}

/// An ASCII hexadecimal digit.
pub open spec fn spec_is_hex_char(c: char) -> bool {
    is_digit(c, 16)
}

pub open spec fn digit_value(c: char) -> nat {
    if '0' <= c && c <= '9' {
        (c as nat - '0' as nat) as nat
    } else if 'a' <= c && c <= 'f' {
        (c as nat - 'a' as nat + 10) as nat
    } else {
        (c as nat - 'A' as nat + 10) as nat
    }
}

pub open spec fn all_digits(s: Seq<char>, radix: nat) -> bool {
    forall|i: int| 0 <= i < s.len() ==> is_digit(#[trigger] s[i], radix)
}

/// The value of a string of digits, most significant first.
pub open spec fn digits_value(s: Seq<char>, radix: nat) -> nat
    decreases s.len(),
{
    if s.len() == 0 {
        0
    } else {
        digits_value(s.drop_last(), radix) * radix + digit_value(s.last())
    }
}

/// The number that `s` spells in `radix`: optional sign (`-` only where
/// `signed`), then at least one digit.
pub open spec fn text_value(s: Seq<char>, radix: nat, signed: bool) -> Option<int> {
    let negative = signed && s.len() > 0 && s[0] == '-';
    let has_sign = s.len() > 0 && (s[0] == '+' || negative);
    let digits = if has_sign { s.drop_first() } else { s };
    if digits.len() > 0 && all_digits(digits, radix) {
        if negative {
            Some(-(digits_value(digits, radix) as int))
        } else {
            Some(digits_value(digits, radix) as int)
        }
    } else {
        None
    }
}

/// The characters of a string.
pub fn chars_of(s: &str) -> (r: Vec<char>)
    ensures
        r@ == s@,
{
    let n = s.unicode_len();
    let mut r: Vec<char> = Vec::new();
    let mut i: usize = 0;
    while i < n
        invariant
            n == s@.len(),
            i <= n,
            r@ == s@.subrange(0, i as int),
        decreases n - i,
    {
        r.push(s.get_char(i));
        i = i + 1;
    }
    assert(r@ =~= s@);
    r
}

/// Whether `c` is an ASCII hexadecimal digit.
pub fn is_hex_char(c: char) -> (r: bool)
    ensures
        r == spec_is_hex_char(c),
{
    ('0' <= c && c <= '9') || ('a' <= c && c <= 'f') || ('A' <= c && c <= 'F')
}

fn digit_of(c: char) -> (r: u32)
    requires
        is_digit(c, 16),
    ensures
        r == digit_value(c),
        r < 16,
{
    if '0' <= c && c <= '9' {
        (c as u32) - ('0' as u32)
    } else if 'a' <= c && c <= 'f' {
        (c as u32) - ('a' as u32) + 10
    } else {
        (c as u32) - ('A' as u32) + 10
    }
}

/// The largest magnitude that any of the library's integer types can hold, plus one.
pub const MAGNITUDE_CAP: u128 = 0x1_0000_0000_0000_0000;

proof fn lemma_digits_value_step(s: Seq<char>, radix: nat, i: int)
    requires
        0 <= i < s.len(),
    ensures
        digits_value(s.subrange(0, i + 1), radix)
            == digits_value(s.subrange(0, i), radix) * radix + digit_value(s[i]),
{
    assert(s.subrange(0, i + 1).drop_last() =~= s.subrange(0, i));
}

/// Parses `s[start..]` as digits in `radix`. The result is the value when
/// every character is a digit, there is at least one and the value is at
/// most `MAGNITUDE_CAP`; otherwise `None`.
fn parse_digits(s: &Vec<char>, start: usize, radix: u32) -> (r: Option<u128>)
    requires
        radix == 10 || radix == 16,
        start <= s@.len(),
    ensures
        ({
            let d = s@.subrange(start as int, s@.len() as int);
            match r {
                Some(v) => d.len() > 0 && all_digits(d, radix as nat) && v == digits_value(
                    d,
                    radix as nat,
                ) && v <= MAGNITUDE_CAP,
                None => !(d.len() > 0 && all_digits(d, radix as nat)) || digits_value(
                    d,
                    radix as nat,
                ) > MAGNITUDE_CAP,
            }
        }),
{
    let ghost d = s@.subrange(start as int, s@.len() as int);
    if start >= s.len() {
        return None;
    }
    let mut acc: u128 = 0;
    let mut i: usize = start;
    while i < s.len()
        invariant
            start <= i <= s@.len(),
            d == s@.subrange(start as int, s@.len() as int),
            radix == 10 || radix == 16,
            all_digits(s@.subrange(start as int, i as int), radix as nat),
            acc as int == if digits_value(s@.subrange(start as int, i as int), radix as nat)
                > MAGNITUDE_CAP {
                MAGNITUDE_CAP + 1
            } else {
                digits_value(s@.subrange(start as int, i as int), radix as nat) as int
            },
        decreases s@.len() - i,
    {
        let c = s[i];
        if !(('0' <= c && c <= '9') || (radix == 16 && (('a' <= c && c <= 'f') || ('A' <= c
            && c <= 'F')))) {
            assert(!all_digits(d, radix as nat)) by {
                assert(!is_digit(d[i - start], radix as nat));
            }
            return None;
        }
        let dv = digit_of(c);
        let ghost prev = digits_value(s@.subrange(start as int, i as int), radix as nat);
        proof {
            let t = s@.subrange(start as int, s@.len() as int);
            lemma_digits_value_step(t, radix as nat, i - start);
            assert(t.subrange(0, i - start + 1) =~= s@.subrange(start as int, i + 1));
            assert(t.subrange(0, i - start) =~= s@.subrange(start as int, i as int));
            assert forall|k: int| 0 <= k < i + 1 - start implies is_digit(
                #[trigger] s@.subrange(start as int, i + 1)[k],
                radix as nat,
            ) by {
                if k < i - start {
                    assert(s@.subrange(start as int, i + 1)[k] == s@.subrange(
                        start as int,
                        i as int,
                    )[k]);
                }
            }
        }
        if acc <= MAGNITUDE_CAP {
            acc = acc * (radix as u128) + (dv as u128);
            if acc > MAGNITUDE_CAP {
                acc = MAGNITUDE_CAP + 1;
            }
        } else {
            assert(prev * radix + dv >= prev) by (nonlinear_arith)
                requires
                    radix >= 1,
            ;
        }
        i = i + 1;
    }
    assert(s@.subrange(start as int, i as int) =~= d);
    if acc > MAGNITUDE_CAP {
        None
    } else {
        Some(acc)
    }
}

/// The value of the digits `cs[from..to]` in `radix`, which must all be
/// digits and spell at most `MAGNITUDE_CAP`.
pub fn parse_digits_of(cs: &Vec<char>, from: usize, to: usize, radix: u32) -> (r: u128)
    requires
        radix == 10 || radix == 16,
        from < to <= cs@.len(),
        all_digits(cs@.subrange(from as int, to as int), radix as nat),
        digits_value(cs@.subrange(from as int, to as int), radix as nat) <= MAGNITUDE_CAP,
    ensures
        r == digits_value(cs@.subrange(from as int, to as int), radix as nat),
{
    let mut part: Vec<char> = Vec::new();
    let mut i: usize = from;
    while i < to
        invariant
            from <= i <= to <= cs@.len(),
            part@ == cs@.subrange(from as int, i as int),
        decreases to - i,
    {
        part.push(cs[i]);
        i = i + 1;
    }
    assert(part@.subrange(0, part@.len() as int) =~= part@);
    match parse_digits(&part, 0, radix) {
        Some(v) => v,
        None => 0,
    }
}

/// Parses `s` as an integer in `radix` with an optional sign, as std's
/// integer parsing does before its range check. `None` also when the
/// magnitude exceeds `MAGNITUDE_CAP`.
pub fn parse_signed_text(s: &str, radix: u32, signed: bool) -> (r: Option<i128>)
    requires
        radix == 10 || radix == 16,
    ensures
        match text_value(s@, radix as nat, signed) {
            Some(v) => if -(MAGNITUDE_CAP as int) <= v <= MAGNITUDE_CAP {
                r == Some(v as i128)
            } else {
                r is None
            },
            None => r is None,
        },
{
    let cs = chars_of(s);
    parse_signed_chars(&cs, radix, signed)
}

/// `parse_signed_text` on a string held as characters.
pub fn parse_signed_chars(cs: &Vec<char>, radix: u32, signed: bool) -> (r: Option<i128>)
    requires
        radix == 10 || radix == 16,
    ensures
        match text_value(cs@, radix as nat, signed) {
            Some(v) => if -(MAGNITUDE_CAP as int) <= v <= MAGNITUDE_CAP {
                r == Some(v as i128)
            } else {
                r is None
            },
            None => r is None,
        },
{
    let ghost s = cs@;
    let n = cs.len();
    let negative = signed && n > 0 && cs[0] == '-';
    let has_sign = n > 0 && (cs[0] == '+' || negative);
    let start: usize = if has_sign { 1 } else { 0 };
    let ghost digits = if has_sign { s.drop_first() } else { s };
    assert(cs@.subrange(start as int, n as int) =~= digits);
    match parse_digits(&cs, start, radix) {
        Some(v) => {
            if negative {
                Some(-(v as i128))
            } else {
                Some(v as i128)
            }
        },
        None => None,
    }
}

/// Whether `s` is `t` up to ASCII case.
pub open spec fn eq_ignore_ascii_case(s: Seq<char>, t: Seq<char>) -> bool {
    s.len() == t.len() && forall|i: int| 0 <= i < s.len() ==> to_ascii_lower(#[trigger] s[i]) == to_ascii_lower(t[i])
}

pub open spec fn to_ascii_lower(c: char) -> char {
    if 'A' <= c && c <= 'Z' {
        (((c as u8) + 32) as u8) as char
    } else {
        c
    }
}

fn lower_char(c: char) -> (r: char)
    ensures
        r == to_ascii_lower(c),
{
    if 'A' <= c && c <= 'Z' {
        ((c as u8) + 32) as char
    } else {
        c
    }
}

/// Whether `s[from..from + t.len()]` equals `t` up to ASCII case.
pub fn slice_eq_ignore_ascii_case(s: &Vec<char>, from: usize, t: &str) -> (r: bool)
    ensures
        r == (from + t@.len() <= s@.len() && eq_ignore_ascii_case(
            s@.subrange(from as int, from + t@.len()),
            t@,
        )),
{
    let tc = chars_of(t);
    if from > s.len() || tc.len() > s.len() - from {
        return false;
    }
    let slen = s.len();
    let mut i: usize = 0;
    while i < tc.len()
        invariant
            tc@ == t@,
            slen == s@.len(),
            from + tc@.len() <= slen,
            i <= tc@.len(),
            forall|k: int| 0 <= k < i ==> to_ascii_lower(#[trigger] s@[from + k]) == to_ascii_lower(tc@[k]),
        decreases tc@.len() - i,
    {
        let idx: usize = from + i;
        if lower_char(s[idx]) != lower_char(tc[i]) {
            assert(s@.subrange(from as int, from + t@.len())[i as int] == s@[from + i]);
            return false;
        }
        i = i + 1;
    }
    assert forall|k: int| 0 <= k < t@.len() implies to_ascii_lower(
        #[trigger] s@.subrange(from as int, from + t@.len())[k],
    ) == to_ascii_lower(t@[k]) by {
        assert(s@.subrange(from as int, from + t@.len())[k] == s@[from + k]);
    }
    true
}

/// Whether the strings hold the same characters.
pub fn str_eq(s: &str, t: &str) -> (r: bool)
    ensures
        r == (s@ == t@),
{
    let a = chars_of(s);
    let b = chars_of(t);
    if a.len() != b.len() {
        return false;
    }
    let mut i: usize = 0;
    while i < a.len()
        invariant
            a@ == s@,
            b@ == t@,
            a@.len() == b@.len(),
            i <= a@.len(),
            forall|k: int| 0 <= k < i ==> a@[k] == b@[k],
        decreases a@.len() - i,
    {
        if a[i] != b[i] {
            return false;
        }
        i = i + 1;
    }
    assert(a@ =~= b@);
    true
}

/// Relies on String::push: it appends one character at the end.
#[verifier::external_body]
pub(crate) fn push_char(s: &mut String, c: char)
    ensures
        final(s)@ == old(s)@.push(c),
{
    s.push(c);
}

} // verus!
