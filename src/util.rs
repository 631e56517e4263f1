use vstd::prelude::*;
use vstd::string::*;
use crate::error::{AbortCode, ErrorCode};
use crate::text::{
    all_digits, chars_of, digits_value, eq_ignore_ascii_case, is_digit, is_hex_char,
    parse_signed_text, slice_eq_ignore_ascii_case, spec_is_hex_char, text_value, MAGNITUDE_CAP,
};

verus! {

/// Integer types that the electronic data sheet parser reads.
pub trait ParseRadix: Sized {
    /// What `s` spells in `radix` (10 or 16) for this type, if anything.
    spec fn spec_from_str_radix(s: Seq<char>, radix: nat) -> Option<Self>;

    /// What `s` spells as a decimal of this type, sign included.
    spec fn spec_from_decimal(s: Seq<char>) -> Option<Self>;

    spec fn spec_zero() -> Self;

    fn from_str_radix(s: &str, radix: u32) -> (r: Option<Self>)
        requires
            radix == 10 || radix == 16,
        ensures
            r == Self::spec_from_str_radix(s@, radix as nat),
    ;

    fn from_decimal(s: &str) -> (r: Option<Self>)
        ensures
            r == Self::spec_from_decimal(s@),
    ;

    fn zero() -> (r: Self)
        ensures
            r == Self::spec_zero(),
    ;
}

impl ParseRadix for u8 {
    open spec fn spec_from_str_radix(s: Seq<char>, radix: nat) -> Option<u8> {
        match text_value(s, radix, false) {
            Some(v) => if 0 <= v <= 0xFF {
                Some(v as u8)
            } else {
                None
            },
            None => None,
        }
    }

    open spec fn spec_from_decimal(s: Seq<char>) -> Option<u8> {
        Self::spec_from_str_radix(s, 10)
    }

    open spec fn spec_zero() -> u8 {
        0
    }

    fn from_str_radix(s: &str, radix: u32) -> (r: Option<u8>) {
        match parse_signed_text(s, radix, false) {
            Some(v) => if 0 <= v && v <= 0xFF {
                Some(v as u8)
            } else {
                None
            },
            None => None,
        }
    }

    fn from_decimal(s: &str) -> (r: Option<u8>) {
        <Self as ParseRadix>::from_str_radix(s, 10)
    }

    fn zero() -> (r: u8) {
        0
    }
}

impl ParseRadix for u16 {
    open spec fn spec_from_str_radix(s: Seq<char>, radix: nat) -> Option<u16> {
        match text_value(s, radix, false) {
            Some(v) => if 0 <= v <= 0xFFFF {
                Some(v as u16)
            } else {
                None
            },
            None => None,
        }
    }

    open spec fn spec_from_decimal(s: Seq<char>) -> Option<u16> {
        Self::spec_from_str_radix(s, 10)
    }

    open spec fn spec_zero() -> u16 {
        0
    }

    fn from_str_radix(s: &str, radix: u32) -> (r: Option<u16>) {
        match parse_signed_text(s, radix, false) {
            Some(v) => if 0 <= v && v <= 0xFFFF {
                Some(v as u16)
            } else {
                None
            },
            None => None,
        }
    }

    fn from_decimal(s: &str) -> (r: Option<u16>) {
        <Self as ParseRadix>::from_str_radix(s, 10)
    }

    fn zero() -> (r: u16) {
        0
    }
}

impl ParseRadix for u32 {
    open spec fn spec_from_str_radix(s: Seq<char>, radix: nat) -> Option<u32> {
        match text_value(s, radix, false) {
            Some(v) => if 0 <= v <= 0xFFFF_FFFF {
                Some(v as u32)
            } else {
                None
            },
            None => None,
        }
    }

    open spec fn spec_from_decimal(s: Seq<char>) -> Option<u32> {
        Self::spec_from_str_radix(s, 10)
    }

    open spec fn spec_zero() -> u32 {
        0
    }

    fn from_str_radix(s: &str, radix: u32) -> (r: Option<u32>) {
        match parse_signed_text(s, radix, false) {
            Some(v) => if 0 <= v && v <= 0xFFFF_FFFF {
                Some(v as u32)
            } else {
                None
            },
            None => None,
        }
    }

    fn from_decimal(s: &str) -> (r: Option<u32>) {
        <Self as ParseRadix>::from_str_radix(s, 10)
    }

    fn zero() -> (r: u32) {
        0
    }
}

impl ParseRadix for u64 {
    open spec fn spec_from_str_radix(s: Seq<char>, radix: nat) -> Option<u64> {
        match text_value(s, radix, false) {
            Some(v) => if 0 <= v <= 0xFFFF_FFFF_FFFF_FFFF {
                Some(v as u64)
            } else {
                None
            },
            None => None,
        }
    }

    open spec fn spec_from_decimal(s: Seq<char>) -> Option<u64> {
        Self::spec_from_str_radix(s, 10)
    }

    open spec fn spec_zero() -> u64 {
        0
    }

    fn from_str_radix(s: &str, radix: u32) -> (r: Option<u64>) {
        match parse_signed_text(s, radix, false) {
            Some(v) => if 0 <= v && v <= 0xFFFF_FFFF_FFFF_FFFF {
                Some(v as u64)
            } else {
                None
            },
            None => None,
        }
    }

    fn from_decimal(s: &str) -> (r: Option<u64>) {
        <Self as ParseRadix>::from_str_radix(s, 10)
    }

    fn zero() -> (r: u64) {
        0
    }
}

impl ParseRadix for i8 {
    /// Hexadecimal text is read as the unsigned type of the same width and
    /// reinterpreted in two's complement.
    open spec fn spec_from_str_radix(s: Seq<char>, radix: nat) -> Option<i8> {
        match text_value(s, radix, false) {
            Some(v) => if 0 <= v <= 0xFF {
                if v <= 0x7F {
                    Some(v as i8)
                } else {
                    Some((v - 0x100) as i8)
                }
            } else {
                None
            },
            None => None,
        }
    }

    open spec fn spec_from_decimal(s: Seq<char>) -> Option<i8> {
        match text_value(s, 10, true) {
            Some(v) => if -0x80 <= v <= 0x7F {
                Some(v as i8)
            } else {
                None
            },
            None => None,
        }
    }

    open spec fn spec_zero() -> i8 {
        0
    }

    fn from_str_radix(s: &str, radix: u32) -> (r: Option<i8>) {
        match parse_signed_text(s, radix, false) {
            Some(v) => if 0 <= v && v <= 0xFF {
                if v <= 0x7F {
                    Some(v as i8)
                } else {
                    Some((v - 0x100) as i8)
                }
            } else {
                None
            },
            None => None,
        }
    }

    fn from_decimal(s: &str) -> (r: Option<i8>) {
        match parse_signed_text(s, 10, true) {
            Some(v) => if -0x80 <= v && v <= 0x7F {
                Some(v as i8)
            } else {
                None
            },
            None => None,
        }
    }

    fn zero() -> (r: i8) {
        0
    }
}

impl ParseRadix for i16 {
    /// Hexadecimal text is read as the unsigned type of the same width and
    /// reinterpreted in two's complement.
    open spec fn spec_from_str_radix(s: Seq<char>, radix: nat) -> Option<i16> {
        match text_value(s, radix, false) {
            Some(v) => if 0 <= v <= 0xFFFF {
                if v <= 0x7FFF {
                    Some(v as i16)
                } else {
                    Some((v - 0x1_0000) as i16)
                }
            } else {
                None
            },
            None => None,
        }
    }

    open spec fn spec_from_decimal(s: Seq<char>) -> Option<i16> {
        match text_value(s, 10, true) {
            Some(v) => if -0x8000 <= v <= 0x7FFF {
                Some(v as i16)
            } else {
                None
            },
            None => None,
        }
    }

    open spec fn spec_zero() -> i16 {
        0
    }

    fn from_str_radix(s: &str, radix: u32) -> (r: Option<i16>) {
        match parse_signed_text(s, radix, false) {
            Some(v) => if 0 <= v && v <= 0xFFFF {
                if v <= 0x7FFF {
                    Some(v as i16)
                } else {
                    Some((v - 0x1_0000) as i16)
                }
            } else {
                None
            },
            None => None,
        }
    }

    fn from_decimal(s: &str) -> (r: Option<i16>) {
        match parse_signed_text(s, 10, true) {
            Some(v) => if -0x8000 <= v && v <= 0x7FFF {
                Some(v as i16)
            } else {
                None
            },
            None => None,
        }
    }

    fn zero() -> (r: i16) {
        0
    }
}

impl ParseRadix for i32 {
    /// Hexadecimal text is read as the unsigned type of the same width and
    /// reinterpreted in two's complement.
    open spec fn spec_from_str_radix(s: Seq<char>, radix: nat) -> Option<i32> {
        match text_value(s, radix, false) {
            Some(v) => if 0 <= v <= 0xFFFF_FFFF {
                if v <= 0x7FFF_FFFF {
                    Some(v as i32)
                } else {
                    Some((v - 0x1_0000_0000) as i32)
                }
            } else {
                None
            },
            None => None,
        }
    }

    open spec fn spec_from_decimal(s: Seq<char>) -> Option<i32> {
        match text_value(s, 10, true) {
            Some(v) => if -0x8000_0000 <= v <= 0x7FFF_FFFF {
                Some(v as i32)
            } else {
                None
            },
            None => None,
        }
    }

    open spec fn spec_zero() -> i32 {
        0
    }

    fn from_str_radix(s: &str, radix: u32) -> (r: Option<i32>) {
        match parse_signed_text(s, radix, false) {
            Some(v) => if 0 <= v && v <= 0xFFFF_FFFF {
                if v <= 0x7FFF_FFFF {
                    Some(v as i32)
                } else {
                    Some((v - 0x1_0000_0000) as i32)
                }
            } else {
                None
            },
            None => None,
        }
    }

    fn from_decimal(s: &str) -> (r: Option<i32>) {
        match parse_signed_text(s, 10, true) {
            Some(v) => if -0x8000_0000 <= v && v <= 0x7FFF_FFFF {
                Some(v as i32)
            } else {
                None
            },
            None => None,
        }
    }

    fn zero() -> (r: i32) {
        0
    }
}

impl ParseRadix for i64 {
    /// Hexadecimal text is read as the unsigned type of the same width and
    /// reinterpreted in two's complement.
    open spec fn spec_from_str_radix(s: Seq<char>, radix: nat) -> Option<i64> {
        match text_value(s, radix, false) {
            Some(v) => if 0 <= v <= 0xFFFF_FFFF_FFFF_FFFF {
                if v <= 0x7FFF_FFFF_FFFF_FFFF {
                    Some(v as i64)
                } else {
                    Some((v - 0x1_0000_0000_0000_0000) as i64)
                }
            } else {
                None
            },
            None => None,
        }
    }

    open spec fn spec_from_decimal(s: Seq<char>) -> Option<i64> {
        match text_value(s, 10, true) {
            Some(v) => if -0x8000_0000_0000_0000 <= v <= 0x7FFF_FFFF_FFFF_FFFF {
                Some(v as i64)
            } else {
                None
            },
            None => None,
        }
    }

    open spec fn spec_zero() -> i64 {
        0
    }

    fn from_str_radix(s: &str, radix: u32) -> (r: Option<i64>) {
        match parse_signed_text(s, radix, false) {
            Some(v) => if 0 <= v && v <= 0xFFFF_FFFF_FFFF_FFFF {
                if v <= 0x7FFF_FFFF_FFFF_FFFF {
                    Some(v as i64)
                } else {
                    Some((v - 0x1_0000_0000_0000_0000) as i64)
                }
            } else {
                None
            },
            None => None,
        }
    }

    fn from_decimal(s: &str) -> (r: Option<i64>) {
        match parse_signed_text(s, 10, true) {
            Some(v) => if -0x8000_0000_0000_0000 <= v && v <= 0x7FFF_FFFF_FFFF_FFFF {
                Some(v as i64)
            } else {
                None
            },
            None => None,
        }
    }

    fn zero() -> (r: i64) {
        0
    }
}

/// Whether `s` starts with `0x` or `0X`.
pub open spec fn has_hex_prefix(s: Seq<char>) -> bool {
    s.len() >= 2 && s[0] == '0' && (s[1] == 'x' || s[1] == 'X')
}

/// The number that `s` denotes: hexadecimal after a `0x`/`0X` prefix,
/// decimal otherwise; zero when the text is no number of the type.
pub open spec fn spec_parse_number<T: ParseRadix>(s: Seq<char>) -> T {
    if has_hex_prefix(s) {
        match T::spec_from_str_radix(s.subrange(2, s.len() as int), 16) {
            Some(v) => v,
            None => T::spec_zero(),
        }
    } else {
        match T::spec_from_decimal(s) {
            Some(v) => v,
            None => T::spec_zero(),
        }
    }
}

/// Parses a decimal or `0x`-prefixed hexadecimal integer; invalid text
/// yields zero.
pub fn parse_number<T: ParseRadix>(s: &str) -> (r: T)
    ensures
        r == spec_parse_number::<T>(s@),
{
    let n = s.unicode_len();
    if n >= 2 && s.get_char(0) == '0' && (s.get_char(1) == 'x' || s.get_char(1) == 'X') {
        let digits = s.substring_char(2, n);
        match T::from_str_radix(digits, 16) {
            Some(v) => v,
            None => T::zero(),
        }
    } else {
        match T::from_decimal(s) {
            Some(v) => v,
            None => T::zero(),
        }
    }
}

/// The value of an `Ok`, or `None` for an error.
pub fn result_to_option<T, E>(res: Result<T, E>) -> (r: Option<T>)
    ensures
        r == match res {
            Ok(v) => Some(v),
            Err(_) => None::<T>,
        },
{
    match res {
        Ok(val) => Some(val),
        Err(_) => None,
    }
}

/// A section name that is a top-level object index: four hex digits.
pub open spec fn spec_is_top(s: Seq<char>) -> bool {
    s.len() == 4 && all_digits(s, 16)
}

/// A section name `XXXXsubYY` of a sub-object: four hex digits, `sub` in
/// any case, then a decimal sub-index.
pub open spec fn spec_is_sub(s: Seq<char>) -> Option<(u16, u8)> {
    if s.len() > 7 && eq_ignore_ascii_case(s.subrange(4, 7), seq!['s', 'u', 'b'])
        && all_digits(s.subrange(0, 4), 16) {
        match text_value(s.subrange(7, s.len() as int), 10, false) {
            Some(v) => if v <= 0xFF {
                Some((digits_value(s.subrange(0, 4), 16) as u16, v as u8))
            } else {
                None
            },
            None => None,
        }
    } else {
        None
    }
}

/// A section name `XXXXName` that lists the names of a compact array.
pub open spec fn spec_is_name(s: Seq<char>) -> Option<u16> {
    let n = s.len();
    if n >= 4 && s[n - 4] == 'N' && s[n - 3] == 'a' && s[n - 2] == 'm' && s[n - 1] == 'e'
        && all_digits(s.subrange(0, 4), 16) {
        Some(digits_value(s.subrange(0, 4), 16) as u16)
    } else {
        None
    }
}

proof fn lemma_four_hex_digits(s: Seq<char>)
    requires
        s.len() == 4,
        all_digits(s, 16),
    ensures
        digits_value(s, 16) <= 0xFFFF,
{
    reveal_with_fuel(digits_value, 5);
    assert(s.drop_last().drop_last().drop_last().drop_last().len() == 0);
    assert(crate::text::digit_value(s[0]) < 16);
    assert(crate::text::digit_value(s[1]) < 16);
    assert(crate::text::digit_value(s[2]) < 16);
    assert(crate::text::digit_value(s[3]) < 16);
    assert(s.drop_last().drop_last().drop_last().last() == s[0]);
    assert(s.drop_last().drop_last().last() == s[1]);
    assert(s.drop_last().last() == s[2]);
}

fn all_hex(cs: &Vec<char>, from: usize, to: usize) -> (r: bool)
    requires
        from <= to <= cs@.len(),
    ensures
        r == all_digits(cs@.subrange(from as int, to as int), 16),
{
    let mut i: usize = from;
    while i < to
        invariant
            from <= i <= to <= cs@.len(),
            all_digits(cs@.subrange(from as int, i as int), 16),
        decreases to - i,
    {
        if !is_hex_char(cs[i]) {
            assert(!is_digit(cs@.subrange(from as int, to as int)[i - from], 16));
            return false;
        }
        assert forall|k: int| 0 <= k < i + 1 - from implies is_digit(
            #[trigger] cs@.subrange(from as int, i + 1)[k],
            16,
        ) by {
            if k < i - from {
                assert(cs@.subrange(from as int, i + 1)[k] == cs@.subrange(from as int, i as int)[k]);
            }
        }
        i = i + 1;
    }
    true
}

/// Whether a section name is a top-level object index.
pub fn is_top(s: &str) -> (r: bool)
    ensures
        r == spec_is_top(s@),
{
    let cs = chars_of(s);
    if cs.len() != 4 {
        return false;
    }
    let r = all_hex(&cs, 0, 4);
    assert(cs@.subrange(0, 4) =~= s@);
    r
}

fn hex4_value(cs: &Vec<char>) -> (r: u16)
    requires
        cs@.len() >= 4,
        all_digits(cs@.subrange(0, 4), 16),
    ensures
        r == digits_value(cs@.subrange(0, 4), 16),
{
    proof {
        lemma_four_hex_digits(cs@.subrange(0, 4));
    }
    let t = crate::text::parse_digits_of(cs, 0, 4, 16);
    t as u16
}

/// The value of four hex digits.
pub fn digits_value_u16(cs: &Vec<char>) -> (r: u16)
    requires
        cs@.len() >= 4,
        all_digits(cs@.subrange(0, 4), 16),
    ensures
        r == digits_value(cs@.subrange(0, 4), 16),
{
    hex4_value(cs)
}

/// The (index, sub-index) that a sub-object section name designates.
pub fn is_sub(s: &str) -> (r: Option<(u16, u8)>)
    ensures
        r == spec_is_sub(s@),
{
    let cs = chars_of(s);
    let n = cs.len();
    if n > 7 && slice_eq_ignore_ascii_case(&cs, 4, "sub") && all_hex(&cs, 0, 4) {
        proof {
            reveal_strlit("sub");
            assert(cs@.subrange(4, 7) == s@.subrange(4, 7));
            assert("sub"@ =~= seq!['s', 'u', 'b']);
        }
        let index = hex4_value(&cs);
        let sub_str = s.substring_char(7, n);
        match parse_signed_text(sub_str, 10, false) {
            Some(v) => if 0 <= v && v <= 0xFF {
                assert(cs@.subrange(0, 4) == s@.subrange(0, 4));
                Some((index, v as u8))
            } else {
                None
            },
            None => None,
        }
    } else {
        proof {
            reveal_strlit("sub");
            assert("sub"@ =~= seq!['s', 'u', 'b']);
            if n > 7 {
                assert(cs@.subrange(4, 7) == s@.subrange(4, 7));
                assert(cs@.subrange(0, 4) == s@.subrange(0, 4));
            }
        }
        None
    }
}

/// The object index that a names section (`XXXXName`) belongs to.
pub fn is_name(s: &str) -> (r: Option<u16>)
    ensures
        r == spec_is_name(s@),
{
    let cs = chars_of(s);
    let n = cs.len();
    if n >= 4 && cs[n - 4] == 'N' && cs[n - 3] == 'a' && cs[n - 2] == 'm' && cs[n - 1] == 'e'
        && all_hex(&cs, 0, 4) {
        Some(hex4_value(&cs))
    } else {
        None
    }
}

/// The big-endian value of a byte string.
pub open spec fn be_value(s: Seq<u8>) -> nat
    decreases s.len(),
{
    if s.len() == 0 {
        0
    } else {
        (be_value(s.drop_last()) * 256 + s.last()) as nat
    }
}

/// The little-endian value of a byte string.
pub open spec fn le_value(s: Seq<u8>) -> nat
    decreases s.len(),
{
    if s.len() == 0 {
        0
    } else {
        (s[0] + 256 * le_value(s.drop_first())) as nat
    }
}

/// The `k` lowest bytes of `v`, most significant first.
pub open spec fn be_bytes(v: nat, k: nat) -> Seq<u8>
    decreases k,
{
    if k == 0 {
        seq![]
    } else {
        be_bytes(v / 256, (k - 1) as nat).push((v % 256) as u8)
    }
}

/// The `k` lowest bytes of `v`, least significant first.
pub open spec fn le_bytes(v: nat, k: nat) -> Seq<u8>
    decreases k,
{
    if k == 0 {
        seq![]
    } else {
        seq![(v % 256) as u8] + le_bytes(v / 256, (k - 1) as nat)
    }
}

pub open spec fn min_nat(a: nat, b: nat) -> nat {
    if a <= b {
        a
    } else {
        b
    }
}

/// `s` cut or zero-padded to exactly eight bytes.
pub open spec fn fit8(s: Seq<u8>) -> Seq<u8> {
    if s.len() >= 8 {
        s.subrange(0, 8)
    } else {
        s + Seq::new((8 - s.len()) as nat, |i: int| 0u8)
    }
}

/// The concatenation of byte strings.
pub open spec fn concat_all(ss: Seq<Seq<u8>>) -> Seq<u8>
    decreases ss.len(),
{
    if ss.len() == 0 {
        seq![]
    } else {
        concat_all(ss.drop_last()) + ss.last()
    }
}

/// The `k` lowest bytes of `v`, most significant first.
pub fn be_bytes_of(v: u64, k: usize) -> (r: Vec<u8>)
    ensures
        r@ == be_bytes(v as nat, k as nat),
    decreases k,
{
    if k == 0 {
        Vec::new()
    } else {
        let mut r = be_bytes_of(v / 256, k - 1);
        r.push((v % 256) as u8);
        r
    }
}

/// The `k` lowest bytes of `v`, least significant first.
pub fn le_bytes_of(v: u64, k: usize) -> (r: Vec<u8>)
    ensures
        r@ == le_bytes(v as nat, k as nat),
    decreases k,
{
    if k == 0 {
        Vec::new()
    } else {
        let mut r = le_bytes_of(v / 256, k - 1);
        r.insert(0, (v % 256) as u8);
        assert(r@ =~= seq![(v % 256) as u8] + le_bytes((v / 256) as nat, (k - 1) as nat));
        r
    }
}

/// Joins byte strings, then cuts or zero-pads the result to eight bytes.
pub fn flatten(slices: &[&[u8]]) -> (r: Vec<u8>)
    ensures
        r@ == fit8(concat_all(slices@.map_values(|x: &[u8]| x@))),
{
    let ghost ss = slices@.map_values(|x: &[u8]| x@);
    let mut all: Vec<u8> = Vec::new();
    let mut i: usize = 0;
    while i < slices.len()
        invariant
            i <= slices@.len(),
            ss == slices@.map_values(|x: &[u8]| x@),
            all@ == concat_all(ss.subrange(0, i as int)),
        decreases slices@.len() - i,
    {
        let part: &[u8] = slices[i];
        let ghost before = all@;
        let mut j: usize = 0;
        while j < part.len()
            invariant
                j <= part@.len(),
                all@ == before + part@.subrange(0, j as int),
            decreases part@.len() - j,
        {
            all.push(part[j]);
            assert(all@ =~= before + part@.subrange(0, j + 1));
            j = j + 1;
        }
        assert(ss.subrange(0, i + 1).drop_last() =~= ss.subrange(0, i as int));
        assert(part@.subrange(0, j as int) =~= part@);
        i = i + 1;
    }
    assert(ss.subrange(0, i as int) =~= ss);
    fit_to_8(all.as_slice())
}

/// `data` cut or zero-padded to eight bytes.
pub fn fit_to_8_pub(data: &[u8]) -> (r: Vec<u8>)
    ensures
        r@ == fit8(data@),
{
    fit_to_8(data)
}

/// `data` cut or zero-padded to eight bytes.
fn fit_to_8(data: &[u8]) -> (r: Vec<u8>)
    ensures
        r@ == fit8(data@),
{
    let mut r: Vec<u8> = Vec::new();
    let mut k: usize = 0;
    while k < 8
        invariant
            k <= 8,
            r@ == fit8(data@).subrange(0, k as int),
        decreases 8 - k,
    {
        if k < data.len() {
            r.push(data[k]);
        } else {
            r.push(0);
        }
        assert(r@ =~= fit8(data@).subrange(0, k + 1));
        k = k + 1;
    }
    assert(r@ =~= fit8(data@));
    r
}

/// The last `min(bytes, 8)` bytes of `data` in big-endian order.
pub fn u64_to_vec(data: u64, bytes: usize) -> (r: Vec<u8>)
    ensures
        r@ == be_bytes(data as nat, min_nat(bytes as nat, 8)),
{
    let k = if bytes < 8 {
        bytes
    } else {
        8
    };
    be_bytes_of(data, k)
}

proof fn lemma_be_value_bound(s: Seq<u8>)
    ensures
        be_value(s) < pow256(s.len()),
    decreases s.len(),
{
    if s.len() > 0 {
        lemma_be_value_bound(s.drop_last());
        let a = be_value(s.drop_last());
        let p = pow256(s.drop_last().len());
        let b = s.last();
        assert(a * 256 + b < p * 256) by (nonlinear_arith)
            requires
                a < p,
                b < 256,
        ;
    }
}

pub open spec fn pow256(n: nat) -> nat
    decreases n,
{
    if n == 0 {
        1
    } else {
        256 * pow256((n - 1) as nat)
    }
}

/// The big-endian value of the first (at most) eight bytes of `v`.
pub fn vec_to_u64(v: &[u8]) -> (r: u64)
    ensures
        r == be_value(v@.subrange(0, min_nat(v@.len(), 8) as int)),
{
    let n: usize = if v.len() < 8 {
        v.len()
    } else {
        8
    };
    let mut res: u64 = 0;
    let mut i: usize = 0;
    while i < n
        invariant
            i <= n <= 8,
            n <= v@.len(),
            res == be_value(v@.subrange(0, i as int)),
        decreases n - i,
    {
        proof {
            lemma_be_value_bound(v@.subrange(0, i as int));
            assert(pow256(i as nat) <= pow256(7)) by {
                lemma_pow256_mono(i as nat, 7);
            }
            assert(pow256(7) == 0x100_0000_0000_0000) by {
                reveal_with_fuel(pow256, 8);
            }
            assert(v@.subrange(0, i + 1).drop_last() =~= v@.subrange(0, i as int));
        }
        res = res * 256 + (v[i] as u64);
        i = i + 1;
    }
    res
}

proof fn lemma_pow256_mono(a: nat, b: nat)
    requires
        a <= b,
    ensures
        pow256(a) <= pow256(b),
    decreases b,
{
    if a < b {
        lemma_pow256_mono(a, (b - 1) as nat);
    }
}

/// The little-endian 32-bit value of exactly four bytes.
pub fn convert_bytes_to_u32(data: &[u8]) -> (r: Result<u32, ErrorCode>)
    ensures
        data@.len() == 4 ==> r == Ok::<u32, ErrorCode>(le_value(data@) as u32),
        data@.len() != 4 ==> (r matches Err(ErrorCode::AbortCodeWrapper { abort_code, more_info })
            && abort_code == AbortCode::GeneralError && more_info@.len() == 0),
{
    if data.len() != 4 {
        return Err(make_abort_error(AbortCode::GeneralError, String::new()));
    }
    let v: u32 = (data[0] as u32) + 256 * ((data[1] as u32) + 256 * ((data[2] as u32) + 256 * (
    data[3] as u32)));
    proof {
        reveal_with_fuel(le_value, 5);
        assert(data@.drop_first().drop_first().drop_first().drop_first().len() == 0);
    }
    Ok(v)
}

/// Wraps an SDO abort code as a library error.
pub fn make_abort_error(abort_code: AbortCode, more_info: String) -> (r: ErrorCode)
    ensures
        r == (ErrorCode::AbortCodeWrapper { abort_code, more_info }),
{
    ErrorCode::AbortCodeWrapper { abort_code, more_info }
}

/// One step of CRC-CCITT over the register: shift left, folding in the
/// polynomial 0x1021 when the top bit falls out.
pub open spec fn crc_step(crc: u16) -> u16 {
    if crc & 0x8000 != 0 {
        ((crc << 1) ^ 0x1021) as u16
    } else {
        (crc << 1) as u16
    }
}

pub open spec fn crc_steps(crc: u16, n: nat) -> u16
    decreases n,
{
    if n == 0 {
        crc
    } else {
        crc_steps(crc_step(crc), (n - 1) as nat)
    }
}

/// The register after one more byte: the byte enters the top eight bits,
/// then eight steps.
pub open spec fn crc_byte(crc: u16, b: u8) -> u16 {
    crc_steps(crc ^ ((b as u16) << 8u16), 8)
}

/// CRC-CCITT (polynomial 0x1021, initial value 0, not reflected) of a
/// byte string, least recent byte first.
pub open spec fn crc16_spec(bytes: Seq<u8>) -> u16
    decreases bytes.len(),
{
    if bytes.len() == 0 {
        0
    } else {
        crc_byte(crc16_spec(bytes.drop_last()), bytes.last())
    }
}

fn crc_step_exec(crc: u16) -> (r: u16)
    ensures
        r == crc_step(crc),
{
    if crc & 0x8000 != 0 {
        (crc << 1) ^ 0x1021
    } else {
        crc << 1
    }
}

fn crc_byte_exec(crc: u16, b: u8) -> (r: u16)
    ensures
        r == crc_byte(crc, b),
{
    let mut x: u16 = crc ^ ((b as u16) << 8u16);
    let mut k: usize = 0;
    while k < 8
        invariant
            k <= 8,
            crc_steps(x, (8 - k) as nat) == crc_byte(crc, b),
        decreases 8 - k,
    {
        x = crc_step_exec(x);
        k = k + 1;
    }
    x
}

/// The 256-entry table of the register after eight steps from `i << 8`.
fn ccitt_table() -> (r: Vec<u16>)
    ensures
        r@.len() == 256,
        forall|i: int| 0 <= i < 256 ==> #[trigger] r@[i] == crc_byte(0, i as u8),
{
    let mut t: Vec<u16> = Vec::new();
    let mut i: usize = 0;
    while i < 256
        invariant
            i <= 256,
            t@.len() == i,
            forall|j: int| 0 <= j < i ==> #[trigger] t@[j] == crc_byte(0, j as u8),
        decreases 256 - i,
    {
        t.push(crc_byte_exec(0, i as u8));
        i = i + 1;
    }
    t
}

proof fn lemma_crc_step_xor(a: u16, b: u16)
    ensures
        crc_step(a ^ b) == crc_step(a) ^ crc_step(b),
{
    assert((if (a ^ b) & 0x8000 != 0 { ((a ^ b) << 1) ^ 0x1021 } else { (a ^ b) << 1 }) == (if a
        & 0x8000 != 0 { (a << 1) ^ 0x1021 } else { a << 1 }) ^ (if b & 0x8000 != 0 { (b << 1)
        ^ 0x1021 } else { b << 1 })) by (bit_vector);
}

proof fn lemma_crc_steps_xor(a: u16, b: u16, n: nat)
    ensures
        crc_steps(a ^ b, n) == crc_steps(a, n) ^ crc_steps(b, n),
    decreases n,
{
    if n > 0 {
        lemma_crc_step_xor(a, b);
        lemma_crc_steps_xor(crc_step(a), crc_step(b), (n - 1) as nat);
    }
}

proof fn lemma_crc_steps_low(x: u16)
    ensures
        crc_steps(x & 0xFF, 8) == x << 8u16,
{
    let y0 = x & 0xFF;
    let y1 = crc_step(y0);
    let y2 = crc_step(y1);
    let y3 = crc_step(y2);
    let y4 = crc_step(y3);
    let y5 = crc_step(y4);
    let y6 = crc_step(y5);
    let y7 = crc_step(y6);
    let y8 = crc_step(y7);
    assert(y1 == y0 << 1u16) by {
        assert((x & 0xFF) & 0x8000 == 0) by (bit_vector);
    }
    assert(y2 == y0 << 2u16) by {
        assert(((x & 0xFF) << 1u16) & 0x8000 == 0 && ((x & 0xFF) << 1u16) << 1u16 == (x & 0xFF)
            << 2u16) by (bit_vector);
    }
    assert(y3 == y0 << 3u16) by {
        assert(((x & 0xFF) << 2u16) & 0x8000 == 0 && ((x & 0xFF) << 2u16) << 1u16 == (x & 0xFF)
            << 3u16) by (bit_vector);
    }
    assert(y4 == y0 << 4u16) by {
        assert(((x & 0xFF) << 3u16) & 0x8000 == 0 && ((x & 0xFF) << 3u16) << 1u16 == (x & 0xFF)
            << 4u16) by (bit_vector);
    }
    assert(y5 == y0 << 5u16) by {
        assert(((x & 0xFF) << 4u16) & 0x8000 == 0 && ((x & 0xFF) << 4u16) << 1u16 == (x & 0xFF)
            << 5u16) by (bit_vector);
    }
    assert(y6 == y0 << 6u16) by {
        assert(((x & 0xFF) << 5u16) & 0x8000 == 0 && ((x & 0xFF) << 5u16) << 1u16 == (x & 0xFF)
            << 6u16) by (bit_vector);
    }
    assert(y7 == y0 << 7u16) by {
        assert(((x & 0xFF) << 6u16) & 0x8000 == 0 && ((x & 0xFF) << 6u16) << 1u16 == (x & 0xFF)
            << 7u16) by (bit_vector);
    }
    assert(y8 == x << 8u16) by {
        assert(((x & 0xFF) << 7u16) & 0x8000 == 0 && ((x & 0xFF) << 7u16) << 1u16 == x << 8u16)
            by (bit_vector);
    }
    reveal_with_fuel(crc_steps, 9);
}

/// The table form of one byte step: look up the top byte, shift the rest.
proof fn lemma_crc_byte_table(crc: u16, b: u8)
    ensures
        crc_byte(crc, b) == crc_byte(0, ((crc >> 8u16) ^ (b as u16)) as u8) ^ (crc << 8u16),
{
    let hi: u16 = (((crc >> 8u16) ^ (b as u16)) as u8) as u16;
    let lo: u16 = crc & 0xFF;
    assert(crc ^ ((b as u16) << 8u16) == (hi << 8u16) ^ lo) by (bit_vector)
        requires
            hi == (((crc >> 8u16) ^ (b as u16)) as u8) as u16,
            lo == crc & 0xFF,
    ;
    assert(0u16 ^ (hi << 8u16) == hi << 8u16) by (bit_vector);
    lemma_crc_steps_xor(hi << 8u16, lo, 8);
    lemma_crc_steps_low(crc);
}

/// CRC-CCITT of `bytes`, driven by a 256-entry lookup table.
pub fn crc16_canopen_with_lut(bytes: &[u8]) -> (r: u16)
    ensures
        r == crc16_spec(bytes@),
{
    let table = ccitt_table();
    let mut crc: u16 = 0x0000;
    let mut i: usize = 0;
    while i < bytes.len()
        invariant
            i <= bytes@.len(),
            table@.len() == 256,
            forall|j: int| 0 <= j < 256 ==> #[trigger] table@[j] == crc_byte(0, j as u8),
            crc == crc16_spec(bytes@.subrange(0, i as int)),
        decreases bytes@.len() - i,
    {
        let byte = bytes[i];
        let table_idx = ((crc >> 8u16) ^ (byte as u16)) as u8;
        proof {
            lemma_crc_byte_table(crc, byte);
            assert(bytes@.subrange(0, i + 1).drop_last() =~= bytes@.subrange(0, i as int));
        }
        crc = table[table_idx as usize] ^ (crc << 8u16);
        i = i + 1;
    }
    assert(bytes@.subrange(0, i as int) =~= bytes@);
    crc
}

/// A CAN 2.0A frame: an 11-bit identifier and up to eight data bytes.
#[derive(Debug, Clone, PartialEq, Eq)]
pub struct CanFrame {
    pub cob_id: u16,
    pub data: Vec<u8>,
}

impl CanFrame {
    /// A frame that a CAN 2.0A bus can carry.
    pub open spec fn wf(&self) -> bool {
        self.cob_id <= 0x7FF && self.data@.len() <= 8
    }
}

/// Relies on embedded_can::StandardId::new: it accepts exactly the raw
/// identifiers that fit in 11 bits.
#[verifier::external_body]
fn is_standard_id(raw: u16) -> (r: bool)
    ensures
        r == (raw <= 0x7FF),
{
    embedded_can::StandardId::new(raw).is_some()
}

pub fn copy_bytes(data: &[u8]) -> (r: Vec<u8>)
    ensures
        r@ == data@,
{
    let mut r: Vec<u8> = Vec::new();
    let mut i: usize = 0;
    while i < data.len()
        invariant
            i <= data@.len(),
            r@ == data@.subrange(0, i as int),
        decreases data@.len() - i,
    {
        r.push(data[i]);
        i = i + 1;
    }
    assert(r@ =~= data@);
    r
}

/// Whether two byte strings are equal.
pub fn bytes_eq(a: &[u8], b: &[u8]) -> (r: bool)
    ensures
        r == (a@ == b@),
{
    if a.len() != b.len() {
        return false;
    }
    let mut i: usize = 0;
    while i < a.len()
        invariant
            a@.len() == b@.len(),
            i <= a@.len(),
            forall|k: int| 0 <= k < i ==> a@[k] == b@[k],
        decreases a@.len() - i,
    {
        if a[i] != b[i] {
            return false;
        }
        i = i + 1;
    }
    assert(a@ =~= b@);
    true
}

pub proof fn lemma_le_value_bound(s: Seq<u8>)
    ensures
        le_value(s) < pow256(s.len()),
    decreases s.len(),
{
    if s.len() > 0 {
        lemma_le_value_bound(s.drop_first());
        let a = le_value(s.drop_first());
        let p = pow256(s.drop_first().len());
        let b = s[0];
        assert(b + 256 * a < 256 * p) by (nonlinear_arith)
            requires
                a < p,
                b < 256,
        ;
    }
}

/// The little-endian value of at most eight bytes.
pub fn le_u64(bytes: &[u8]) -> (r: u64)
    requires
        bytes@.len() <= 8,
    ensures
        r == le_value(bytes@),
{
    let n = bytes.len();
    let mut acc: u64 = 0;
    let mut i: usize = n;
    while i > 0
        invariant
            i <= n,
            n == bytes@.len(),
            n <= 8,
            acc == le_value(bytes@.subrange(i as int, n as int)),
        decreases i,
    {
        proof {
            lemma_le_value_bound(bytes@.subrange(i as int, n as int));
            lemma_pow256_mono((n - i) as nat, 7);
            assert(pow256(7) == 0x100_0000_0000_0000) by {
                reveal_with_fuel(pow256, 8);
            }
            assert(bytes@.subrange(i - 1, n as int).drop_first() =~= bytes@.subrange(
                i as int,
                n as int,
            ));
        }
        acc = (bytes[i - 1] as u64) + 256 * acc;
        i = i - 1;
    }
    assert(bytes@.subrange(0, n as int) =~= bytes@);
    acc
}

/// A frame with identifier `cob_id` carrying `data`.
pub fn create_frame(cob_id: u16, data: &[u8]) -> (r: Result<CanFrame, ErrorCode>)
    ensures
        cob_id > 0x7FF ==> r == Err::<CanFrame, ErrorCode>(ErrorCode::InvalidStandardId { cob_id }),
        cob_id <= 0x7FF && data@.len() > 8 ==> (r matches Err(
            ErrorCode::FrameCreationFailed { data: d },
        ) && d@ == data@),
        cob_id <= 0x7FF && data@.len() <= 8 ==> (r matches Ok(f) && f.cob_id == cob_id && f.data@
            == data@),
{
    if !is_standard_id(cob_id) {
        return Err(ErrorCode::InvalidStandardId { cob_id });
    }
    if data.len() > 8 {
        return Err(ErrorCode::FrameCreationFailed { data: copy_bytes(data) });
    }
    Ok(CanFrame { cob_id, data: copy_bytes(data) })
}

/// A frame with identifier `cob_id` whose payload is `data` cut or
/// zero-padded to eight bytes.
pub fn create_frame_with_padding(cob_id: u16, data: &[u8]) -> (r: Result<CanFrame, ErrorCode>)
    ensures
        cob_id > 0x7FF ==> r == Err::<CanFrame, ErrorCode>(ErrorCode::InvalidStandardId { cob_id }),
        cob_id <= 0x7FF ==> (r matches Ok(f) && f.cob_id == cob_id && f.data@ == fit8(data@)),
{
    let packet = fit_to_8(data);
    create_frame(cob_id, packet.as_slice())
}

/// The (index, sub-index) that an SDO request addresses: bytes 1 and 2
/// little-endian, then byte 3.
pub fn get_index_from_can_frame(frame: &CanFrame) -> (r: (u16, u8))
    requires
        frame.data@.len() >= 4,
    ensures
        r == ((frame.data@[1] as u16 + 256 * frame.data@[2] as u16) as u16, frame.data@[3]),
{
    ((frame.data[1] as u16) + 256 * (frame.data[2] as u16), frame.data[3])
}

} // verus!
