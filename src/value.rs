use vstd::prelude::*;
use vstd::string::*;
use vstd::utf8::*;
use crate::data_type::DataType;
use crate::error::ErrorCode;
use crate::text::{
    chars_of, eq_ignore_ascii_case, parse_signed_text, push_char, str_eq, text_value,
    MAGNITUDE_CAP,
};
use crate::util::{le_bytes, le_bytes_of, le_value, parse_number, spec_parse_number, ParseRadix};

verus! {

/// The value of an object dictionary entry: bytes, little-endian for numbers.
#[derive(Clone, Debug)]
pub struct Value {
    data: Vec<u8>,
}

impl View for Value {
    type V = Seq<u8>;

    closed spec fn view(&self) -> Seq<u8> {
        self.data@
    }
}

impl Value {
    pub fn new(data: Vec<u8>) -> (r: Self)
        ensures
            r@ == data@,
    {
        Self { data }
    }

    pub fn data(&self) -> (r: &Vec<u8>)
        ensures
            r@ == self@,
    {
        &self.data
    }

    pub fn set_data(&mut self, data: Vec<u8>)
        ensures
            final(self)@ == data@,
    {
        self.data = data;
    }

    pub fn as_slice(&self) -> (r: &[u8])
        ensures
            r@ == self@,
    {
        self.data.as_slice()
    }

    /// A copy holding the same bytes.
    pub fn copy(&self) -> (r: Self)
        ensures
            r@ == self@,
    {
        Value { data: crate::util::copy_bytes(self.data.as_slice()) }
    }

    /// The value holding the byte form of `val`.
    pub fn from<T: ByteConvertible>(val: T) -> (r: Self)
        ensures
            r@ == val.spec_to_bytes(),
    {
        let bytes = val.to_bytes();
        Self::new(bytes)
    }

    /// The value read back as a `T`.
    pub fn to<T: ByteConvertible>(&self) -> (r: T)
        ensures
            T::spec_from_bytes(self@, r),
    {
        T::from_bytes(self.as_slice())
    }
}

impl PartialEq for Value {
    fn eq(&self, other: &Self) -> (r: bool) {
        crate::util::bytes_eq(self.data.as_slice(), other.data.as_slice())
    }
}

impl vstd::std_specs::cmp::PartialEqSpecImpl for Value {
    open spec fn obeys_eq_spec() -> bool {
        true
    }

    open spec fn eq_spec(&self, other: &Value) -> bool {
        self@ == other@
    }
}

/// Types with a byte form: little-endian for integers, UTF-8 for strings.
pub trait ByteConvertible: Sized {
    /// Whether `r` is what `bytes` read back as.
    spec fn spec_from_bytes(bytes: Seq<u8>, r: Self) -> bool;

    spec fn spec_to_bytes(&self) -> Seq<u8>;

    fn from_bytes(bytes: &[u8]) -> (r: Self)
        ensures
            Self::spec_from_bytes(bytes@, r),
    ;

    fn to_bytes(&self) -> (r: Vec<u8>)
        ensures
            r@ == self.spec_to_bytes(),
    ;
}

impl ByteConvertible for u8 {
    /// The little-endian value of exactly 1 bytes; zero for any other length.
    open spec fn spec_from_bytes(bytes: Seq<u8>, r: u8) -> bool {
        r == if bytes.len() == 1 {
            (le_value(bytes) as u8) as u8
        } else {
            0
        }
    }

    open spec fn spec_to_bytes(&self) -> Seq<u8> {
        le_bytes((*self as u8) as nat, 1)
    }

    fn from_bytes(bytes: &[u8]) -> (r: u8) {
        if bytes.len() == 1 {
            (crate::util::le_u64(bytes) as u8) as u8
        } else {
            0
        }
    }

    fn to_bytes(&self) -> (r: Vec<u8>) {
        le_bytes_of((*self as u8) as u64, 1)
    }
}

impl ByteConvertible for u16 {
    /// The little-endian value of exactly 2 bytes; zero for any other length.
    open spec fn spec_from_bytes(bytes: Seq<u8>, r: u16) -> bool {
        r == if bytes.len() == 2 {
            (le_value(bytes) as u16) as u16
        } else {
            0
        }
    }

    open spec fn spec_to_bytes(&self) -> Seq<u8> {
        le_bytes((*self as u16) as nat, 2)
    }

    fn from_bytes(bytes: &[u8]) -> (r: u16) {
        if bytes.len() == 2 {
            (crate::util::le_u64(bytes) as u16) as u16
        } else {
            0
        }
    }

    fn to_bytes(&self) -> (r: Vec<u8>) {
        le_bytes_of((*self as u16) as u64, 2)
    }
}

impl ByteConvertible for u32 {
    /// The little-endian value of exactly 4 bytes; zero for any other length.
    open spec fn spec_from_bytes(bytes: Seq<u8>, r: u32) -> bool {
        r == if bytes.len() == 4 {
            (le_value(bytes) as u32) as u32
        } else {
            0
        }
    }

    open spec fn spec_to_bytes(&self) -> Seq<u8> {
        le_bytes((*self as u32) as nat, 4)
    }

    fn from_bytes(bytes: &[u8]) -> (r: u32) {
        if bytes.len() == 4 {
            (crate::util::le_u64(bytes) as u32) as u32
        } else {
            0
        }
    }

    fn to_bytes(&self) -> (r: Vec<u8>) {
        le_bytes_of((*self as u32) as u64, 4)
    }
}

impl ByteConvertible for u64 {
    /// The little-endian value of exactly 8 bytes; zero for any other length.
    open spec fn spec_from_bytes(bytes: Seq<u8>, r: u64) -> bool {
        r == if bytes.len() == 8 {
            (le_value(bytes) as u64) as u64
        } else {
            0
        }
    }

    open spec fn spec_to_bytes(&self) -> Seq<u8> {
        le_bytes((*self as u64) as nat, 8)
    }

    fn from_bytes(bytes: &[u8]) -> (r: u64) {
        if bytes.len() == 8 {
            (crate::util::le_u64(bytes) as u64) as u64
        } else {
            0
        }
    }

    fn to_bytes(&self) -> (r: Vec<u8>) {
        le_bytes_of((*self as u64) as u64, 8)
    }
}

impl ByteConvertible for i8 {
    /// The little-endian value of exactly 1 bytes; zero for any other length.
    open spec fn spec_from_bytes(bytes: Seq<u8>, r: i8) -> bool {
        r == if bytes.len() == 1 {
            (le_value(bytes) as u8) as i8
        } else {
            0
        }
    }

    open spec fn spec_to_bytes(&self) -> Seq<u8> {
        le_bytes((*self as u8) as nat, 1)
    }

    fn from_bytes(bytes: &[u8]) -> (r: i8) {
        if bytes.len() == 1 {
            (crate::util::le_u64(bytes) as u8) as i8
        } else {
            0
        }
    }

    fn to_bytes(&self) -> (r: Vec<u8>) {
        le_bytes_of((*self as u8) as u64, 1)
    }
}

impl ByteConvertible for i16 {
    /// The little-endian value of exactly 2 bytes; zero for any other length.
    open spec fn spec_from_bytes(bytes: Seq<u8>, r: i16) -> bool {
        r == if bytes.len() == 2 {
            (le_value(bytes) as u16) as i16
        } else {
            0
        }
    }

    open spec fn spec_to_bytes(&self) -> Seq<u8> {
        le_bytes((*self as u16) as nat, 2)
    }

    fn from_bytes(bytes: &[u8]) -> (r: i16) {
        if bytes.len() == 2 {
            (crate::util::le_u64(bytes) as u16) as i16
        } else {
            0
        }
    }

    fn to_bytes(&self) -> (r: Vec<u8>) {
        le_bytes_of((*self as u16) as u64, 2)
    }
}

impl ByteConvertible for i32 {
    /// The little-endian value of exactly 4 bytes; zero for any other length.
    open spec fn spec_from_bytes(bytes: Seq<u8>, r: i32) -> bool {
        r == if bytes.len() == 4 {
            (le_value(bytes) as u32) as i32
        } else {
            0
        }
    }

    open spec fn spec_to_bytes(&self) -> Seq<u8> {
        le_bytes((*self as u32) as nat, 4)
    }

    fn from_bytes(bytes: &[u8]) -> (r: i32) {
        if bytes.len() == 4 {
            (crate::util::le_u64(bytes) as u32) as i32
        } else {
            0
        }
    }

    fn to_bytes(&self) -> (r: Vec<u8>) {
        le_bytes_of((*self as u32) as u64, 4)
    }
}

impl ByteConvertible for i64 {
    /// The little-endian value of exactly 8 bytes; zero for any other length.
    open spec fn spec_from_bytes(bytes: Seq<u8>, r: i64) -> bool {
        r == if bytes.len() == 8 {
            (le_value(bytes) as u64) as i64
        } else {
            0
        }
    }

    open spec fn spec_to_bytes(&self) -> Seq<u8> {
        le_bytes((*self as u64) as nat, 8)
    }

    fn from_bytes(bytes: &[u8]) -> (r: i64) {
        if bytes.len() == 8 {
            (crate::util::le_u64(bytes) as u64) as i64
        } else {
            0
        }
    }

    fn to_bytes(&self) -> (r: Vec<u8>) {
        le_bytes_of((*self as u64) as u64, 8)
    }
}

/// Relies on String::from_utf8: it succeeds exactly on valid UTF-8 and then
/// holds the characters that the bytes encode.
#[verifier::external_body]
fn string_from_utf8(bytes: &[u8]) -> (r: Option<String>)
    ensures
        r is Some <==> valid_utf8(bytes@),
        r is Some ==> r->Some_0@ == decode_utf8(bytes@),
{
    String::from_utf8(bytes.to_vec()).ok()
}

impl ByteConvertible for String {
    /// The decoded text of valid UTF-8; the empty string otherwise.
    open spec fn spec_from_bytes(bytes: Seq<u8>, r: String) -> bool {
        r@ == if valid_utf8(bytes) {
            decode_utf8(bytes)
        } else {
            Seq::empty()
        }
    }

    open spec fn spec_to_bytes(&self) -> Seq<u8> {
        encode_utf8(self@)
    }

    fn from_bytes(bytes: &[u8]) -> (r: String) {
        match string_from_utf8(bytes) {
            Some(s) => s,
            None => String::new(),
        }
    }

    fn to_bytes(&self) -> (r: Vec<u8>) {
        crate::util::copy_bytes(self.as_str().as_bytes())
    }
}

/// The key/value pairs of one data sheet section, in the order read; a later
/// pair for the same key shadows an earlier one.
#[derive(Clone, Debug)]
pub struct Properties {
    entries: Vec<(String, String)>,
}

/// The value of the last pair whose key is `key`.
pub open spec fn lookup(entries: Seq<(Seq<char>, Seq<char>)>, key: Seq<char>) -> Option<Seq<char>>
    decreases entries.len(),
{
    if entries.len() == 0 {
        None
    } else if entries.last().0 == key {
        Some(entries.last().1)
    } else {
        lookup(entries.drop_last(), key)
    }
}

impl View for Properties {
    type V = Seq<(Seq<char>, Seq<char>)>;

    closed spec fn view(&self) -> Seq<(Seq<char>, Seq<char>)> {
        self.entries@.map_values(|e: (String, String)| (e.0@, e.1@))
    }
}

impl Properties {
    pub fn new() -> (r: Self)
        ensures
            r@ == Seq::<(Seq<char>, Seq<char>)>::empty(),
    {
        let r = Properties { entries: Vec::new() };
        assert(r@ =~= Seq::<(Seq<char>, Seq<char>)>::empty());
        r
    }

    /// Records `key = value`, shadowing any earlier value of `key`.
    pub fn insert(&mut self, key: String, value: String)
        ensures
            final(self)@ == old(self)@.push((key@, value@)),
    {
        self.entries.push((key, value));
        assert(self@ =~= old(self)@.push((key@, value@)));
    }

    pub fn len(&self) -> (r: usize)
        ensures
            r == self@.len(),
    {
        self.entries.len()
    }

    /// The current value of `key`.
    pub fn get(&self, key: &str) -> (r: Option<&String>)
        ensures
            match r {
                Some(v) => lookup(self@, key@) == Some(v@),
                None => lookup(self@, key@) is None,
            },
    {
        let mut i: usize = self.entries.len();
        assert(self@.subrange(0, i as int) =~= self@);
        while i > 0
            invariant
                i <= self.entries@.len(),
                lookup(self@, key@) == lookup(self@.subrange(0, i as int), key@),
            decreases i,
        {
            let e = &self.entries[i - 1];
            proof {
                assert(self@.subrange(0, i as int).last() == (e.0@, e.1@));
                assert(self@.subrange(0, i as int).drop_last() =~= self@.subrange(0, i - 1));
            }
            if str_eq(e.0.as_str(), key) {
                return Some(&e.1);
            }
            i = i - 1;
        }
        None
    }

    /// Whether `key` has a value.
    pub fn contains_key(&self, key: &str) -> (r: bool)
        ensures
            r == lookup(self@, key@) is Some,
    {
        self.get(key).is_some()
    }
}

/// The error for text that does not convert to `data_type`.
pub fn make_error(data_type: DataType, data_string: &str) -> (r: ErrorCode)
    ensures
        r matches ErrorCode::StringToValueFailed { data_type: d, str: t } && d == data_type && t@
            == data_string@,
{
    ErrorCode::StringToValueFailed { data_type, str: data_string.to_owned() }
}

pub open spec fn true_text() -> Seq<char> {
    seq!['t', 'r', 'u', 'e']
}

pub open spec fn false_text() -> Seq<char> {
    seq!['f', 'a', 'l', 's', 'e']
}

/// The byte form of `s` read as a value of `dt`, or `None` where the text is
/// rejected. Integers go through `parse_number` (invalid text reads as
/// zero); booleans accept `true`/`1` and `false`/`0` in any case; strings
/// keep their UTF-8 bytes; a domain must be a decimal 32-bit integer.
/// Floating-point text is rejected: the library holds no floating point.
pub open spec fn spec_string_to_value(dt: DataType, s: Seq<char>) -> Option<Seq<u8>> {
    match dt {
        DataType::Unknown | DataType::Real32 | DataType::Real64 => None,
        DataType::Boolean => if eq_ignore_ascii_case(s, true_text()) || s == seq!['1'] {
            Some(seq![1u8])
        } else if eq_ignore_ascii_case(s, false_text()) || s == seq!['0'] {
            Some(seq![0u8])
        } else {
            None
        },
        DataType::Integer8 => Some(spec_parse_number::<i8>(s).spec_to_bytes()),
        DataType::Integer16 => Some(spec_parse_number::<i16>(s).spec_to_bytes()),
        DataType::Integer32 => Some(spec_parse_number::<i32>(s).spec_to_bytes()),
        DataType::Integer64 => Some(spec_parse_number::<i64>(s).spec_to_bytes()),
        DataType::Unsigned8 => Some(spec_parse_number::<u8>(s).spec_to_bytes()),
        DataType::Unsigned16 => Some(spec_parse_number::<u16>(s).spec_to_bytes()),
        DataType::Unsigned32 => Some(spec_parse_number::<u32>(s).spec_to_bytes()),
        DataType::Unsigned64 => Some(spec_parse_number::<u64>(s).spec_to_bytes()),
        DataType::VisibleString | DataType::OctetString | DataType::UnicodeString => Some(
            encode_utf8(s),
        ),
        DataType::Domain => match <i32 as ParseRadix>::spec_from_decimal(s) {
            Some(v) => Some(v.spec_to_bytes()),
            None => None,
        },
    }
}

fn is_bool_text(s: &str, word: &str, digit: &str) -> (r: bool)
    ensures
        r == (eq_ignore_ascii_case(s@, word@) || s@ == digit@),
{
    let cs = chars_of(s);
    let a = cs.len() == word.unicode_len() && crate::text::slice_eq_ignore_ascii_case(
        &cs,
        0,
        word,
    );
    proof {
        if cs@.len() == word@.len() {
            assert(cs@.subrange(0, word@.len() as int) =~= s@);
        }
    }
    a || str_eq(s, digit)
}

/// Converts data sheet text to the byte form of a value of `data_type`.
pub fn string_to_value(data_type: &DataType, data_string: &str) -> (r: Result<Value, ErrorCode>)
    ensures
        match spec_string_to_value(*data_type, data_string@) {
            Some(b) => r matches Ok(v) && v@ == b,
            None => r matches Err(ErrorCode::StringToValueFailed { data_type: d, str: t }) && d
                == *data_type && t@ == data_string@,
        },
{
    match data_type {
        DataType::Unknown | DataType::Real32 | DataType::Real64 => Err(
            make_error(*data_type, data_string),
        ),
        DataType::Boolean => {
            proof {
                reveal_strlit("true");
                reveal_strlit("false");
                reveal_strlit("1");
                reveal_strlit("0");
                assert("true"@ =~= true_text());
                assert("false"@ =~= false_text());
                assert("1"@ =~= seq!['1']);
                assert("0"@ =~= seq!['0']);
            }
            if is_bool_text(data_string, "true", "1") {
                let v = Value::new(vec![1u8]);
                assert(v@ =~= seq![1u8]);
                Ok(v)
            } else if is_bool_text(data_string, "false", "0") {
                let v = Value::new(vec![0u8]);
                assert(v@ =~= seq![0u8]);
                Ok(v)
            } else {
                Err(make_error(*data_type, data_string))
            }
        },
        DataType::Integer8 => Ok(Value::new(parse_number::<i8>(data_string).to_bytes())),
        DataType::Integer16 => Ok(Value::new(parse_number::<i16>(data_string).to_bytes())),
        DataType::Integer32 => Ok(Value::new(parse_number::<i32>(data_string).to_bytes())),
        DataType::Integer64 => Ok(Value::new(parse_number::<i64>(data_string).to_bytes())),
        DataType::Unsigned8 => Ok(Value::new(parse_number::<u8>(data_string).to_bytes())),
        DataType::Unsigned16 => Ok(Value::new(parse_number::<u16>(data_string).to_bytes())),
        DataType::Unsigned32 => Ok(Value::new(parse_number::<u32>(data_string).to_bytes())),
        DataType::Unsigned64 => Ok(Value::new(parse_number::<u64>(data_string).to_bytes())),
        DataType::VisibleString | DataType::OctetString | DataType::UnicodeString => Ok(
            Value::new(crate::util::copy_bytes(data_string.as_bytes())),
        ),
        DataType::Domain => match <i32 as ParseRadix>::from_decimal(data_string) {
            Some(v) => Ok(Value::new(v.to_bytes())),
            None => Err(make_error(*data_type, data_string)),
        },
    }
}

/// The character of a decimal digit.
pub open spec fn digit_char(d: nat) -> char {
    if d == 0 {
        '0'
    } else if d == 1 {
        '1'
    } else if d == 2 {
        '2'
    } else if d == 3 {
        '3'
    } else if d == 4 {
        '4'
    } else if d == 5 {
        '5'
    } else if d == 6 {
        '6'
    } else if d == 7 {
        '7'
    } else if d == 8 {
        '8'
    } else {
        '9'
    }
}

fn digit_char_exec(d: u64) -> (r: char)
    requires
        d < 10,
    ensures
        r == digit_char(d as nat),
{
    if d == 0 {
        '0'
    } else if d == 1 {
        '1'
    } else if d == 2 {
        '2'
    } else if d == 3 {
        '3'
    } else if d == 4 {
        '4'
    } else if d == 5 {
        '5'
    } else if d == 6 {
        '6'
    } else if d == 7 {
        '7'
    } else if d == 8 {
        '8'
    } else {
        '9'
    }
}

/// The decimal digits of `n`.
pub open spec fn nat_digits(n: nat) -> Seq<char>
    decreases n,
{
    if n < 10 {
        seq![digit_char(n)]
    } else {
        nat_digits(n / 10).push(digit_char(n % 10))
    }
}

/// The decimal text of `v`, with a leading `-` when negative.
pub open spec fn decimal_text(v: int) -> Seq<char> {
    if v < 0 {
        seq!['-'] + nat_digits((-v) as nat)
    } else {
        nat_digits(v as nat)
    }
}

fn push_digits(s: &mut String, n: u64)
    ensures
        final(s)@ == old(s)@ + nat_digits(n as nat),
    decreases n,
{
    if n >= 10 {
        push_digits(s, n / 10);
    }
    let c = digit_char_exec(n % 10);
    push_char(s, c);
    assert(final(s)@ =~= old(s)@ + nat_digits(n as nat));
}

/// The decimal text of `v`.
pub fn decimal_string(v: i64) -> (r: String)
    ensures
        r@ == decimal_text(v as int),
{
    let mut s = String::new();
    if v < 0 {
        push_char(&mut s, '-');
        let m: u64 = (-(v as i128)) as u64;
        push_digits(&mut s, m);
    } else {
        push_digits(&mut s, v as u64);
    }
    assert(s@ =~= decimal_text(v as int));
    s
}

/// The placeholder for the node id in data sheet expressions.
pub open spec fn node_id_token() -> Seq<char> {
    seq!['$', 'N', 'O', 'D', 'E', 'I', 'D']
}

pub open spec fn starts_with(s: Seq<char>, p: Seq<char>) -> bool {
    p.len() <= s.len() && s.subrange(0, p.len() as int) == p
}

/// `s` with each occurrence of `p` replaced by `rep`, scanning left to
/// right without overlap.
pub open spec fn replace_all(s: Seq<char>, p: Seq<char>, rep: Seq<char>) -> Seq<char>
    decreases s.len(),
{
    if s.len() == 0 || p.len() == 0 {
        s
    } else if starts_with(s, p) {
        rep + replace_all(s.subrange(p.len() as int, s.len() as int), p, rep)
    } else {
        seq![s[0]] + replace_all(s.drop_first(), p, rep)
    }
}

pub open spec fn contains(s: Seq<char>, p: Seq<char>) -> bool {
    exists|i: int| 0 <= i <= s.len() - p.len() && #[trigger] s.subrange(i, i + p.len()) == p
}

/// The pieces of `s` between `+` signs.
pub open spec fn split_plus(s: Seq<char>) -> Seq<Seq<char>>
    decreases s.len(),
{
    if s.len() == 0 {
        seq![Seq::<char>::empty()]
    } else if s.last() == '+' {
        split_plus(s.drop_last()).push(Seq::<char>::empty())
    } else {
        let p = split_plus(s.drop_last());
        p.update(p.len() - 1, p.last().push(s.last()))
    }
}

/// Unicode white space, as `char::is_whitespace` has it.
pub open spec fn is_white(c: char) -> bool {
    c == ' ' || ('\t' <= c && c <= '\r') || c == '\u{85}' || c == '\u{A0}' || c == '\u{1680}' || (
    '\u{2000}' <= c && c <= '\u{200A}') || c == '\u{2028}' || c == '\u{2029}' || c == '\u{202F}'
        || c == '\u{205F}' || c == '\u{3000}'
}

pub open spec fn trim_start(s: Seq<char>) -> Seq<char>
    decreases s.len(),
{
    if s.len() > 0 && is_white(s[0]) {
        trim_start(s.drop_first())
    } else {
        s
    }
}

pub open spec fn trim_end(s: Seq<char>) -> Seq<char>
    decreases s.len(),
{
    if s.len() > 0 && is_white(s.last()) {
        trim_end(s.drop_last())
    } else {
        s
    }
}

pub open spec fn trim(s: Seq<char>) -> Seq<char> {
    trim_end(trim_start(s))
}

/// The 64-bit integer that a term spells, hexadecimal after `0x`/`0X`.
pub open spec fn term_value(t: Seq<char>) -> Option<i64> {
    let v = if crate::util::has_hex_prefix(t) {
        text_value(t.subrange(2, t.len() as int), 16, true)
    } else {
        text_value(t, 10, true)
    };
    match v {
        Some(x) => if i64::MIN <= x <= i64::MAX {
            Some(x as i64)
        } else {
            None
        },
        None => None,
    }
}

/// The sum of the terms that are integers, left to right, in 64-bit
/// two's complement; the others count as nothing.
pub open spec fn sum_terms(ts: Seq<Seq<char>>) -> i64
    decreases ts.len(),
{
    if ts.len() == 0 {
        0
    } else {
        let v = match term_value(trim(ts.last())) {
            Some(x) => x,
            None => 0i64,
        };
        sum_terms(ts.drop_last()).wrapping_add(v)
    }
}

/// What an expression evaluates to for `node_id`: `$NODEID` replaced by
/// its decimal text, then the `+`-separated integer terms summed.
pub open spec fn spec_evaluate(node_id: u8, expression: Seq<char>) -> Seq<char> {
    decimal_text(
        sum_terms(
            split_plus(replace_all(expression, node_id_token(), decimal_text(node_id as int))),
        ) as int,
    )
}

fn sub_chars(cs: &Vec<char>, from: usize, to: usize) -> (r: Vec<char>)
    requires
        from <= to <= cs@.len(),
    ensures
        r@ == cs@.subrange(from as int, to as int),
{
    let mut r: Vec<char> = Vec::new();
    let mut i: usize = from;
    while i < to
        invariant
            from <= i <= to <= cs@.len(),
            r@ == cs@.subrange(from as int, i as int),
        decreases to - i,
    {
        r.push(cs[i]);
        i = i + 1;
    }
    r
}

fn is_white_exec(c: char) -> (r: bool)
    ensures
        r == is_white(c),
{
    c == ' ' || ('\t' <= c && c <= '\r') || c == '\u{85}' || c == '\u{A0}' || c == '\u{1680}' || (
    '\u{2000}' <= c && c <= '\u{200A}') || c == '\u{2028}' || c == '\u{2029}' || c == '\u{202F}'
        || c == '\u{205F}' || c == '\u{3000}'
}

proof fn lemma_trim_start_skip(s: Seq<char>, i: int)
    requires
        0 <= i <= s.len(),
        forall|k: int| 0 <= k < i ==> is_white(#[trigger] s[k]),
    ensures
        trim_start(s) == trim_start(s.subrange(i, s.len() as int)),
    decreases i,
{
    if i > 0 {
        assert(s.drop_first().subrange(i - 1, s.drop_first().len() as int) =~= s.subrange(
            i,
            s.len() as int,
        ));
        lemma_trim_start_skip(s.drop_first(), i - 1);
    } else {
        assert(s.subrange(0, s.len() as int) =~= s);
    }
}

proof fn lemma_trim_end_skip(s: Seq<char>, j: int)
    requires
        0 <= j <= s.len(),
        forall|k: int| j <= k < s.len() ==> is_white(#[trigger] s[k]),
    ensures
        trim_end(s) == trim_end(s.subrange(0, j)),
    decreases s.len() - j,
{
    if j < s.len() {
        assert(s.drop_last().subrange(0, j) =~= s.subrange(0, j));
        lemma_trim_end_skip(s.drop_last(), j);
    } else {
        assert(s.subrange(0, j) =~= s);
    }
}

/// The characters of `trim(cs)`.
fn trim_chars(cs: &Vec<char>) -> (r: Vec<char>)
    ensures
        r@ == trim(cs@),
{
    let n = cs.len();
    let mut i: usize = 0;
    while i < n && is_white_exec(cs[i])
        invariant
            i <= n == cs@.len(),
            forall|k: int| 0 <= k < i ==> is_white(#[trigger] cs@[k]),
        decreases n - i,
    {
        i = i + 1;
    }
    let mut j: usize = n;
    while j > i && is_white_exec(cs[j - 1])
        invariant
            i <= j <= n == cs@.len(),
            forall|k: int| j <= k < n ==> is_white(#[trigger] cs@[k]),
        decreases j,
    {
        j = j - 1;
    }
    proof {
        lemma_trim_start_skip(cs@, i as int);
        let t = cs@.subrange(i as int, n as int);
        if i < n {
            assert(!is_white(t[0]));
        }
        assert(trim_start(t) == t);
        assert forall|k: int| j - i <= k < t.len() implies is_white(#[trigger] t[k]) by {
            assert(t[k] == cs@[i + k]);
        }
        lemma_trim_end_skip(t, j - i);
        let u = t.subrange(0, j - i);
        assert(u =~= cs@.subrange(i as int, j as int));
        if j > i {
            assert(u.last() == cs@[j - 1]);
        }
        assert(trim_end(u) == u);
    }
    sub_chars(cs, i, j)
}

fn term_value_exec(t: &Vec<char>) -> (r: Option<i64>)
    ensures
        r == term_value(t@),
{
    let n = t.len();
    let v = if n >= 2 && t[0] == '0' && (t[1] == 'x' || t[1] == 'X') {
        let d = sub_chars(t, 2, n);
        crate::text::parse_signed_chars(&d, 16, true)
    } else {
        crate::text::parse_signed_chars(t, 10, true)
    };
    match v {
        Some(x) => if -0x8000_0000_0000_0000 <= x && x <= 0x7FFF_FFFF_FFFF_FFFF {
            Some(x as i64)
        } else {
            None
        },
        None => None,
    }
}

proof fn lemma_replace_step(s: Seq<char>, p: Seq<char>, rep: Seq<char>, i: int)
    requires
        0 <= i < s.len(),
        p.len() > 0,
    ensures
        starts_with(s.subrange(i, s.len() as int), p) ==> replace_all(
            s.subrange(i, s.len() as int),
            p,
            rep,
        ) == rep + replace_all(s.subrange(i + p.len(), s.len() as int), p, rep),
        !starts_with(s.subrange(i, s.len() as int), p) ==> replace_all(
            s.subrange(i, s.len() as int),
            p,
            rep,
        ) == seq![s[i]] + replace_all(s.subrange(i + 1, s.len() as int), p, rep),
{
    let t = s.subrange(i, s.len() as int);
    if starts_with(t, p) {
        assert(t.subrange(p.len() as int, t.len() as int) =~= s.subrange(
            i + p.len(),
            s.len() as int,
        ));
    } else {
        assert(t.drop_first() =~= s.subrange(i + 1, s.len() as int));
    }
}

fn token_at(cs: &Vec<char>, i: usize) -> (r: bool)
    requires
        i <= cs@.len(),
    ensures
        r == starts_with(cs@.subrange(i as int, cs@.len() as int), node_id_token()),
{
    let n = cs.len();
    if n - i < 7 {
        return false;
    }
    let r = cs[i] == '$' && cs[i + 1] == 'N' && cs[i + 2] == 'O' && cs[i + 3] == 'D' && cs[i + 4]
        == 'E' && cs[i + 5] == 'I' && cs[i + 6] == 'D';
    proof {
        let t = cs@.subrange(i as int, n as int).subrange(0, 7);
        if r {
            assert(t =~= node_id_token());
        } else {
            assert(t != node_id_token()) by {
                if t == node_id_token() {
                    assert(t[0] == cs@[i as int]);
                    assert(t[1] == cs@[i + 1]);
                    assert(t[2] == cs@[i + 2]);
                    assert(t[3] == cs@[i + 3]);
                    assert(t[4] == cs@[i + 4]);
                    assert(t[5] == cs@[i + 5]);
                    assert(t[6] == cs@[i + 6]);
                }
            }
        }
    }
    r
}

/// Evaluates a data sheet expression such as `$NODEID + 0x600`: the node id
/// replaces `$NODEID`, then the `+`-separated integer terms are summed and
/// the sum is returned in decimal.
pub fn evaluate_expression_with_node_id(node_id: u8, expression: &str) -> (r: String)
    ensures
        r@ == spec_evaluate(node_id, expression@),
{
    let cs = chars_of(expression);
    let nid = chars_of(decimal_string(node_id as i64).as_str());
    let ghost rep = decimal_text(node_id as int);
    let ghost full = replace_all(cs@, node_id_token(), rep);
    let n = cs.len();
    let mut out: Vec<char> = Vec::new();
    let mut i: usize = 0;
    assert(cs@.subrange(0, n as int) =~= cs@);
    assert(full =~= out@ + replace_all(cs@.subrange(0, n as int), node_id_token(), rep));
    while i < n
        invariant
            n == cs@.len(),
            i <= n,
            nid@ == rep,
            full == replace_all(cs@, node_id_token(), rep),
            full == out@ + replace_all(cs@.subrange(i as int, n as int), node_id_token(), rep),
        decreases n - i,
    {
        proof {
            lemma_replace_step(cs@, node_id_token(), rep, i as int);
        }
        if token_at(&cs, i) {
            let ghost before = out@;
            let mut k: usize = 0;
            while k < nid.len()
                invariant
                    k <= nid@.len(),
                    out@ == before + nid@.subrange(0, k as int),
                decreases nid@.len() - k,
            {
                out.push(nid[k]);
                assert(out@ =~= before + nid@.subrange(0, k + 1));
                k = k + 1;
            }
            assert(nid@.subrange(0, k as int) =~= nid@);
            assert(full =~= out@ + replace_all(cs@.subrange(i + 7, n as int), node_id_token(), rep));
            i = i + 7;
        } else {
            let ghost before = out@;
            out.push(cs[i]);
            assert(full =~= out@ + replace_all(cs@.subrange(i + 1, n as int), node_id_token(), rep));
            i = i + 1;
        }
    }
    assert(cs@.subrange(n as int, n as int) =~= Seq::<char>::empty());
    assert(out@ =~= full);
    // Sum the `+`-separated terms.
    let mut acc: i64 = 0;
    let mut current: Vec<char> = Vec::new();
    let mut j: usize = 0;
    let m = out.len();
    while j < m
        invariant
            m == out@.len(),
            j <= m,
            split_plus(out@.subrange(0, j as int)).len() >= 1,
            acc == sum_terms(split_plus(out@.subrange(0, j as int)).drop_last()),
            current@ == split_plus(out@.subrange(0, j as int)).last(),
        decreases m - j,
    {
        let c = out[j];
        let ghost pre = out@.subrange(0, j as int);
        let ghost next = out@.subrange(0, j + 1);
        assert(next.drop_last() =~= pre);
        if c == '+' {
            let t = trim_chars(&current);
            let v = match term_value_exec(&t) {
                Some(x) => x,
                None => 0,
            };
            proof {
                let sp = split_plus(pre);
                assert(split_plus(next) == sp.push(Seq::<char>::empty()));
                assert(split_plus(next).drop_last() =~= sp);
                assert(sp.drop_last() == sp.subrange(0, sp.len() - 1));
            }
            acc = acc.wrapping_add(v);
            current = Vec::new();
            assert(current@ =~= split_plus(next).last());
        } else {
            current.push(c);
            proof {
                let sp = split_plus(pre);
                assert(split_plus(next) == sp.update(sp.len() - 1, sp.last().push(c)));
                assert(split_plus(next).drop_last() =~= sp.drop_last());
            }
        }
        j = j + 1;
    }
    let t = trim_chars(&current);
    let v = match term_value_exec(&t) {
        Some(x) => x,
        None => 0,
    };
    acc = acc.wrapping_add(v);
    proof {
        let sp = split_plus(out@.subrange(0, j as int));
        assert(out@.subrange(0, j as int) =~= out@);
        assert(sum_terms(sp) == sum_terms(sp.drop_last()).wrapping_add(v));
    }
    decimal_string(acc)
}

/// Whether `cs` holds `$NODEID` anywhere.
fn contains_token(cs: &Vec<char>) -> (r: bool)
    ensures
        r == contains(cs@, node_id_token()),
{
    let n = cs.len();
    let mut i: usize = 0;
    while i < n
        invariant
            i <= n == cs@.len(),
            forall|k: int| 0 <= k < i ==> #[trigger] cs@.subrange(k, k + 7) != node_id_token() || k + 7 > n,
        decreases n - i,
    {
        if token_at(cs, i) {
            assert(cs@.subrange(i as int, n as int).subrange(0, 7) =~= cs@.subrange(i as int, i + 7));
            return true;
        }
        proof {
            if i + 7 <= n {
                assert(cs@.subrange(i as int, n as int).subrange(0, 7) =~= cs@.subrange(i as int, i + 7));
            }
        }
        i = i + 1;
    }
    proof {
        if contains(cs@, node_id_token()) {
            let k = choose|k: int| 0 <= k <= cs@.len() - 7 && #[trigger] cs@.subrange(k, k + 7) == node_id_token();
            assert(cs@.subrange(k, k + 7) != node_id_token() || k + 7 > n);
        }
    }
    false
}

/// What a property of a variable section reads as: `None` when absent or
/// empty, or when its text does not convert to `dt`; expressions with
/// `$NODEID` are evaluated first.
pub open spec fn spec_formatted_value(p: Seq<(Seq<char>, Seq<char>)>, name: Seq<char>, node_id: u8, dt: DataType) -> Option<Seq<u8>> {
    match lookup(p, name) {
        Some(raw) => if raw.len() == 0 {
            None
        } else if contains(raw, node_id_token()) {
            spec_string_to_value(dt, spec_evaluate(node_id, raw))
        } else {
            spec_string_to_value(dt, raw)
        },
        None => None,
    }
}

/// The value of property `property_name` converted to `data_type`.
pub fn get_formatted_value_from_properties(
    properties: &Properties,
    property_name: &str,
    node_id: u8,
    data_type: &DataType,
) -> (r: Option<Value>)
    ensures
        match spec_formatted_value(properties@, property_name@, node_id, *data_type) {
            Some(b) => r matches Some(v) && v@ == b,
            None => r is None,
        },
{
    let raw = match properties.get(property_name) {
        Some(value) => value,
        None => return None,
    };
    if raw.as_str().unicode_len() == 0 {
        return None;
    }
    let cs = chars_of(raw.as_str());
    let res = if contains_token(&cs) {
        let modified = evaluate_expression_with_node_id(node_id, raw.as_str());
        string_to_value(data_type, modified.as_str())
    } else {
        string_to_value(data_type, raw.as_str())
    };
    match res {
        Ok(val) => Some(val),
        Err(_) => None,
    }
}

proof fn lemma_replace_none(t: Seq<char>, rep: Seq<char>)
    requires
        forall|i: int| 0 <= i < t.len() ==> t[i] != '$',
    ensures
        replace_all(t, node_id_token(), rep) == t,
    decreases t.len(),
{
    if t.len() > 0 {
        if starts_with(t, node_id_token()) {
            assert(t.subrange(0, 7)[0] == t[0]);
        }
        assert forall|i: int| 0 <= i < t.drop_first().len() implies t.drop_first()[i] != '$' by {
            assert(t.drop_first()[i] == t[i + 1]);
        }
        lemma_replace_none(t.drop_first(), rep);
        assert(seq![t[0]] + t.drop_first() =~= t);
    }
}

proof fn lemma_split_no_plus(a: Seq<char>)
    requires
        forall|i: int| 0 <= i < a.len() ==> a[i] != '+',
    ensures
        split_plus(a) == seq![a],
    decreases a.len(),
{
    if a.len() > 0 {
        assert forall|i: int| 0 <= i < a.drop_last().len() implies a.drop_last()[i] != '+' by {
            assert(a.drop_last()[i] == a[i]);
        }
        lemma_split_no_plus(a.drop_last());
        assert(a.drop_last().push(a.last()) =~= a);
        assert(a.last() != '+');
        assert(seq![a.drop_last()].update(0, a.drop_last().push(a.last())) =~= seq![a]);
    } else {
        assert(a =~= Seq::<char>::empty());
        assert(split_plus(a) =~= seq![a]);
    }
}

proof fn lemma_split_append(a: Seq<char>, b: Seq<char>)
    requires
        forall|i: int| 0 <= i < b.len() ==> b[i] != '+',
        split_plus(a).len() >= 1,
    ensures
        split_plus(a + b) == split_plus(a).update(split_plus(a).len() - 1, split_plus(a).last() + b),
        split_plus(a + b).len() == split_plus(a).len(),
    decreases b.len(),
{
    let p = split_plus(a);
    if b.len() == 0 {
        assert(a + b =~= a);
        assert(p.update(p.len() - 1, p.last() + b) =~= p);
    } else {
        assert forall|i: int| 0 <= i < b.drop_last().len() implies b.drop_last()[i] != '+' by {
            assert(b.drop_last()[i] == b[i]);
        }
        lemma_split_append(a, b.drop_last());
        assert((a + b).drop_last() =~= a + b.drop_last());
        assert((a + b).last() == b[b.len() - 1]);
        let q = split_plus(a + b.drop_last());
        assert(b.last() != '+');
        assert((p.last() + b.drop_last()).push(b.last()) =~= p.last() + b);
        assert(q.last() == p.last() + b.drop_last());
        assert(q.update(q.len() - 1, q.last().push(b.last())) =~= p.update(p.len() - 1, p.last() + b));
    }
}

proof fn lemma_split_len(s: Seq<char>)
    ensures
        split_plus(s).len() >= 1,
    decreases s.len(),
{
    if s.len() > 0 {
        lemma_split_len(s.drop_last());
    }
}

proof fn lemma_nat_digits(n: nat)
    ensures
        nat_digits(n).len() >= 1,
        all_digits_dec(nat_digits(n)),
        crate::text::digits_value(nat_digits(n), 10) == n,
    decreases n,
{
    if n >= 10 {
        lemma_nat_digits(n / 10);
        let d = nat_digits(n / 10);
        let c = digit_char(n % 10);
        assert(nat_digits(n) == d.push(c));
        assert(nat_digits(n).drop_last() =~= d);
        assert(forall|i: int| 0 <= i < d.len() ==> #[trigger] nat_digits(n)[i] == d[i]);
        assert(crate::text::digit_value(c) == n % 10);
        assert(nat_digits(n).last() == c);
        assert((n / 10) * 10 + n % 10 == n) by (nonlinear_arith);
        assert(crate::text::digits_value(nat_digits(n), 10) == crate::text::digits_value(d, 10) * 10 + crate::text::digit_value(c));
    } else {
        assert(nat_digits(n).drop_last() =~= Seq::<char>::empty());
        assert(nat_digits(n).last() == digit_char(n));
        assert(crate::text::digit_value(digit_char(n)) == n);
        assert(crate::text::digits_value(nat_digits(n), 10) == crate::text::digits_value(Seq::<char>::empty(), 10) * 10 + crate::text::digit_value(digit_char(n)));
    }
}

/// Every character is an ASCII decimal digit.
pub open spec fn all_digits_dec(s: Seq<char>) -> bool {
    forall|i: int| 0 <= i < s.len() ==> '0' <= #[trigger] s[i] && s[i] <= '9'
}

/// A data sheet expression `$NODEID + 0x600` evaluates, for every node id
/// `n`, to the decimal text of `n + 0x600`.
pub proof fn lemma_node_id_plus_0x600(n: u8)
    ensures
        spec_evaluate(n, "$NODEID + 0x600"@) == decimal_text(n as int + 0x600),
{
    reveal_strlit("$NODEID + 0x600");
    let s = "$NODEID + 0x600"@;
    let tok = node_id_token();
    let rest = seq![' ', '+', ' ', '0', 'x', '6', '0', '0'];
    assert(s =~= tok + rest);
    let rep = decimal_text(n as int);
    lemma_nat_digits(n as nat);
    assert(rep == nat_digits(n as nat));
    // The placeholder is replaced once.
    assert(starts_with(s, tok)) by {
        assert(s.subrange(0, 7) =~= tok);
    }
    assert(s.subrange(7, s.len() as int) =~= rest);
    lemma_replace_none(rest, rep);
    let x = rep + rest;
    assert(replace_all(s, tok, rep) == x);
    // The pieces between the plus signs.
    let a = rep + seq![' '];
    assert forall|i: int| 0 <= i < a.len() implies a[i] != '+' by {
        if i < rep.len() {
            assert(a[i] == rep[i]);
        }
    }
    lemma_split_no_plus(a);
    let ap = a + seq!['+'];
    assert(ap.drop_last() =~= a);
    assert(split_plus(ap) == seq![a].push(Seq::<char>::empty()));
    let b = seq![' ', '0', 'x', '6', '0', '0'];
    lemma_split_append(ap, b);
    assert(x =~= ap + b);
    let pieces = split_plus(x);
    assert(pieces =~= seq![a, b]);
    // The first term is the node id.
    assert(trim_start(a) == a) by {
        assert(a[0] == rep[0]);
    }
    assert(a.drop_last() =~= rep);
    assert(trim_end(rep) == rep) by {
        assert(rep.last() == rep[rep.len() - 1]);
    }
    assert(trim(a) == rep);
    assert(!crate::util::has_hex_prefix(rep)) by {
        if rep.len() >= 2 {
            assert('0' <= rep[1] && rep[1] <= '9');
        }
    }
    assert(text_value(rep, 10, true) == Some(n as int)) by {
        assert(rep[0] != '-' && rep[0] != '+');
        assert forall|i: int| 0 <= i < rep.len() implies crate::text::is_digit(#[trigger] rep[i], 10) by {}
    }
    assert(term_value(trim(a)) == Some(n as i64));
    // The second term is 0x600.
    assert(trim_start(b) == trim_start(b.drop_first()));
    let h = seq!['0', 'x', '6', '0', '0'];
    assert(b.drop_first() =~= h);
    assert(trim_start(h) == h);
    assert(trim_end(h) == h);
    assert(trim(b) == h);
    let d = seq!['6', '0', '0'];
    assert(h.subrange(2, 5) =~= d);
    assert(crate::text::digits_value(d, 16) == 0x600) by {
        assert(d.drop_last() =~= seq!['6', '0']);
        assert(d.drop_last().drop_last() =~= seq!['6']);
        assert(d.drop_last().drop_last().drop_last() =~= Seq::<char>::empty());
        reveal_with_fuel(crate::text::digits_value, 4);
    }
    assert(text_value(d, 16, true) == Some(0x600int)) by {
        assert forall|i: int| 0 <= i < d.len() implies crate::text::is_digit(#[trigger] d[i], 16) by {}
    }
    assert(term_value(trim(b)) == Some(0x600i64));
    // The sum.
    assert(pieces.drop_last() =~= seq![a]);
    assert(seq![a].drop_last() =~= Seq::<Seq<char>>::empty());
    assert(seq![a].last() == a);
    assert(sum_terms(Seq::<Seq<char>>::empty()) == 0);
    assert(sum_terms(seq![a]) == (0i64).wrapping_add(n as i64)) by {
        reveal_with_fuel(sum_terms, 2);
    }
    assert(pieces.len() == 2 && pieces.last() == b);
    assert(sum_terms(pieces) == sum_terms(seq![a]).wrapping_add(0x600i64));
    assert((0i64).wrapping_add(n as i64) == n as i64);
    assert((n as i64).wrapping_add(0x600i64) == (n as int + 0x600) as i64);
}

} // verus!
