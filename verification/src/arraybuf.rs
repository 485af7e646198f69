//! The fixed-capacity buffers of `arrayvec` that the lexer and the code
//! generator fill, and `str::parse` for the digits of a number literal.
use vstd::prelude::*;
use arrayvec::ArrayString;
use arrayvec::ArrayVec;
use arrayvec::CapacityError;
use std::num::ParseIntError;

verus! {

#[verifier::external_type_specification]
#[verifier::external_body]
pub struct ExArrayString<const CAP: usize>(ArrayString<CAP>);

#[verifier::external_type_specification]
#[verifier::external_body]
#[verifier::reject_recursive_types(T)]
pub struct ExArrayVec<T, const CAP: usize>(ArrayVec<T, CAP>);

#[verifier::external_type_specification]
#[verifier::external_body]
#[verifier::reject_recursive_types(T)]
pub struct ExCapacityError<T>(CapacityError<T>);

#[verifier::external_type_specification]
#[verifier::external_body]
pub struct ExParseIntError(ParseIntError);

/// Whether every character is ASCII (one byte in UTF-8).
pub open spec fn all_ascii(s: Seq<char>) -> bool {
    forall|i: int| 0 <= i < s.len() ==> (#[trigger] s[i] as u32) < 128
}

/// The characters held by a 19-byte `ArrayString`.
pub uninterp spec fn digit_buf_chars(b: ArrayString<19>) -> Seq<char>;

/// The characters held by a 2-byte `ArrayString`.
pub uninterp spec fn op_buf_chars(b: ArrayString<2>) -> Seq<char>;

/// The values held by an `ArrayVec<u32, 6>`.
pub uninterp spec fn offset_buf_values(b: ArrayVec<u32, 6>) -> Seq<u32>;

/// `ArrayString::<19>::new`: an empty string.
#[verifier::external_body]
pub(crate) fn digit_buf_new() -> (r: ArrayString<19>)
    ensures
        digit_buf_chars(r) == Seq::<char>::empty(),
{
    ArrayString::new()
}

/// `ArrayString::<19>::try_push`: appends `c` when its UTF-8 bytes still fit in the
/// 19 bytes; otherwise fails and leaves the string as it was. With ASCII
/// contents and an ASCII `c` it fits exactly when fewer than 19 characters are held.
#[verifier::external_body]
pub(crate) fn digit_buf_try_push(b: &mut ArrayString<19>, c: char) -> (r: Result<
    (),
    CapacityError<char>,
>)
    ensures
        r is Ok ==> digit_buf_chars(*final(b)) == digit_buf_chars(*old(b)).push(c),
        r is Err ==> digit_buf_chars(*final(b)) == digit_buf_chars(*old(b)),
        all_ascii(digit_buf_chars(*old(b))) && (c as u32) < 128 ==> (r is Ok <==> digit_buf_chars(
            *old(b),
        ).len() < 19),
{
    b.try_push(c)
}

/// `ArrayString::<19>::as_str`: the held characters as a string slice.
#[verifier::external_body]
pub(crate) fn digit_buf_as_str(b: &ArrayString<19>) -> (r: &str)
    ensures
        r@ == digit_buf_chars(*b),
{
    b.as_str()
}

/// `ArrayString::<2>::new`: an empty string.
#[verifier::external_body]
pub(crate) fn op_buf_new() -> (r: ArrayString<2>)
    ensures
        op_buf_chars(r) == Seq::<char>::empty(),
{
    ArrayString::new()
}

/// `ArrayString::<2>::try_push`: appends `c` when its UTF-8 bytes still fit in the
/// 2 bytes; otherwise fails and leaves the string as it was. With ASCII contents
/// and an ASCII `c` it fits exactly when fewer than 2 characters are held.
#[verifier::external_body]
pub(crate) fn op_buf_try_push(b: &mut ArrayString<2>, c: char) -> (r: Result<
    (),
    CapacityError<char>,
>)
    ensures
        r is Ok ==> op_buf_chars(*final(b)) == op_buf_chars(*old(b)).push(c),
        r is Err ==> op_buf_chars(*final(b)) == op_buf_chars(*old(b)),
        all_ascii(op_buf_chars(*old(b))) && (c as u32) < 128 ==> (r is Ok <==> op_buf_chars(
            *old(b),
        ).len() < 2),
{
    b.try_push(c)
}

/// `ArrayString::<2>::as_str`: the held characters as a string slice.
#[verifier::external_body]
pub(crate) fn op_buf_as_str(b: &ArrayString<2>) -> (r: &str)
    ensures
        r@ == op_buf_chars(*b),
{
    b.as_str()
}

/// `ArrayVec::<u32, 6>::new`: an empty vector.
#[verifier::external_body]
pub(crate) fn offset_buf_new() -> (r: ArrayVec<u32, 6>)
    ensures
        offset_buf_values(r) == Seq::<u32>::empty(),
{
    ArrayVec::new()
}

/// `ArrayVec::<u32, 6>::push`: appends `v`; it panics when 6 values are held, which
/// `requires` rules out.
#[verifier::external_body]
pub(crate) fn offset_buf_push(b: &mut ArrayVec<u32, 6>, v: u32)
    requires
        offset_buf_values(*old(b)).len() < 6,
    ensures
        offset_buf_values(*final(b)) == offset_buf_values(*old(b)).push(v),
{
    b.push(v)
}

/// Indexing an `ArrayVec<u32, 6>` (through its slice): the value at `i`.
#[verifier::external_body]
pub(crate) fn offset_buf_get(b: &ArrayVec<u32, 6>, i: usize) -> (r: u32)
    requires
        i < offset_buf_values(*b).len(),
    ensures
        r == offset_buf_values(*b)[i as int],
{
    b[i]
}

/// Whether every character is a decimal digit.
pub open spec fn all_digits(s: Seq<char>) -> bool {
    forall|i: int| 0 <= i < s.len() ==> '0' <= #[trigger] s[i] <= '9'
}

/// The value of a string of decimal digits.
pub open spec fn decimal_value(ds: Seq<char>) -> nat
    decreases ds.len(),
{
    if ds.len() == 0 {
        0
    } else {
        decimal_value(ds.drop_last()) * 10 + ((ds.last() as int) - 48) as nat
    }
}

/// Whether a parse succeeded with value `v`.
pub open spec fn parsed_to(r: Result<u128, ParseIntError>, v: nat) -> bool {
    r matches Ok(x) && x == v
}

/// `str::parse::<u128>`: a non-empty string of decimal digits whose value fits in
/// 128 bits parses to that value. (What it does on other strings is left unsaid:
/// the lexer never hands it one.)
#[verifier::external_body]
pub(crate) fn parse_decimal_u128(s: &str) -> (r: Result<u128, ParseIntError>)
    ensures
        s@.len() > 0 && all_digits(s@) && decimal_value(s@) <= u128::MAX ==> parsed_to(
            r,
            decimal_value(s@),
        ),
{
    s.parse::<u128>()
}

} // verus!
