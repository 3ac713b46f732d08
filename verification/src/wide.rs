//! Numbers of 128 bits in JSON: written as text, since not every reader can hold them as
//! numbers, and read from either.
use vstd::prelude::*;

use crate::text::{chars_of, dec, law_numerals_are_read_back, parse_wide, string_of, to_dec, wide_value};

verus! {

/// A value of JSON that may stand for a number or for none.
pub enum WideJson {
    Null,
    Text(String),
    Unsigned(u64),
    Signed(i64),
}

/// What a [`WideJson`] is.
pub enum WideJsonView {
    Null,
    Text(Seq<char>),
    Unsigned(u64),
    Signed(i64),
}

impl View for WideJson {
    type V = WideJsonView;

    open spec fn view(&self) -> WideJsonView {
        match self {
            WideJson::Null => WideJsonView::Null,
            WideJson::Text(s) => WideJsonView::Text(s@),
            WideJson::Unsigned(n) => WideJsonView::Unsigned(*n),
            WideJson::Signed(n) => WideJsonView::Signed(*n),
        }
    }
}

/// A number as it is written.
pub open spec fn written(n: u128) -> WideJsonView {
    WideJsonView::Text(dec(n as nat))
}

/// An optional number as it is written.
pub open spec fn written_opt(n: Option<u128>) -> WideJsonView {
    match n {
        Some(n) => written(n),
        None => WideJsonView::Null,
    }
}

/// A signed number as one of 128 bits: a negative one counts down from the top.
pub open spec fn of_signed(v: i64) -> u128 {
    if v >= 0 {
        v as u128
    } else {
        (u128::MAX + 1 + v) as u128
    }
}

/// The number that a value stands for, if it stands for one.
pub open spec fn number_of(v: WideJsonView) -> Option<u128> {
    match v {
        WideJsonView::Null => None,
        WideJsonView::Text(s) => wide_value(s),
        WideJsonView::Unsigned(n) => Some(n as u128),
        WideJsonView::Signed(n) => Some(of_signed(n)),
    }
}

/// The optional number that a value stands for, if it stands for one.
pub open spec fn optional_of(v: WideJsonView) -> Option<Option<u128>> {
    match (v, number_of(v)) {
        (WideJsonView::Null, _) => Some(None),
        (_, Some(n)) => Some(Some(n)),
        (_, None) => None,
    }
}

/// Writes a number.
pub fn write_wide(n: u128) -> (r: WideJson)
    ensures
        r@ == written(n),
{
    WideJson::Text(string_of(&to_dec(n)))
}

/// Writes an optional number.
pub fn write_wide_opt(n: Option<u128>) -> (r: WideJson)
    ensures
        r@ == written_opt(n),
{
    match n {
        Some(n) => write_wide(n),
        None => WideJson::Null,
    }
}

fn wide_of_signed(v: i64) -> (r: u128)
    ensures
        r == of_signed(v),
{
    if v >= 0 {
        v as u128
    } else {
        u128::MAX - (-(v + 1)) as u128
    }
}

/// Reads a number.
pub fn read_wide(v: &WideJson) -> (r: Option<u128>)
    ensures
        r == number_of(v@),
{
    match v {
        WideJson::Null => None,
        WideJson::Text(s) => parse_wide(&chars_of(s.as_str())),
        WideJson::Unsigned(n) => Some(*n as u128),
        WideJson::Signed(n) => Some(wide_of_signed(*n)),
    }
}

/// Reads an optional number.
pub fn read_wide_opt(v: &WideJson) -> (r: Option<Option<u128>>)
    ensures
        r == optional_of(v@),
{
    match v {
        WideJson::Null => Some(None),
        _ => match read_wide(v) {
            Some(n) => Some(Some(n)),
            None => None,
        },
    }
}

// ── laws ───────────────────────────────────────────────────

/// Every number that was written is read back, and so is one that is not there.
pub proof fn law_wide_numbers_are_read_back(n: u128)
    ensures
        number_of(written(n)) == Some(n),
        optional_of(written_opt(Some(n))) == Some(Some(n)),
        optional_of(written_opt(None)) == Some(None::<u128>),
{
    law_numerals_are_read_back(n);
}

/// A number of JSON is read as the number that it is, a text as the number that it spells, and
/// a text that spells none as nothing.  What is not there is read only where it may be missing.
pub proof fn law_json_values_are_read(n: u64, m: i64, s: Seq<char>)
    ensures
        number_of(WideJsonView::Unsigned(n)) == Some(n as u128),
        m >= 0 ==> number_of(WideJsonView::Signed(m)) == Some(m as u128),
        number_of(WideJsonView::Text(s)) == wide_value(s),
        wide_value(s) is None ==> optional_of(WideJsonView::Text(s)) is None,
        number_of(WideJsonView::Null) is None,
{
}

/// Whoever writes a number and reads it gets the number, with or without its being optional.
pub proof fn law_write_and_read(n: u128, w: WideJson, r: Option<u128>, o: Option<Option<u128>>)
    requires
        call_ensures(write_wide, (n,), w),
        call_ensures(read_wide, (&w,), r),
        call_ensures(read_wide_opt, (&w,), o),
    ensures
        w is Text,
        r == Some(n),
        o == Some(Some(n)),
{
    law_wide_numbers_are_read_back(n);
}

/// A negative number is read as the one that is as far below 2^128.
pub proof fn law_negative_numbers_count_down(m: i64)
    requires
        m < 0,
    ensures
        number_of(WideJsonView::Signed(m)) matches Some(n) && n == u128::MAX + 1 + m,
{
}

} // verus!
