//! A verified calendar date type and the bulletin's date formats: the Spanish
//! long form "`D de Month de Y`", the ISO `YYYY-MM-DD` form, and the
//! `DD-MM-YYYY` form used by the data tables.

use vstd::prelude::*;
use crate::text::{
    chars_of, chars_eq_str, dec_digits, dec_int, digit_val, is_digit, lower_seq, pad2_digits,
    parse_i32, parse_i32_spec, parse_u32, parse_u32_spec, push_chars, push_i64_dec, push_lit,
    push_pad2, split_ws, string_from_chars, to_lower, tokens,
};
use crate::error::{ErrView, PopoError, res_view};

verus! {

/// A proleptic Gregorian calendar date.
#[derive(Debug, Clone, Copy, PartialEq, Eq, Structural)]
pub struct Date {
    pub year: i32,
    pub month: u32,
    pub day: u32,
}

/// The Gregorian leap-year rule.
pub open spec fn is_leap_year(y: int) -> bool {
    y % 4 == 0 && (y % 100 != 0 || y % 400 == 0)
}

/// Days in a month of the Gregorian calendar.
pub open spec fn days_in_month(y: int, m: int) -> int
    recommends
        1 <= m <= 12,
{
    if m == 2 {
        if is_leap_year(y) {
            29
        } else {
            28
        }
    } else if m == 4 || m == 6 || m == 9 || m == 11 {
        30
    } else {
        31
    }
}

/// The triple (y, m, d) names a real calendar date.
pub open spec fn valid_date(y: int, m: int, d: int) -> bool {
    1 <= m <= 12 && 1 <= d <= days_in_month(y, m)
}

pub fn is_leap_year_exec(y: i32) -> (r: bool)
    ensures
        r == is_leap_year(y as int),
{
    // Shift by a positive multiple of 400 so the remainders are taken of a
    // non-negative number.
    let yy: i64 = y as i64 + 2_400_000_000i64;
    proof {
        vstd::arithmetic::div_mod::lemma_mod_multiples_vanish(600_000_000int, y as int, 4int);
        vstd::arithmetic::div_mod::lemma_mod_multiples_vanish(24_000_000int, y as int, 100int);
        vstd::arithmetic::div_mod::lemma_mod_multiples_vanish(6_000_000int, y as int, 400int);
    }
    yy % 4 == 0 && (yy % 100 != 0 || yy % 400 == 0)
}

pub fn days_in_month_exec(y: i32, m: u32) -> (r: u32)
    requires
        1 <= m <= 12,
    ensures
        r == days_in_month(y as int, m as int),
{
    if m == 2 {
        if is_leap_year_exec(y) {
            29
        } else {
            28
        }
    } else if m == 4 || m == 6 || m == 9 || m == 11 {
        30
    } else {
        31
    }
}

impl Date {
    /// The date is a real calendar date.
    pub open spec fn wf(self) -> bool {
        valid_date(self.year as int, self.month as int, self.day as int)
    }

    /// Builds a date after checking it against the calendar.
    pub fn from_ymd_opt(year: i32, month: u32, day: u32) -> (r: Option<Date>)
        ensures
            r == (if valid_date(year as int, month as int, day as int) {
                Some(Date { year, month, day })
            } else {
                None::<Date>
            }),
            r is Some ==> r->0.wf(),
    {
        if 1 <= month && month <= 12 && 1 <= day && day <= days_in_month_exec(year, month) {
            Some(Date { year, month, day })
        } else {
            None
        }
    }

    /// The date in `YYYY-MM-DD` form, the year zero-padded to four digits.
    pub fn to_iso_string(&self) -> (r: String)
        ensures
            r@ == iso_seq(*self),
    {
        let out = iso_chars(self);
        string_from_chars(&out)
    }
}

/// Builds the `YYYY-MM-DD` character form of a date.
pub fn iso_chars(d: &Date) -> (r: Vec<char>)
    ensures
        r@ == iso_seq(*d),
{
    let mut out: Vec<char> = Vec::new();
    if 0 <= d.year && d.year <= 9999 {
        if d.year < 10 {
            push_lit(&mut out, "000");
        } else if d.year < 100 {
            push_lit(&mut out, "00");
        } else if d.year < 1000 {
            push_lit(&mut out, "0");
        }
        push_i64_dec(d.year as i64, &mut out);
    } else {
        push_i64_dec(d.year as i64, &mut out);
    }
    out.push('-');
    push_pad2(d.month, &mut out);
    out.push('-');
    push_pad2(d.day, &mut out);
    proof {
        reveal_strlit("000");
        reveal_strlit("00");
        reveal_strlit("0");
        assert(out@ =~= iso_seq(*d));
    }
    out
}

/// The year as printed in the ISO form: zero-padded to four digits when it
/// fits, plain decimal otherwise.
pub open spec fn iso_year_seq(y: int) -> Seq<char> {
    if 0 <= y <= 9999 {
        if y < 10 {
            seq!['0', '0', '0'] + dec_digits(y)
        } else if y < 100 {
            seq!['0', '0'] + dec_digits(y)
        } else if y < 1000 {
            seq!['0'] + dec_digits(y)
        } else {
            dec_digits(y)
        }
    } else {
        dec_int(y)
    }
}

/// The date in `YYYY-MM-DD` form.
pub open spec fn iso_seq(d: Date) -> Seq<char> {
    iso_year_seq(d.year as int) + seq!['-'] + pad2_digits(d.month as int) + seq!['-']
        + pad2_digits(d.day as int)
}

/// The date in `DD-MM-YYYY` form, as the data tables print it.
pub open spec fn dmy_seq(d: Date) -> Seq<char> {
    pad2_digits(d.day as int) + seq!['-'] + pad2_digits(d.month as int) + seq!['-'] + dec_int(
        d.year as int,
    )
}

/// Builds the `DD-MM-YYYY` character form of a date.
pub fn dmy_chars(d: &Date) -> (r: Vec<char>)
    ensures
        r@ == dmy_seq(*d),
{
    let mut out: Vec<char> = Vec::new();
    push_pad2(d.day, &mut out);
    out.push('-');
    push_pad2(d.month, &mut out);
    out.push('-');
    push_i64_dec(d.year as i64, &mut out);
    proof {
        assert(out@ =~= dmy_seq(*d));
    }
    out
}

/// The month number named by a lower-cased Spanish month name.
pub open spec fn month_num_spec(t: Seq<char>) -> Option<u32> {
    if t == "enero"@ {
        Some(1u32)
    } else if t == "febrero"@ {
        Some(2u32)
    } else if t == "marzo"@ {
        Some(3u32)
    } else if t == "abril"@ {
        Some(4u32)
    } else if t == "mayo"@ {
        Some(5u32)
    } else if t == "junio"@ {
        Some(6u32)
    } else if t == "julio"@ {
        Some(7u32)
    } else if t == "agosto"@ {
        Some(8u32)
    } else if t == "septiembre"@ {
        Some(9u32)
    } else if t == "octubre"@ {
        Some(10u32)
    } else if t == "noviembre"@ {
        Some(11u32)
    } else if t == "diciembre"@ {
        Some(12u32)
    } else {
        None
    }
}

/// Looks a lower-cased token up in the month table.
pub fn month_from_lower(t: &Vec<char>) -> (r: Option<u32>)
    ensures
        r == month_num_spec(t@),
        r is Some ==> 1 <= r->0 <= 12,
{
    if chars_eq_str(t, "enero") {
        Some(1)
    } else if chars_eq_str(t, "febrero") {
        Some(2)
    } else if chars_eq_str(t, "marzo") {
        Some(3)
    } else if chars_eq_str(t, "abril") {
        Some(4)
    } else if chars_eq_str(t, "mayo") {
        Some(5)
    } else if chars_eq_str(t, "junio") {
        Some(6)
    } else if chars_eq_str(t, "julio") {
        Some(7)
    } else if chars_eq_str(t, "agosto") {
        Some(8)
    } else if chars_eq_str(t, "septiembre") {
        Some(9)
    } else if chars_eq_str(t, "octubre") {
        Some(10)
    } else if chars_eq_str(t, "noviembre") {
        Some(11)
    } else if chars_eq_str(t, "diciembre") {
        Some(12)
    } else {
        None
    }
}

/// The month named by a Spanish month name, matched case-insensitively.
pub open spec fn spanish_month_spec(s: Seq<char>) -> Option<u32> {
    month_num_spec(lower_seq(s))
}

/// Parses a Spanish month name, case-insensitively.
pub fn parse_spanish_month(text: &str) -> (r: Option<u32>)
    ensures
        r == spanish_month_spec(text@),
        r is Some ==> 1 <= r->0 <= 12,
{
    let cs = chars_of(text);
    let lowered = to_lower(&cs);
    month_from_lower(&lowered)
}

/// The result of reading a Spanish long-form date "`D de Month de Y`": the
/// whitespace tokens at positions 0, 2 and 4 are the day, the month name and
/// the year; any failure carries a message naming the offending part.
pub open spec fn spanish_date_spec(s: Seq<char>) -> Result<Date, ErrView> {
    let parts = tokens(s);
    if parts.len() < 5 {
        Err(ErrView::Parse("Invalid date format: "@ + s))
    } else {
        match parse_u32_spec(parts[0]) {
            None => Err(ErrView::Parse("Invalid day: "@ + parts[0])),
            Some(day) => match month_num_spec(lower_seq(parts[2])) {
                None => Err(ErrView::Parse("Invalid month: "@ + parts[2])),
                Some(month) => match parse_i32_spec(parts[4]) {
                    None => Err(ErrView::Parse("Invalid year: "@ + parts[4])),
                    Some(year) => if valid_date(year as int, month as int, day as int) {
                        Ok(Date { year, month, day })
                    } else {
                        Err(
                            ErrView::Parse(
                                "Invalid date: "@ + dec_int(year as int) + seq!['-'] + dec_digits(
                                    month as int,
                                ) + seq!['-'] + dec_digits(day as int),
                            ),
                        )
                    },
                },
            },
        }
    }
}

/// Parses a Spanish long-form date string.
pub fn parse_spanish_date(text: &str) -> (r: Result<Date, PopoError>)
    ensures
        res_view(r) == spanish_date_spec(text@),
{
    let cs = chars_of(text);
    parse_spanish_date_chars(&cs)
}

/// `parse_spanish_date` over a character vector.
pub fn parse_spanish_date_chars(cs: &Vec<char>) -> (r: Result<Date, PopoError>)
    ensures
        res_view(r) == spanish_date_spec(cs@),
{
    let parts = split_ws(&cs);
    if parts.len() < 5 {
        let mut msg: Vec<char> = Vec::new();
        push_lit(&mut msg, "Invalid date format: ");
        push_chars(&mut msg, &cs);
        proof {
            assert(msg@ =~= "Invalid date format: "@ + cs@);
        }
        return Err(PopoError::Parse(string_from_chars(&msg)));
    }
    proof {
        assert(parts@[0]@ == tokens(cs@)[0]);
        assert(parts@[2]@ == tokens(cs@)[2]);
        assert(parts@[4]@ == tokens(cs@)[4]);
    }
    let day = match parse_u32(&parts[0]) {
        Some(d) => d,
        None => {
            let mut msg: Vec<char> = Vec::new();
            push_lit(&mut msg, "Invalid day: ");
            push_chars(&mut msg, &parts[0]);
            proof {
                assert(msg@ =~= "Invalid day: "@ + tokens(cs@)[0]);
            }
            return Err(PopoError::Parse(string_from_chars(&msg)));
        },
    };
    let lowered = to_lower(&parts[2]);
    let month = match month_from_lower(&lowered) {
        Some(m) => m,
        None => {
            let mut msg: Vec<char> = Vec::new();
            push_lit(&mut msg, "Invalid month: ");
            push_chars(&mut msg, &parts[2]);
            proof {
                assert(msg@ =~= "Invalid month: "@ + tokens(cs@)[2]);
            }
            return Err(PopoError::Parse(string_from_chars(&msg)));
        },
    };
    let year = match parse_i32(&parts[4]) {
        Some(y) => y,
        None => {
            let mut msg: Vec<char> = Vec::new();
            push_lit(&mut msg, "Invalid year: ");
            push_chars(&mut msg, &parts[4]);
            proof {
                assert(msg@ =~= "Invalid year: "@ + tokens(cs@)[4]);
            }
            return Err(PopoError::Parse(string_from_chars(&msg)));
        },
    };
    match Date::from_ymd_opt(year, month, day) {
        Some(d) => Ok(d),
        None => {
            let mut msg: Vec<char> = Vec::new();
            push_lit(&mut msg, "Invalid date: ");
            push_i64_dec(year as i64, &mut msg);
            msg.push('-');
            push_u32_plain(month, &mut msg);
            msg.push('-');
            push_u32_plain(day, &mut msg);
            proof {
                assert(msg@ =~= "Invalid date: "@ + dec_int(year as int) + seq!['-'] + dec_digits(
                    month as int,
                ) + seq!['-'] + dec_digits(day as int));
            }
            Err(PopoError::Parse(string_from_chars(&msg)))
        },
    }
}

/// Appends a `u32` in plain decimal.
fn push_u32_plain(n: u32, out: &mut Vec<char>)
    ensures
        final(out)@ == old(out)@ + dec_digits(n as int),
{
    crate::text::push_u64_dec(n as u64, out);
}

/// The result of reading a strict `YYYY-MM-DD` string: four, two and two
/// digits separated by hyphens, naming a real calendar date.
pub open spec fn iso_date_spec(s: Seq<char>) -> Option<Date> {
    if s.len() == 10 && is_digit(s[0]) && is_digit(s[1]) && is_digit(s[2]) && is_digit(s[3]) && s[4]
        == '-' && is_digit(s[5]) && is_digit(s[6]) && s[7] == '-' && is_digit(s[8]) && is_digit(
        s[9],
    ) {
        let y = digit_val(s[0]) * 1000 + digit_val(s[1]) * 100 + digit_val(s[2]) * 10 + digit_val(
            s[3],
        );
        let m = digit_val(s[5]) * 10 + digit_val(s[6]);
        let d = digit_val(s[8]) * 10 + digit_val(s[9]);
        if valid_date(y, m, d) {
            Some(Date { year: y as i32, month: m as u32, day: d as u32 })
        } else {
            None
        }
    } else {
        None
    }
}

fn digit_of(c: char) -> (r: Option<u32>)
    ensures
        r is Some <==> is_digit(c),
        r is Some ==> r->0 == digit_val(c) && r->0 <= 9,
{
    let u = c as u32;
    if 48 <= u && u <= 57 {
        Some(u - 48)
    } else {
        None
    }
}

/// Parses a strict `YYYY-MM-DD` character string.
pub fn parse_iso_date(v: &Vec<char>) -> (r: Option<Date>)
    ensures
        r == iso_date_spec(v@),
{
    if v.len() != 10 {
        return None;
    }
    let d0 = digit_of(v[0]);
    let d1 = digit_of(v[1]);
    let d2 = digit_of(v[2]);
    let d3 = digit_of(v[3]);
    let d5 = digit_of(v[5]);
    let d6 = digit_of(v[6]);
    let d8 = digit_of(v[8]);
    let d9 = digit_of(v[9]);
    if v[4] != '-' || v[7] != '-' {
        return None;
    }
    match (d0, d1, d2, d3, d5, d6, d8, d9) {
        (
            Some(a),
            Some(b),
            Some(c),
            Some(d),
            Some(e),
            Some(f),
            Some(g),
            Some(h),
        ) => {
            let y: u32 = a * 1000 + b * 100 + c * 10 + d;
            let m: u32 = e * 10 + f;
            let day: u32 = g * 10 + h;
            Date::from_ymd_opt(y as i32, m, day)
        },
        _ => None,
    }
}

} // verus!

verus! {

/// The canonical Spanish long form of a date: "`D de Month de Y`", with the
/// month spelt by any text whose lower-case form is the month's name.
pub open spec fn spanish_date_text(y: i32, m: u32, d: u32, mname: Seq<char>) -> Seq<char> {
    dec_digits(d as int) + " de "@ + mname + " de "@ + dec_int(y as int)
}

/// No character of a recognised month name is whitespace.
proof fn lemma_month_name_no_space(l: Seq<char>)
    requires
        month_num_spec(l) is Some,
    ensures
        forall|i: int| 0 <= i < l.len() ==> !crate::text::is_space_char(l[i]),
        l.len() >= 4,
{
    reveal_strlit("enero");
    reveal_strlit("febrero");
    reveal_strlit("marzo");
    reveal_strlit("abril");
    reveal_strlit("mayo");
    reveal_strlit("junio");
    reveal_strlit("julio");
    reveal_strlit("agosto");
    reveal_strlit("septiembre");
    reveal_strlit("octubre");
    reveal_strlit("noviembre");
    reveal_strlit("diciembre");
}

/// For every real calendar date and every spelling of its month that
/// lower-cases to the month's name, the long-form date text parses back to
/// exactly that date: the parser recovers the (year, month, day) triple.
pub proof fn lemma_spanish_date_round_trip(y: i32, m: u32, d: u32, mname: Seq<char>)
    requires
        valid_date(y as int, m as int, d as int),
        month_num_spec(lower_seq(mname)) == Some(m),
    ensures
        spanish_date_spec(spanish_date_text(y, m, d, mname)) == Ok::<Date, ErrView>(
            Date { year: y, month: m, day: d },
        ),
{
    let a_part = dec_digits(d as int);
    let y_part = dec_int(y as int);
    let sep = " de "@;
    let text = spanish_date_text(y, m, d, mname);
    reveal_strlit(" de ");
    assert(sep.len() == 4);
    assert(sep[0] == ' ' && sep[1] == 'd' && sep[2] == 'e' && sep[3] == ' ');
    crate::text::lemma_dec_digits_are_digits(d as int);
    crate::text::lemma_dec_digits_value(d as int);
    lemma_month_name_no_space(lower_seq(mname));
    let al = a_part.len() as int;
    let ml = mname.len() as int;
    let yl = y_part.len() as int;
    assert(lower_seq(mname).len() == ml);
    assert(ml >= 4);
    let total = al + 4 + ml + 4 + yl;
    assert(text.len() == total);

    // Where each character of the text comes from.
    assert forall|k: int| 0 <= k < al implies text[k] == #[trigger] a_part[k] by {}
    assert forall|k: int| 0 <= k < 4 implies text[al + k] == #[trigger] sep[k] by {}
    assert forall|k: int| 0 <= k < ml implies text[al + 4 + k] == #[trigger] mname[k] by {}
    assert forall|k: int| 0 <= k < 4 implies text[al + 4 + ml + k] == #[trigger] sep[k] by {}
    assert forall|k: int| 0 <= k < yl implies text[al + 8 + ml + k] == #[trigger] y_part[k] by {}

    // No character of the number parts or the month is whitespace.
    assert forall|k: int| 0 <= k < al implies !crate::text::is_space_char(#[trigger] text[k]) by {
        assert(crate::text::is_digit(a_part[k]));
    }
    assert forall|k: int| 0 <= k < ml implies !crate::text::is_space_char(#[trigger] text[al + 4 + k]) by {
        crate::text::lemma_lower_keeps_space(mname[k]);
        assert(lower_seq(mname)[k] == crate::text::lower_char(mname[k]));
    }
    if y >= 0 {
        crate::text::lemma_dec_digits_are_digits(y as int);
        crate::text::lemma_dec_digits_value(y as int);
    } else {
        crate::text::lemma_dec_digits_are_digits(-(y as int));
        crate::text::lemma_dec_digits_value(-(y as int));
    }
    assert forall|k: int| 0 <= k < yl implies !crate::text::is_space_char(#[trigger] text[al + 8 + ml + k]) by {
        if y < 0 {
            if k == 0 {
                assert(y_part[0] == '-');
            } else {
                assert(y_part[k] == dec_digits(-(y as int))[k - 1]);
                assert(crate::text::is_digit(y_part[k]));
            }
        } else {
            assert(crate::text::is_digit(y_part[k]));
        }
    }
    assert(yl >= 1);

    // Token boundaries, walked left to right.
    crate::text::lemma_token_end_eq(text, 0, al);
    crate::text::lemma_skip_ws_eq(text, 0, 0);
    crate::text::lemma_skip_ws_eq(text, al, al + 1);
    crate::text::lemma_token_end_eq(text, al + 1, al + 3);
    crate::text::lemma_skip_ws_eq(text, al + 3, al + 4);
    crate::text::lemma_token_end_eq(text, al + 4, al + 4 + ml);
    crate::text::lemma_skip_ws_eq(text, al + 4 + ml, al + 5 + ml);
    crate::text::lemma_token_end_eq(text, al + 5 + ml, al + 7 + ml);
    crate::text::lemma_skip_ws_eq(text, al + 7 + ml, al + 8 + ml);
    crate::text::lemma_token_end_eq(text, al + 8 + ml, total);
    crate::text::lemma_skip_ws_eq(text, total, total);

    let toks = crate::text::tokens(text);
    assert(crate::text::tokens_from(text, total) =~= Seq::<Seq<char>>::empty());
    assert(crate::text::tokens_from(text, 0) == seq![text.subrange(0, al)]
        + crate::text::tokens_from(text, al));
    assert(crate::text::tokens_from(text, al) == seq![text.subrange(al + 1, al + 3)]
        + crate::text::tokens_from(text, al + 3));
    assert(crate::text::tokens_from(text, al + 3) == seq![text.subrange(al + 4, al + 4 + ml)]
        + crate::text::tokens_from(text, al + 4 + ml));
    assert(crate::text::tokens_from(text, al + 4 + ml) == seq![
        text.subrange(al + 5 + ml, al + 7 + ml),
    ] + crate::text::tokens_from(text, al + 7 + ml));
    assert(crate::text::tokens_from(text, al + 7 + ml) == seq![
        text.subrange(al + 8 + ml, total),
    ] + crate::text::tokens_from(text, total));
    assert(toks =~~= seq![
        text.subrange(0, al),
        text.subrange(al + 1, al + 3),
        text.subrange(al + 4, al + 4 + ml),
        text.subrange(al + 5 + ml, al + 7 + ml),
        text.subrange(al + 8 + ml, total),
    ]);
    assert(text.subrange(0, al) =~= a_part);
    assert(text.subrange(al + 4, al + 4 + ml) =~= mname);
    assert(text.subrange(al + 8 + ml, total) =~= y_part);
    assert(toks.len() == 5);
    assert(toks[0] == a_part);
    assert(toks[2] == mname);
    assert(toks[4] == y_part);

    // The day token parses back to d.
    assert(crate::text::is_digit(a_part[0]));
    assert(a_part[0] != '+');
    assert(parse_u32_spec(a_part) == Some(d));

    // The year token parses back to y.
    if y >= 0 {
        assert(y_part[0] != '-' && y_part[0] != '+');
        assert(parse_i32_spec(y_part) == Some(y));
    } else {
        assert(y_part[0] == '-');
        let digits = y_part.subrange(1, yl);
        assert(digits =~= dec_digits(-(y as int)));
        assert(crate::text::digits_val(digits) == -(y as int));
        assert(parse_i32_spec(y_part) == Some(y));
    }

    assert(spanish_date_spec(text) == Ok::<Date, ErrView>(Date { year: y, month: m, day: d }));
}

/// A text with fewer than five whitespace tokens never parses as a long-form
/// date.
pub proof fn lemma_short_date_text_fails(s: Seq<char>)
    requires
        crate::text::tokens(s).len() < 5,
    ensures
        spanish_date_spec(s) is Err,
{
}

/// A text whose third token is not a month name never parses as a long-form
/// date.
pub proof fn lemma_bad_month_fails(s: Seq<char>)
    requires
        crate::text::tokens(s).len() >= 5,
        month_num_spec(lower_seq(crate::text::tokens(s)[2])) is None,
    ensures
        spanish_date_spec(s) is Err,
{
}

} // verus!
