//! The field extractors: independent, side-effect-free scans over the texts
//! of the document's elements.  Each extractor's exec function is verified
//! against a spec function that states exactly which element, token or marker
//! wins and what value it yields.

use vstd::prelude::*;
use crate::dates::{
    Date, iso_date_spec, parse_iso_date, spanish_date_spec, valid_date, dmy_seq,
};
use crate::error::{ErrView, PopoError, res_view};
use crate::models::{AlertLevel, WindDirection, Decimal, alert_spec, compass_norm, compass_spec};
use crate::text::{
    chars_of, contains_lit, find_first, find_sub, has_sub, lower_seq, parse_u32, parse_u32_spec,
    push_chars, push_lit, split_ws, string_from_chars, sub_vec, to_lower, tokens, trim_chars,
    trim_seq, views_of,
};

verus! {

/// The date a heading yields: the Spanish long form if the heading looks like
/// one and parses, otherwise the first token whose first ten characters form
/// a strict ISO date.
pub open spec fn heading_date(raw: Seq<char>) -> Option<Date> {
    let t = trim_seq(raw);
    if has_sub(t, "de"@) && has_sub(t, "de 20"@) && spanish_date_spec(t) is Ok {
        Some(spanish_date_spec(t)->Ok_0)
    } else {
        iso_in_tokens(tokens(t))
    }
}

/// The first token of length at least ten whose first ten characters form a
/// valid ISO date.
pub open spec fn iso_in_tokens(ws: Seq<Seq<char>>) -> Option<Date>
    decreases ws.len(),
{
    if ws.len() == 0 {
        None
    } else {
        let w = ws[0];
        let cand = if w.len() >= 10 {
            iso_date_spec(w.subrange(0, 10))
        } else {
            None
        };
        if cand is Some {
            cand
        } else {
            iso_in_tokens(ws.drop_first())
        }
    }
}

/// The date of the first heading that yields one.
pub open spec fn date_from_headings(hs: Seq<Seq<char>>) -> Option<Date>
    decreases hs.len(),
{
    if hs.len() == 0 {
        None
    } else if heading_date(hs[0]) is Some {
        heading_date(hs[0])
    } else {
        date_from_headings(hs.drop_first())
    }
}

/// The date extractor's result over the level-4 heading texts: the first
/// heading yielding a date wins; none yielding one is a parse failure.
pub open spec fn date_scan_spec(hs: Seq<Seq<char>>) -> Result<Date, ErrView> {
    match date_from_headings(hs) {
        Some(d) => Ok(d),
        None => Err(ErrView::Parse("Could not find date in report"@)),
    }
}

/// Reads the report date out of the heading texts.
pub fn date_from_heading_texts(texts: &Vec<String>) -> (r: Result<Date, PopoError>)
    ensures
        res_view(r) == date_scan_spec(texts.deep_view()),
{
    let ghost hs = texts.deep_view();
    let n = texts.len();
    proof {
        assert(hs.subrange(0, n as int) =~= hs);
    }
    let mut i: usize = 0;
    while i < n
        invariant
            i <= n,
            n == texts@.len(),
            hs == texts.deep_view(),
            date_from_headings(hs) == date_from_headings(hs.subrange(i as int, n as int)),
        decreases n - i,
    {
        proof {
            assert(hs[i as int] == texts@[i as int]@);
            assert(hs.subrange(i as int, n as int).drop_first() =~= hs.subrange(
                i + 1 as int,
                n as int,
            ));
            assert(hs.subrange(i as int, n as int)[0] == hs[i as int]);
        }
        match heading_date_exec(&texts[i]) {
            Some(d) => {
                return Ok(d);
            },
            None => {},
        }
        i += 1;
    }
    proof {
        assert(hs.subrange(n as int, n as int).len() == 0);
    }
    let mut msg: Vec<char> = Vec::new();
    push_lit(&mut msg, "Could not find date in report");
    Err(PopoError::Parse(string_from_chars(&msg)))
}

/// The date one heading yields, if any.
fn heading_date_exec(text: &String) -> (r: Option<Date>)
    ensures
        r == heading_date(text@),
{
    let cs = chars_of(text.as_str());
    let t = trim_chars(&cs);
    if contains_lit(&t, "de") && contains_lit(&t, "de 20") {
        match crate::dates::parse_spanish_date_chars(&t) {
            Ok(d) => {
                proof {
                    assert(t@ == trim_seq(text@));
                    assert(spanish_date_spec(t@) == Ok::<Date, ErrView>(d));
                    assert(heading_date(text@) == Some(d));
                }
                return Some(d);
            },
            Err(_) => {},
        }
    }
    let ws = split_ws(&t);
    let ghost toks = tokens(t@);
    let n = ws.len();
    proof {
        assert(toks.subrange(0, n as int) =~= toks);
    }
    let mut k: usize = 0;
    while k < n
        invariant
            k <= n,
            n == ws@.len(),
            t@ == trim_seq(text@),
            toks == tokens(t@),
            views_of(ws@) == toks,
            !(has_sub(t@, "de"@) && has_sub(t@, "de 20"@) && spanish_date_spec(t@) is Ok),
            iso_in_tokens(toks) == iso_in_tokens(toks.subrange(k as int, n as int)),
        decreases n - k,
    {
        proof {
            assert(toks[k as int] == ws@[k as int]@);
            assert(toks.subrange(k as int, n as int).drop_first() =~= toks.subrange(
                k + 1 as int,
                n as int,
            ));
            assert(toks.subrange(k as int, n as int)[0] == toks[k as int]);
        }
        if ws[k].len() >= 10 {
            let p = sub_vec(&ws[k], 0, 10);
            match parse_iso_date(&p) {
                Some(d) => {
                    proof {
                        assert(iso_in_tokens(toks) == Some(d));
                        assert(toks == tokens(trim_seq(text@)));
                        assert(!(has_sub(t@, "de"@) && has_sub(t@, "de 20"@) && spanish_date_spec(
                            t@,
                        ) is Ok));
                    }
                    return Some(d);
                },
                None => {},
            }
        }
        k += 1;
    }
    proof {
        assert(toks.subrange(n as int, n as int).len() == 0);
    }
    None
}

/// The number right before `marker` in `t`: the last whitespace token of the
/// text before the marker's first occurrence, when it parses as a `u32`.
pub open spec fn number_before_spec(t: Seq<char>, marker: Seq<char>) -> Option<u32> {
    match find_sub(t, marker) {
        None => None,
        Some(p) => {
            let ws = tokens(t.subrange(0, p));
            if ws.len() > 0 && parse_u32_spec(ws.last()) is Some {
                parse_u32_spec(ws.last())
            } else {
                None
            }
        },
    }
}

/// Extracts the integer standing right before `marker` in `text`.
pub fn extract_number_before(text: &str, marker: &str) -> (r: Option<u32>)
    ensures
        r == number_before_spec(text@, marker@),
{
    let cs = chars_of(text);
    let mk = chars_of(marker);
    number_before_chars(&cs, &mk)
}

/// `extract_number_before` over character vectors.
pub fn number_before_chars(t: &Vec<char>, marker: &Vec<char>) -> (r: Option<u32>)
    ensures
        r == number_before_spec(t@, marker@),
{
    match find_first(t, marker) {
        None => None,
        Some(p) => {
            proof {
                crate::text::lemma_find_from_props(t@, marker@, 0);
            }
            let before = sub_vec(t, 0, p);
            let ws = split_ws(&before);
            if ws.len() == 0 {
                return None;
            }
            proof {
                assert(ws@[ws@.len() - 1]@ == tokens(t@.subrange(0, p as int)).last());
            }
            parse_u32(&ws[ws.len() - 1])
        },
    }
}

/// The tremor breakdown: the first paragraph mentioning both the high
/// frequency and the harmonic markers yields the two numbers standing before
/// the fixed marker phrases; no such paragraph yields nothing.
pub open spec fn tremor_scan_spec(ps: Seq<Seq<char>>) -> (Option<u32>, Option<u32>)
    decreases ps.len(),
{
    if ps.len() == 0 {
        (None::<u32>, None::<u32>)
    } else if has_sub(ps[0], "alta frecuencia"@) && has_sub(ps[0], "armónico"@) {
        (
            number_before_spec(ps[0], "minutos fueron de alta frecuencia"@),
            number_before_spec(ps[0], "minutos de armónico"@),
        )
    } else {
        tremor_scan_spec(ps.drop_first())
    }
}

/// Reads the tremor breakdown out of the paragraph texts.
pub fn tremor_from_texts(texts: &Vec<String>) -> (r: (Option<u32>, Option<u32>))
    ensures
        r == tremor_scan_spec(texts.deep_view()),
{
    let ghost ps = texts.deep_view();
    let n = texts.len();
    proof {
        assert(ps.subrange(0, n as int) =~= ps);
    }
    let mut i: usize = 0;
    while i < n
        invariant
            i <= n,
            n == texts@.len(),
            ps == texts.deep_view(),
            tremor_scan_spec(ps) == tremor_scan_spec(ps.subrange(i as int, n as int)),
        decreases n - i,
    {
        proof {
            assert(ps[i as int] == texts@[i as int]@);
            assert(ps.subrange(i as int, n as int).drop_first() =~= ps.subrange(
                i + 1 as int,
                n as int,
            ));
            assert(ps.subrange(i as int, n as int)[0] == ps[i as int]);
        }
        let cs = chars_of(texts[i].as_str());
        if contains_lit(&cs, "alta frecuencia") && contains_lit(&cs, "armónico") {
            let mk1 = chars_of("minutos fueron de alta frecuencia");
            let mk2 = chars_of("minutos de armónico");
            let high = number_before_chars(&cs, &mk1);
            let harmonic = number_before_chars(&cs, &mk2);
            return (high, harmonic);
        }
        i += 1;
    }
    proof {
        assert(ps.subrange(n as int, n as int).len() == 0);
    }
    (None, None)
}

} // verus!

verus! {

/// The raw second cell of the first row whose first cell, trimmed, equals the
/// wanted date string.
pub open spec fn row_value(rows: Seq<Seq<Seq<char>>>, date_str: Seq<char>) -> Option<Seq<char>>
    decreases rows.len(),
{
    if rows.len() == 0 {
        None
    } else {
        let cells = rows[0];
        if cells.len() >= 2 && trim_seq(cells[0]) == date_str {
            Some(cells[1])
        } else {
            row_value(rows.drop_first(), date_str)
        }
    }
}

/// The static-table strategy: in document order, the first table whose full
/// text mentions the field name and that has a row for the wanted date yields
/// that row's raw value cell.
pub open spec fn tables_value(
    texts: Seq<Seq<char>>,
    rows: Seq<Seq<Seq<Seq<char>>>>,
    name: Seq<char>,
    date_str: Seq<char>,
) -> Option<Seq<char>>
    decreases texts.len(),
{
    if texts.len() == 0 || rows.len() == 0 {
        None
    } else if has_sub(texts[0], name) && row_value(rows[0], date_str) is Some {
        row_value(rows[0], date_str)
    } else {
        tables_value(texts.drop_first(), rows.drop_first(), name, date_str)
    }
}

/// The date prefix a chart row starts with: a quote, then the date in
/// `YYYY-MM-DD` form with the year unpadded.
pub open spec fn chart_prefix_seq(d: Date) -> Seq<char> {
    seq!['\''] + crate::text::dec_int(d.year as int) + seq!['-'] + crate::text::pad2_digits(
        d.month as int,
    ) + seq!['-'] + crate::text::pad2_digits(d.day as int)
}

/// The value a chart row line yields: a trimmed line that opens a bracketed
/// row and mentions the date prefix, whose second comma-separated element
/// parses as an unsigned integer.
pub open spec fn chart_line_value(l: Seq<char>, prefix: Seq<char>) -> Option<u32> {
    let t = trim_seq(l);
    if t.len() > 0 && t[0] == '[' && has_sub(t, prefix) {
        let parts = crate::text::split_char(t, ',');
        if parts.len() >= 2 {
            parse_u32_spec(trim_seq(parts[1]))
        } else {
            None
        }
    } else {
        None
    }
}

/// The first data line that yields a value.
pub open spec fn chart_lines_value(ls: Seq<Seq<char>>, prefix: Seq<char>) -> Option<u32>
    decreases ls.len(),
{
    if ls.len() == 0 {
        None
    } else if chart_line_value(ls[0], prefix) is Some {
        chart_line_value(ls[0], prefix)
    } else {
        chart_lines_value(ls.drop_first(), prefix)
    }
}

/// The embedded chart-script strategy, for one script text: after the column
/// declaration naming the field, the first data-array block is searched for
/// the first row line carrying the wanted date.
pub open spec fn script_value(s: Seq<char>, name: Seq<char>, d: Date) -> Option<u32> {
    let pat = "addColumn('number', '"@ + name + "')"@;
    match find_sub(s, pat) {
        None => None,
        Some(cp) => {
            let after = s.subrange(cp, s.len() as int);
            match find_sub(after, "data.addRows(["@) {
                None => None,
                Some(rs) => {
                    let body = after.subrange(
                        rs + "data.addRows(["@.len(),
                        after.len() as int,
                    );
                    match find_sub(body, "]);"@) {
                        None => None,
                        Some(re) => chart_lines_value(
                            crate::text::lines_of(body.subrange(0, re)),
                            chart_prefix_seq(d),
                        ),
                    }
                },
            }
        },
    }
}

/// The first script that yields a value.
pub open spec fn scripts_value(ss: Seq<Seq<char>>, name: Seq<char>, d: Date) -> Option<u32>
    decreases ss.len(),
{
    if ss.len() == 0 {
        None
    } else if script_value(ss[0], name, d) is Some {
        script_value(ss[0], name, d)
    } else {
        scripts_value(ss.drop_first(), name, d)
    }
}

/// The tabular numeric extractor's result for one field: the static-table
/// strategy first (a matching row whose value does not parse is a failure
/// naming the field and the raw cell), then the chart-script strategy; both
/// empty-handed is a failure naming the field and the wanted date.
pub open spec fn field_value_spec(
    ttexts: Seq<Seq<char>>,
    trows: Seq<Seq<Seq<Seq<char>>>>,
    scripts: Seq<Seq<char>>,
    name: Seq<char>,
    d: Date,
) -> Result<u32, ErrView> {
    match tables_value(ttexts, trows, name, dmy_seq(d)) {
        Some(cell) => match parse_u32_spec(trim_seq(cell)) {
            Some(v) => Ok(v),
            None => Err(ErrView::Parse("Invalid value for "@ + name + ": "@ + cell)),
        },
        None => match scripts_value(scripts, name, d) {
            Some(v) => Ok(v),
            None => Err(
                ErrView::Parse("Could not find "@ + name + " data for date "@ + dmy_seq(d)),
            ),
        },
    }
}

/// The raw value cell for the wanted date in one table's rows.
fn row_value_exec(rows: &Vec<Vec<String>>, date_str: &Vec<char>) -> (r: Option<Vec<char>>)
    ensures
        match r {
            Some(cell) => row_value(rows.deep_view(), date_str@) == Some(cell@),
            None => row_value(rows.deep_view(), date_str@) is None,
        },
{
    let ghost rv = rows.deep_view();
    let n = rows.len();
    proof {
        assert(rv.subrange(0, n as int) =~= rv);
    }
    let mut j: usize = 0;
    while j < n
        invariant
            j <= n,
            n == rows@.len(),
            rv == rows.deep_view(),
            row_value(rv, date_str@) == row_value(rv.subrange(j as int, n as int), date_str@),
        decreases n - j,
    {
        proof {
            assert(rv[j as int] == rows@[j as int].deep_view());
            assert(rv.subrange(j as int, n as int).drop_first() =~= rv.subrange(
                j + 1 as int,
                n as int,
            ));
            assert(rv.subrange(j as int, n as int)[0] == rv[j as int]);
        }
        let cells = &rows[j];
        if cells.len() >= 2 {
            proof {
                assert(rows@[j as int].deep_view()[0] == rows@[j as int]@[0]@);
                assert(rows@[j as int].deep_view()[1] == rows@[j as int]@[1]@);
            }
            let c0 = chars_of(cells[0].as_str());
            let t0 = trim_chars(&c0);
            if crate::text::chars_eq(&t0, date_str) {
                let c1 = chars_of(cells[1].as_str());
                return Some(c1);
            }
        }
        j += 1;
    }
    proof {
        assert(rv.subrange(n as int, n as int).len() == 0);
    }
    None
}

/// The value one chart data line yields.
fn chart_line_value_exec(l: &Vec<char>, prefix: &Vec<char>) -> (r: Option<u32>)
    ensures
        r == chart_line_value(l@, prefix@),
{
    let t = trim_chars(l);
    if t.len() > 0 && t[0] == '[' && crate::text::contains_sub(&t, prefix) {
        let parts = crate::text::split_on_char(&t, ',');
        if parts.len() >= 2 {
            proof {
                assert(parts@[1]@ == crate::text::split_char(t@, ',')[1]);
            }
            let t1 = trim_chars(&parts[1]);
            parse_u32(&t1)
        } else {
            None
        }
    } else {
        None
    }
}

/// The chart-prefix characters for a date.
fn chart_prefix_chars(d: &Date) -> (r: Vec<char>)
    ensures
        r@ == chart_prefix_seq(*d),
{
    let mut out: Vec<char> = Vec::new();
    out.push('\'');
    crate::text::push_i64_dec(d.year as i64, &mut out);
    out.push('-');
    crate::text::push_pad2(d.month, &mut out);
    out.push('-');
    crate::text::push_pad2(d.day, &mut out);
    proof {
        assert(out@ =~= chart_prefix_seq(*d));
    }
    out
}

/// The value one script text yields for a field and date.
#[verifier::loop_isolation(false)]
fn script_value_exec(s: &String, name: &Vec<char>, d: &Date) -> (r: Option<u32>)
    ensures
        r == script_value(s@, name@, *d),
{
    let cs = chars_of(s.as_str());
    let mut pat: Vec<char> = Vec::new();
    push_lit(&mut pat, "addColumn('number', '");
    push_chars(&mut pat, name);
    push_lit(&mut pat, "')");
    proof {
        assert(pat@ =~= "addColumn('number', '"@ + name@ + "')"@);
    }
    let cp = match find_first(&cs, &pat) {
        Some(cp) => cp,
        None => {
            return None;
        },
    };
    let cn = cs.len();
    proof {
        crate::text::lemma_find_from_props(cs@, pat@, 0);
        assert(cp <= cn);
    }
    let after = sub_vec(&cs, cp, cn);
    let rows_pat = chars_of("data.addRows([");
    let rs = match find_first(&after, &rows_pat) {
        Some(rs) => rs,
        None => {
            return None;
        },
    };
    let an = after.len();
    proof {
        crate::text::lemma_find_from_props(after@, rows_pat@, 0);
        assert(rs + rows_pat@.len() <= an);
    }
    let body = sub_vec(&after, rs + rows_pat.len(), an);
    let end_pat = chars_of("]);");
    let re = match find_first(&body, &end_pat) {
        Some(re) => re,
        None => {
            return None;
        },
    };
    proof {
        crate::text::lemma_find_from_props(body@, end_pat@, 0);
        assert(re <= body@.len());
    }
    let section = sub_vec(&body, 0, re);
    let lines = crate::text::split_lines(&section);
    let prefix = chart_prefix_chars(d);
    let ghost ls = crate::text::lines_of(section@);
    let n = lines.len();
    proof {
        assert(ls.subrange(0, n as int) =~= ls);
    }
    let mut k: usize = 0;
    while k < n
        invariant
            k <= n,
            n == lines@.len(),
            views_of(lines@) == ls,
            prefix@ == chart_prefix_seq(*d),
            chart_lines_value(ls, chart_prefix_seq(*d)) == chart_lines_value(
                ls.subrange(k as int, n as int),
                chart_prefix_seq(*d),
            ),
        decreases n - k,
    {
        proof {
            assert(ls[k as int] == lines@[k as int]@);
            assert(ls.subrange(k as int, n as int).drop_first() =~= ls.subrange(
                k + 1 as int,
                n as int,
            ));
            assert(ls.subrange(k as int, n as int)[0] == ls[k as int]);
        }
        match chart_line_value_exec(&lines[k], &prefix) {
            Some(v) => {
                return Some(v);
            },
            None => {},
        }
        k += 1;
    }
    proof {
        assert(ls.subrange(n as int, n as int).len() == 0);
    }
    None
}

/// Reads one numeric field, trying the static tables first and the embedded
/// chart scripts second.
#[verifier::rlimit(100)]
#[verifier::spinoff_prover]
pub fn extract_from_table(
    ttexts: &Vec<String>,
    trows: &Vec<Vec<Vec<String>>>,
    scripts: &Vec<String>,
    name: &str,
    date: &Date,
) -> (r: Result<u32, PopoError>)
    ensures
        res_view(r) == field_value_spec(
            ttexts.deep_view(),
            trows.deep_view(),
            scripts.deep_view(),
            name@,
            *date,
        ),
{
    let ghost tv = ttexts.deep_view();
    let ghost rv = trows.deep_view();
    let date_str = crate::dates::dmy_chars(date);
    let nv = chars_of(name);
    let tn = ttexts.len();
    let rn = trows.len();
    proof {
        assert(tv.subrange(0, tn as int) =~= tv);
        assert(rv.subrange(0, rn as int) =~= rv);
    }
    let mut i: usize = 0;
    while i < tn && i < rn
        invariant
            i <= tn,
            i <= rn,
            tn == ttexts@.len(),
            rn == trows@.len(),
            tv == ttexts.deep_view(),
            rv == trows.deep_view(),
            nv@ == name@,
            date_str@ == dmy_seq(*date),
            tables_value(tv, rv, name@, dmy_seq(*date)) == tables_value(
                tv.subrange(i as int, tn as int),
                rv.subrange(i as int, rn as int),
                name@,
                dmy_seq(*date),
            ),
        decreases tn - i,
    {
        proof {
            assert(tv[i as int] == ttexts@[i as int]@);
            assert(rv[i as int] == trows@[i as int].deep_view());
            assert(tv.subrange(i as int, tn as int).drop_first() =~= tv.subrange(
                i + 1 as int,
                tn as int,
            ));
            assert(rv.subrange(i as int, rn as int).drop_first() =~= rv.subrange(
                i + 1 as int,
                rn as int,
            ));
            assert(tv.subrange(i as int, tn as int)[0] == tv[i as int]);
            assert(rv.subrange(i as int, rn as int)[0] == rv[i as int]);
        }
        let tcs = chars_of(ttexts[i].as_str());
        if crate::text::contains_sub(&tcs, &nv) {
            match row_value_exec(&trows[i], &date_str) {
                Some(cell) => {
                    let tc = trim_chars(&cell);
                    match parse_u32(&tc) {
                        Some(v) => {
                            return Ok(v);
                        },
                        None => {
                            let mut msg: Vec<char> = Vec::new();
                            push_lit(&mut msg, "Invalid value for ");
                            push_chars(&mut msg, &nv);
                            push_lit(&mut msg, ": ");
                            push_chars(&mut msg, &cell);
                            proof {
                                assert(msg@ =~= "Invalid value for "@ + name@ + ": "@ + cell@);
                            }
                            return Err(PopoError::Parse(string_from_chars(&msg)));
                        },
                    }
                },
                None => {},
            }
        }
        i += 1;
    }
    proof {
        if i == tn {
            assert(tv.subrange(tn as int, tn as int).len() == 0);
        } else {
            assert(rv.subrange(rn as int, rn as int).len() == 0);
        }
        assert(tables_value(tv, rv, name@, dmy_seq(*date)) is None);
    }
    let ghost sv = scripts.deep_view();
    let sn = scripts.len();
    proof {
        assert(sv.subrange(0, sn as int) =~= sv);
    }
    let mut k: usize = 0;
    while k < sn
        invariant
            k <= sn,
            sn == scripts@.len(),
            sv == scripts.deep_view(),
            nv@ == name@,
            date_str@ == dmy_seq(*date),
            tables_value(ttexts.deep_view(), trows.deep_view(), name@, dmy_seq(*date)) is None,
            tv == ttexts.deep_view(),
            rv == trows.deep_view(),
            scripts_value(sv, name@, *date) == scripts_value(
                sv.subrange(k as int, sn as int),
                name@,
                *date,
            ),
        decreases sn - k,
    {
        proof {
            assert(sv[k as int] == scripts@[k as int]@);
            assert(sv.subrange(k as int, sn as int).drop_first() =~= sv.subrange(
                k + 1 as int,
                sn as int,
            ));
            assert(sv.subrange(k as int, sn as int)[0] == sv[k as int]);
        }
        match script_value_exec(&scripts[k], &nv, date) {
            Some(v) => {
                return Ok(v);
            },
            None => {},
        }
        k += 1;
    }
    proof {
        assert(sv.subrange(sn as int, sn as int).len() == 0);
    }
    let mut msg: Vec<char> = Vec::new();
    push_lit(&mut msg, "Could not find ");
    push_chars(&mut msg, &nv);
    push_lit(&mut msg, " data for date ");
    push_chars(&mut msg, &date_str);
    proof {
        assert(msg@ =~= "Could not find "@ + name@ + " data for date "@ + dmy_seq(*date));
    }
    Err(PopoError::Parse(string_from_chars(&msg)))
}

} // verus!

verus! {

/// The alert extractor's result: the first paragraph or heading text that
/// names a color token in upper case and that the classifier also matches
/// yields the alert level and, as the phase, its trimmed text; none is a
/// mandatory parse failure.
pub open spec fn alert_scan_spec(es: Seq<Seq<char>>) -> Result<(AlertLevel, Seq<char>), ErrView>
    decreases es.len(),
{
    if es.len() == 0 {
        Err(ErrView::Parse("Could not find alert level"@))
    } else {
        let t = es[0];
        if (has_sub(t, "AMARILLO"@) || has_sub(t, "VERDE"@) || has_sub(t, "ROJO"@) || has_sub(
            t,
            "NARANJA"@,
        )) && alert_spec(lower_seq(t)) is Some {
            Ok((alert_spec(lower_seq(t))->0, trim_seq(t)))
        } else {
            alert_scan_spec(es.drop_first())
        }
    }
}

/// Reads the alert level and phase out of the paragraph and heading texts.
pub fn alert_from_texts(texts: &Vec<String>) -> (r: Result<(AlertLevel, String), PopoError>)
    ensures
        match r {
            Ok(v) => alert_scan_spec(texts.deep_view()) == Ok::<(AlertLevel, Seq<char>), ErrView>(
                (v.0, v.1@),
            ),
            Err(e) => alert_scan_spec(texts.deep_view()) == Err::<
                (AlertLevel, Seq<char>),
                ErrView,
            >(e@),
        },
{
    let ghost es = texts.deep_view();
    let n = texts.len();
    proof {
        assert(es.subrange(0, n as int) =~= es);
    }
    let mut i: usize = 0;
    while i < n
        invariant
            i <= n,
            n == texts@.len(),
            es == texts.deep_view(),
            alert_scan_spec(es) == alert_scan_spec(es.subrange(i as int, n as int)),
        decreases n - i,
    {
        proof {
            assert(es[i as int] == texts@[i as int]@);
            assert(es.subrange(i as int, n as int).drop_first() =~= es.subrange(
                i + 1 as int,
                n as int,
            ));
            assert(es.subrange(i as int, n as int)[0] == es[i as int]);
        }
        let cs = chars_of(texts[i].as_str());
        if contains_lit(&cs, "AMARILLO") || contains_lit(&cs, "VERDE") || contains_lit(&cs, "ROJO")
            || contains_lit(&cs, "NARANJA") {
            let lowered = to_lower(&cs);
            match crate::models::alert_from_lower(&lowered) {
                Some(level) => {
                    let phase = trim_chars(&cs);
                    return Ok((level, string_from_chars(&phase)));
                },
                None => {},
            }
        }
        i += 1;
    }
    proof {
        assert(es.subrange(n as int, n as int).len() == 0);
    }
    let mut msg: Vec<char> = Vec::new();
    push_lit(&mut msg, "Could not find alert level");
    Err(PopoError::Parse(string_from_chars(&msg)))
}

/// The first pass of the wind extractor, over paragraph texts: the first
/// paragraph mentioning the direction keyword (with or without its accent,
/// case-insensitively) that the compass classifier matches.
pub open spec fn wind_pass1(ps: Seq<Seq<char>>) -> Option<WindDirection>
    decreases ps.len(),
{
    if ps.len() == 0 {
        None
    } else {
        let t = ps[0];
        if (has_sub(lower_seq(t), "dirección"@) || has_sub(lower_seq(t), "direccion"@))
            && compass_spec(compass_norm(t)) is Some {
            compass_spec(compass_norm(t))
        } else {
            wind_pass1(ps.drop_first())
        }
    }
}

/// The second pass, over `div` texts: the first short text mentioning the
/// wind (lower or capitalised) that the classifier matches.
pub open spec fn wind_pass2(ds: Seq<Seq<char>>) -> Option<WindDirection>
    decreases ds.len(),
{
    if ds.len() == 0 {
        None
    } else {
        let t = ds[0];
        if (has_sub(t, "viento"@) || has_sub(t, "Viento"@)) && t.len() < 100 && compass_spec(
            compass_norm(t),
        ) is Some {
            compass_spec(compass_norm(t))
        } else {
            wind_pass2(ds.drop_first())
        }
    }
}

/// The wind extractor's result: the paragraph pass, then the `div` pass.
pub open spec fn wind_scan_spec(ps: Seq<Seq<char>>, ds: Seq<Seq<char>>) -> Option<WindDirection> {
    match wind_pass1(ps) {
        Some(d) => Some(d),
        None => wind_pass2(ds),
    }
}

/// Reads the wind direction out of the paragraph and `div` texts.
pub fn wind_from_texts(ptexts: &Vec<String>, dtexts: &Vec<String>) -> (r: Option<WindDirection>)
    ensures
        r == wind_scan_spec(ptexts.deep_view(), dtexts.deep_view()),
{
    let ghost ps = ptexts.deep_view();
    let pn = ptexts.len();
    proof {
        assert(ps.subrange(0, pn as int) =~= ps);
    }
    let mut i: usize = 0;
    while i < pn
        invariant
            i <= pn,
            pn == ptexts@.len(),
            ps == ptexts.deep_view(),
            wind_pass1(ps) == wind_pass1(ps.subrange(i as int, pn as int)),
        decreases pn - i,
    {
        proof {
            assert(ps[i as int] == ptexts@[i as int]@);
            assert(ps.subrange(i as int, pn as int).drop_first() =~= ps.subrange(
                i + 1 as int,
                pn as int,
            ));
            assert(ps.subrange(i as int, pn as int)[0] == ps[i as int]);
        }
        let cs = chars_of(ptexts[i].as_str());
        let lowered = to_lower(&cs);
        if contains_lit(&lowered, "dirección") || contains_lit(&lowered, "direccion") {
            let norm = crate::models::normalize_compass(&cs);
            match crate::models::compass_from_norm(&norm) {
                Some(d) => {
                    return Some(d);
                },
                None => {},
            }
        }
        i += 1;
    }
    proof {
        assert(ps.subrange(pn as int, pn as int).len() == 0);
    }
    let ghost ds = dtexts.deep_view();
    let dn = dtexts.len();
    proof {
        assert(ds.subrange(0, dn as int) =~= ds);
    }
    let mut k: usize = 0;
    while k < dn
        invariant
            k <= dn,
            dn == dtexts@.len(),
            ds == dtexts.deep_view(),
            wind_pass1(ptexts.deep_view()) is None,
            ps == ptexts.deep_view(),
            wind_pass2(ds) == wind_pass2(ds.subrange(k as int, dn as int)),
        decreases dn - k,
    {
        proof {
            assert(ds[k as int] == dtexts@[k as int]@);
            assert(ds.subrange(k as int, dn as int).drop_first() =~= ds.subrange(
                k + 1 as int,
                dn as int,
            ));
            assert(ds.subrange(k as int, dn as int)[0] == ds[k as int]);
        }
        let cs = chars_of(dtexts[k].as_str());
        if (contains_lit(&cs, "viento") || contains_lit(&cs, "Viento")) && cs.len() < 100 {
            let norm = crate::models::normalize_compass(&cs);
            match crate::models::compass_from_norm(&norm) {
                Some(d) => {
                    return Some(d);
                },
                None => {},
            }
        }
        k += 1;
    }
    proof {
        assert(ds.subrange(dn as int, dn as int).len() == 0);
    }
    None
}

} // verus!

verus! {

/// A parsed decimal as the library's decimal value.
pub open spec fn dec_of(p: Option<(u64, u32)>) -> Option<Decimal> {
    match p {
        Some(q) => Some(Decimal { mantissa: q.0, scale: q.1 }),
        None => None,
    }
}

/// The emissions value in a paragraph: scanning the whitespace tokens left to
/// right, the first token equal to "toneladas" whose predecessor parses as a
/// decimal number yields that number.
pub open spec fn so2_value_at(ws: Seq<Seq<char>>, i: int) -> Option<Decimal>
    decreases ws.len() - i,
    when 0 <= i
{
    if i >= ws.len() {
        None
    } else {
        let cand = if i > 0 && ws[i] == "toneladas"@ {
            dec_of(crate::text::parse_dec_parts(ws[i - 1]))
        } else {
            None
        };
        if cand is Some {
            cand
        } else {
            so2_value_at(ws, i + 1)
        }
    }
}

/// The measurement date in a paragraph: the first triple of consecutive
/// tokens forming a day number, a Spanish month name and a year that names a
/// real calendar date.
pub open spec fn so2_date_at(ws: Seq<Seq<char>>, i: int) -> Option<Date>
    decreases ws.len() - i,
    when 0 <= i
{
    if i + 2 >= ws.len() {
        None
    } else {
        let cand = so2_triple(ws[i], ws[i + 1], ws[i + 2]);
        if cand is Some {
            cand
        } else {
            so2_date_at(ws, i + 1)
        }
    }
}

/// The date named by a (day, month-name, year) token triple, when all three
/// parse and form a real date.
pub open spec fn so2_triple(w0: Seq<char>, w1: Seq<char>, w2: Seq<char>) -> Option<Date> {
    match parse_u32_spec(w0) {
        None => None,
        Some(day) => match crate::dates::spanish_month_spec(w1) {
            None => None,
            Some(month) => match crate::text::parse_i32_spec(w2) {
                None => None,
                Some(year) => if valid_date(year as int, month as int, day as int) {
                    Some(Date { year, month, day })
                } else {
                    None
                },
            },
        },
    }
}

/// The emissions extractor's result over the `div` and paragraph texts: the
/// first element mentioning both marker phrases in which a value is found
/// yields the value and whatever date the same element names; no element
/// yields anything.
pub open spec fn so2_scan_spec(es: Seq<Seq<char>>) -> (Option<Decimal>, Option<Date>)
    decreases es.len(),
{
    if es.len() == 0 {
        (None::<Decimal>, None::<Date>)
    } else {
        let t = es[0];
        if has_sub(t, "toneladas por día"@) && has_sub(t, "bióxido de azufre"@) && so2_value_at(
            tokens(t),
            0,
        ) is Some {
            (so2_value_at(tokens(t), 0), so2_date_at(tokens(t), 0))
        } else {
            so2_scan_spec(es.drop_first())
        }
    }
}

/// The emissions value of one element's tokens.
fn so2_value_exec(ws: &Vec<Vec<char>>) -> (r: Option<Decimal>)
    ensures
        r == so2_value_at(views_of(ws@), 0),
{
    let ghost tv = views_of(ws@);
    let n = ws.len();
    let mut i: usize = 0;
    while i < n
        invariant
            i <= n,
            n == ws@.len(),
            tv == views_of(ws@),
            so2_value_at(tv, 0) == so2_value_at(tv, i as int),
        decreases n - i,
    {
        proof {
            assert(tv[i as int] == ws@[i as int]@);
            if i > 0 {
                assert(tv[i - 1] == ws@[i - 1]@);
            }
        }
        if i > 0 && crate::text::chars_eq_str(&ws[i], "toneladas") {
            match crate::text::parse_decimal(&ws[i - 1]) {
                Some(p) => {
                    return Some(Decimal { mantissa: p.0, scale: p.1 });
                },
                None => {},
            }
        }
        i += 1;
    }
    None
}

/// The measurement date of one element's tokens.
fn so2_date_exec(ws: &Vec<Vec<char>>) -> (r: Option<Date>)
    ensures
        r == so2_date_at(views_of(ws@), 0),
{
    let ghost tv = views_of(ws@);
    let n = ws.len();
    if n < 3 {
        return None;
    }
    let mut i: usize = 0;
    while i + 2 < n
        invariant
            i + 2 <= n,
            n == ws@.len(),
            n >= 3,
            tv == views_of(ws@),
            so2_date_at(tv, 0) == so2_date_at(tv, i as int),
        decreases n - i,
    {
        proof {
            assert(tv[i as int] == ws@[i as int]@);
            assert(tv[i + 1] == ws@[i + 1]@);
            assert(tv[i + 2] == ws@[i + 2]@);
        }
        match so2_triple_exec(&ws[i], &ws[i + 1], &ws[i + 2]) {
            Some(d) => {
                return Some(d);
            },
            None => {},
        }
        i += 1;
    }
    None
}

/// The date of one token triple.
fn so2_triple_exec(w0: &Vec<char>, w1: &Vec<char>, w2: &Vec<char>) -> (r: Option<Date>)
    ensures
        r == so2_triple(w0@, w1@, w2@),
{
    let day = match parse_u32(w0) {
        Some(d) => d,
        None => {
            return None;
        },
    };
    let lowered = to_lower(w1);
    let month = match crate::dates::month_from_lower(&lowered) {
        Some(m) => m,
        None => {
            return None;
        },
    };
    let year = match crate::text::parse_i32(w2) {
        Some(y) => y,
        None => {
            return None;
        },
    };
    Date::from_ymd_opt(year, month, day)
}

/// Reads the emissions value and measurement date out of the `div` and
/// paragraph texts.
pub fn so2_from_texts(texts: &Vec<String>) -> (r: (Option<Decimal>, Option<Date>))
    ensures
        r == so2_scan_spec(texts.deep_view()),
{
    let ghost es = texts.deep_view();
    let n = texts.len();
    proof {
        assert(es.subrange(0, n as int) =~= es);
    }
    let mut i: usize = 0;
    while i < n
        invariant
            i <= n,
            n == texts@.len(),
            es == texts.deep_view(),
            so2_scan_spec(es) == so2_scan_spec(es.subrange(i as int, n as int)),
        decreases n - i,
    {
        proof {
            assert(es[i as int] == texts@[i as int]@);
            assert(es.subrange(i as int, n as int).drop_first() =~= es.subrange(
                i + 1 as int,
                n as int,
            ));
            assert(es.subrange(i as int, n as int)[0] == es[i as int]);
        }
        let cs = chars_of(texts[i].as_str());
        if contains_lit(&cs, "toneladas por día") && contains_lit(&cs, "bióxido de azufre") {
            let ws = split_ws(&cs);
            match so2_value_exec(&ws) {
                Some(v) => {
                    let d = so2_date_exec(&ws);
                    return (Some(v), d);
                },
                None => {},
            }
        }
        i += 1;
    }
    proof {
        assert(es.subrange(n as int, n as int).len() == 0);
    }
    (None, None)
}

} // verus!

verus! {

/// The first summary pass: paragraphs that mention one of the activity
/// keywords and are longer than twenty characters once trimmed, collected in
/// document order, up to three.
pub open spec fn summary_pass1(ps: Seq<Seq<char>>, acc: Seq<Seq<char>>) -> Seq<Seq<char>>
    decreases ps.len(),
{
    if acc.len() >= 3 || ps.len() == 0 {
        acc
    } else {
        let t = trim_seq(ps[0]);
        if (has_sub(t, "exhalaciones"@) || has_sub(t, "tremor"@) || has_sub(t, "actividad"@))
            && t.len() > 20 {
            summary_pass1(ps.drop_first(), acc.push(t))
        } else {
            summary_pass1(ps.drop_first(), acc)
        }
    }
}

/// The fallback pass: any paragraph longer than fifty characters once
/// trimmed, up to three.
pub open spec fn summary_pass2(ps: Seq<Seq<char>>, acc: Seq<Seq<char>>) -> Seq<Seq<char>>
    decreases ps.len(),
{
    if acc.len() >= 3 || ps.len() == 0 {
        acc
    } else {
        let t = trim_seq(ps[0]);
        if t.len() > 50 {
            summary_pass2(ps.drop_first(), acc.push(t))
        } else {
            summary_pass2(ps.drop_first(), acc)
        }
    }
}

/// Paragraphs joined by one blank line.
pub open spec fn join_blank(parts: Seq<Seq<char>>) -> Seq<char>
    decreases parts.len(),
{
    if parts.len() == 0 {
        Seq::empty()
    } else if parts.len() == 1 {
        parts[0]
    } else {
        parts[0] + seq!['\n', '\n'] + join_blank(parts.drop_first())
    }
}

/// The summary extractor's result: the keyword paragraphs, or any substantial
/// paragraphs when none match, joined by blank lines; the fixed placeholder
/// sentence when the page offers nothing.
pub open spec fn summary_spec(ps: Seq<Seq<char>>) -> Seq<char> {
    let picked = summary_pass1(ps, Seq::empty());
    let sel = if picked.len() > 0 {
        picked
    } else {
        summary_pass2(ps, Seq::empty())
    };
    if sel.len() == 0 {
        "No summary available"@
    } else {
        join_blank(sel)
    }
}

/// Collects the summary paragraphs of one pass.
#[verifier::loop_isolation(false)]
fn summary_collect(texts: &Vec<String>, fallback: bool) -> (r: Vec<Vec<char>>)
    ensures
        !fallback ==> views_of(r@) == summary_pass1(texts.deep_view(), Seq::empty()),
        fallback ==> views_of(r@) == summary_pass2(texts.deep_view(), Seq::empty()),
{
    let ghost ps = texts.deep_view();
    let n = texts.len();
    proof {
        assert(ps.subrange(0, n as int) =~= ps);
        assert(views_of(Seq::<Vec<char>>::empty()) =~~= Seq::<Seq<char>>::empty());
    }
    let mut acc: Vec<Vec<char>> = Vec::new();
    let mut i: usize = 0;
    while i < n && acc.len() < 3
        invariant
            i <= n,
            acc@.len() <= 3,
            !fallback ==> summary_pass1(ps, Seq::empty()) == summary_pass1(
                ps.subrange(i as int, n as int),
                views_of(acc@),
            ),
            fallback ==> summary_pass2(ps, Seq::empty()) == summary_pass2(
                ps.subrange(i as int, n as int),
                views_of(acc@),
            ),
        decreases n - i,
    {
        proof {
            assert(ps[i as int] == texts@[i as int]@);
            assert(ps.subrange(i as int, n as int).drop_first() =~= ps.subrange(
                i + 1 as int,
                n as int,
            ));
            assert(ps.subrange(i as int, n as int)[0] == ps[i as int]);
        }
        let cs = chars_of(texts[i].as_str());
        let t = trim_chars(&cs);
        let keep: bool = if fallback {
            t.len() > 50
        } else {
            (contains_lit(&t, "exhalaciones") || contains_lit(&t, "tremor") || contains_lit(
                &t,
                "actividad",
            )) && t.len() > 20
        };
        if keep {
            proof {
                assert(views_of(acc@.push(t)) =~~= views_of(acc@).push(t@));
            }
            acc.push(t);
        }
        i += 1;
    }
    proof {
        if i == n {
            assert(ps.subrange(n as int, n as int).len() == 0);
        }
    }
    acc
}

/// Joins collected paragraphs with blank lines.
fn join_blank_exec(parts: &Vec<Vec<char>>) -> (r: Vec<char>)
    ensures
        r@ == join_blank(views_of(parts@)),
{
    let ghost pv = views_of(parts@);
    let n = parts.len();
    let mut out: Vec<char> = Vec::new();
    if n == 0 {
        return out;
    }
    proof {
        assert(pv.subrange(0, n as int) =~= pv);
    }
    let mut i: usize = 0;
    while i < n
        invariant
            i <= n,
            n >= 1,
            n == parts@.len(),
            pv == views_of(parts@),
            i == 0 ==> out@.len() == 0,
            0 < i < n ==> join_blank(pv) == out@ + seq!['\n', '\n'] + join_blank(
                pv.subrange(i as int, n as int),
            ),
            i == n ==> join_blank(pv) == out@,
        decreases n - i,
    {
        proof {
            assert(pv[i as int] == parts@[i as int]@);
            assert(pv.subrange(i as int, n as int).drop_first() =~= pv.subrange(
                i + 1 as int,
                n as int,
            ));
            assert(pv.subrange(i as int, n as int)[0] == pv[i as int]);
        }
        if i > 0 {
            out.push('\n');
            out.push('\n');
        }
        push_chars(&mut out, &parts[i]);
        proof {
            if i == 0 {
                if i + 1 < n {
                    assert(join_blank(pv) =~= out@ + seq!['\n', '\n'] + join_blank(
                        pv.subrange(i + 1 as int, n as int),
                    ));
                } else {
                    assert(join_blank(pv.subrange(0, n as int)) == pv[0]);
                    assert(join_blank(pv) =~= out@);
                }
            } else {
                if i + 1 < n {
                    assert(join_blank(pv) =~= out@ + seq!['\n', '\n'] + join_blank(
                        pv.subrange(i + 1 as int, n as int),
                    ));
                } else {
                    assert(join_blank(pv) =~= out@);
                }
            }
        }
        i += 1;
    }
    out
}

/// Builds the narrative summary out of the paragraph texts.
pub fn summary_from_texts(texts: &Vec<String>) -> (r: String)
    ensures
        r@ == summary_spec(texts.deep_view()),
{
    let picked = summary_collect(texts, false);
    let sel = if picked.len() > 0 {
        picked
    } else {
        summary_collect(texts, true)
    };
    if sel.len() == 0 {
        let mut msg: Vec<char> = Vec::new();
        push_lit(&mut msg, "No summary available");
        string_from_chars(&msg)
    } else {
        let joined = join_blank_exec(&sel);
        string_from_chars(&joined)
    }
}

/// A relative media path made absolute against the site's base address.
pub open spec fn full_url(h: Seq<char>) -> Seq<char> {
    if crate::text::starts_with(h, "http"@) {
        h
    } else {
        "https://www.cenapred.unam.mx"@ + h
    }
}

/// The media links with one of the two wanted file extensions, in document
/// order, each made absolute.
pub open spec fn media_urls(hs: Seq<Seq<char>>, e1: Seq<char>, e2: Seq<char>) -> Seq<Seq<char>>
    decreases hs.len(),
{
    if hs.len() == 0 {
        Seq::empty()
    } else {
        let rest = media_urls(hs.drop_first(), e1, e2);
        if crate::text::ends_with(hs[0], e1) || crate::text::ends_with(hs[0], e2) {
            seq![full_url(hs[0])] + rest
        } else {
            rest
        }
    }
}

/// Collects the media links with the two wanted extensions.
pub fn media_from_hrefs(hrefs: &Vec<String>, ext1: &str, ext2: &str) -> (r: Vec<String>)
    ensures
        r.deep_view() == media_urls(hrefs.deep_view(), ext1@, ext2@),
{
    let ghost hv = hrefs.deep_view();
    let n = hrefs.len();
    proof {
        assert(hv.subrange(0, n as int) =~= hv);
    }
    let mut out: Vec<String> = Vec::new();
    let mut i: usize = 0;
    while i < n
        invariant
            i <= n,
            n == hrefs@.len(),
            hv == hrefs.deep_view(),
            media_urls(hv, ext1@, ext2@) =~~= out.deep_view() + media_urls(
                hv.subrange(i as int, n as int),
                ext1@,
                ext2@,
            ),
        decreases n - i,
    {
        proof {
            assert(hv[i as int] == hrefs@[i as int]@);
            assert(hv.subrange(i as int, n as int).drop_first() =~= hv.subrange(
                i + 1 as int,
                n as int,
            ));
            assert(hv.subrange(i as int, n as int)[0] == hv[i as int]);
        }
        let cs = chars_of(hrefs[i].as_str());
        if crate::text::ends_with_lit(&cs, ext1) || crate::text::ends_with_lit(&cs, ext2) {
            let mut url: Vec<char> = Vec::new();
            if crate::text::starts_with_lit(&cs, "http") {
                push_chars(&mut url, &cs);
            } else {
                push_lit(&mut url, "https://www.cenapred.unam.mx");
                push_chars(&mut url, &cs);
            }
            proof {
                assert(url@ == full_url(hv[i as int]));
            }
            let us = string_from_chars(&url);
            let ghost before = out.deep_view();
            out.push(us);
            proof {
                assert(out.deep_view() =~~= before.push(us@));
            }
        }
        i += 1;
    }
    proof {
        assert(hv.subrange(n as int, n as int).len() == 0);
        assert(media_urls(hv.subrange(n as int, n as int), ext1@, ext2@) =~~= Seq::<
            Seq<char>,
        >::empty());
        assert(media_urls(hv, ext1@, ext2@) =~~= out.deep_view());
    }
    out
}

} // verus!

verus! {

/// A document in whose paragraph and heading texts no color token occurs
/// yields no alert: the scan fails, naming the alert level.
pub proof fn lemma_no_color_no_alert(es: Seq<Seq<char>>)
    requires
        forall|i: int|
            0 <= i < es.len() ==> !has_sub(#[trigger] es[i], "AMARILLO"@) && !has_sub(es[i], "VERDE"@)
                && !has_sub(es[i], "ROJO"@) && !has_sub(es[i], "NARANJA"@),
    ensures
        alert_scan_spec(es) == Err::<(AlertLevel, Seq<char>), ErrView>(
            ErrView::Parse("Could not find alert level"@),
        ),
    decreases es.len(),
{
    if es.len() > 0 {
        assert(es.drop_first() =~= es.subrange(1, es.len() as int));
        assert forall|i: int| 0 <= i < es.drop_first().len() implies !has_sub(
            #[trigger] es.drop_first()[i],
            "AMARILLO"@,
        ) && !has_sub(es.drop_first()[i], "VERDE"@) && !has_sub(es.drop_first()[i], "ROJO"@)
            && !has_sub(es.drop_first()[i], "NARANJA"@) by {
            assert(es.drop_first()[i] == es[i + 1]);
        }
        lemma_no_color_no_alert(es.drop_first());
    }
}

/// A document with no paragraph naming the wind's direction and no short
/// `div` mentioning the wind yields no wind direction; the assembly still
/// succeeds, since the field is optional.
pub proof fn lemma_no_wind_mentions(ps: Seq<Seq<char>>, ds: Seq<Seq<char>>)
    requires
        forall|i: int|
            0 <= i < ps.len() ==> !has_sub(lower_seq(#[trigger] ps[i]), "dirección"@) && !has_sub(
                lower_seq(ps[i]),
                "direccion"@,
            ),
        forall|i: int|
            0 <= i < ds.len() ==> !has_sub(#[trigger] ds[i], "viento"@) && !has_sub(
                ds[i],
                "Viento"@,
            ),
    ensures
        wind_scan_spec(ps, ds) is None,
    decreases ps.len() + ds.len(),
{
    if ps.len() > 0 {
        assert(ps.drop_first() =~= ps.subrange(1, ps.len() as int));
        assert forall|i: int| 0 <= i < ps.drop_first().len() implies !has_sub(
            lower_seq(#[trigger] ps.drop_first()[i]),
            "dirección"@,
        ) && !has_sub(lower_seq(ps.drop_first()[i]), "direccion"@) by {
            assert(ps.drop_first()[i] == ps[i + 1]);
        }
        lemma_no_wind_mentions(ps.drop_first(), ds);
    } else if ds.len() > 0 {
        assert(ds.drop_first() =~= ds.subrange(1, ds.len() as int));
        assert forall|i: int| 0 <= i < ds.drop_first().len() implies !has_sub(
            #[trigger] ds.drop_first()[i],
            "viento"@,
        ) && !has_sub(ds.drop_first()[i], "Viento"@) by {
            assert(ds.drop_first()[i] == ds[i + 1]);
        }
        lemma_no_wind_mentions(ps, ds.drop_first());
    }
}

} // verus!
