//! The report assembler: runs every extractor over one page text, in a fixed
//! order, and builds the report record.  Mandatory fields abort the assembly
//! on their first failure; optional fields degrade to absent values.

use vstd::prelude::*;
use crate::dates::{Date, iso_chars, iso_seq};
use crate::dom::{
    hrefs_in, now_unix, select_hrefs, select_tables, select_texts, selector_ok, table_rows_in,
    table_texts_in, texts_in,
};
use crate::error::{ErrView, PopoError};
use crate::extract::{
    alert_scan_spec, alert_from_texts, date_from_heading_texts, date_scan_spec, extract_from_table,
    field_value_spec, media_from_hrefs, media_urls, so2_from_texts, so2_scan_spec,
    summary_from_texts, summary_spec, tremor_from_texts, tremor_scan_spec, wind_from_texts,
    wind_scan_spec,
};
use crate::models::{ReportCore, VolcanoReport, core_view};
use crate::text::{push_lit, string_from_chars};

verus! {

/// The fixed address the latest bulletin is fetched from.
pub open spec fn report_url_spec() -> Seq<char> {
    "https://www.cenapred.unam.mx/reportesVolcanesMX/Procesos?tipoProceso=detallesUltimoReporteVolcan"@
}

/// All the selection queries the assembler runs are accepted by the query
/// engine.
pub open spec fn doc_selectors_ok() -> bool {
    selector_ok("h4"@) && selector_ok("script"@) && selector_ok("p"@) && selector_ok("p, h4"@)
        && selector_ok("div"@) && selector_ok("div, p"@) && selector_ok("a[href*='/media/']"@)
}

/// The assembly of one page's document-determined fields, in the fixed
/// extraction order: date, the four numeric counters, tremor breakdown,
/// alert, wind, emissions, summary, media.  The first mandatory failure is
/// the assembly's failure.
pub open spec fn assemble_spec(html: Seq<char>) -> Result<ReportCore, ErrView> {
    let h4s = texts_in(html, "h4"@);
    let ttexts = table_texts_in(html);
    let trows = table_rows_in(html);
    let scripts = texts_in(html, "script"@);
    let ps = texts_in(html, "p"@);
    let ph4s = texts_in(html, "p, h4"@);
    let divs = texts_in(html, "div"@);
    let divps = texts_in(html, "div, p"@);
    let hrefs = hrefs_in(html, "a[href*='/media/']"@);
    match date_scan_spec(h4s) {
        Err(e) => Err(e),
        Ok(date) => match field_value_spec(ttexts, trows, scripts, "Exhalaciones"@, date) {
            Err(e) => Err(e),
            Ok(exhalations) => match field_value_spec(
                ttexts,
                trows,
                scripts,
                "Volcanotectónicos"@,
                date,
            ) {
                Err(e) => Err(e),
                Ok(volcanotectonic_events) => match field_value_spec(
                    ttexts,
                    trows,
                    scripts,
                    "Minutos de tremor"@,
                    date,
                ) {
                    Err(e) => Err(e),
                    Ok(tremor_minutes_total) => match field_value_spec(
                        ttexts,
                        trows,
                        scripts,
                        "Explosiones"@,
                        date,
                    ) {
                        Err(e) => Err(e),
                        Ok(explosions) => match alert_scan_spec(ph4s) {
                            Err(e) => Err(e),
                            Ok(alert) => Ok(
                                ReportCore {
                                    date,
                                    exhalations,
                                    volcanotectonic_events,
                                    tremor_minutes_total,
                                    tremor_high_frequency_minutes: tremor_scan_spec(ps).0,
                                    tremor_harmonic_minutes: tremor_scan_spec(ps).1,
                                    explosions,
                                    so2_emissions_tons_per_day: so2_scan_spec(divps).0,
                                    so2_measurement_date: so2_scan_spec(divps).1,
                                    alert_level: alert.0,
                                    alert_phase: alert.1,
                                    wind_direction: wind_scan_spec(ps, divs),
                                    summary_spanish: summary_spec(ps),
                                    image_urls: media_urls(hrefs, ".jpg"@, ".png"@),
                                    video_urls: media_urls(hrefs, ".mp4"@, ".webm"@),
                                    source_url: report_url_spec(),
                                },
                            ),
                        },
                    },
                },
            },
        },
    }
}

/// What parsing one page text yields: a selector the engine refuses is that
/// selector's failure, in the order the document is consulted; otherwise the
/// assembly's result.
pub open spec fn parse_spec(html: Seq<char>) -> Result<ReportCore, ErrView> {
    if !selector_ok("h4"@) {
        Err(ErrView::Selector("h4"@))
    } else if !selector_ok("script"@) {
        Err(ErrView::Selector("script"@))
    } else if !selector_ok("p"@) {
        Err(ErrView::Selector("p"@))
    } else if !selector_ok("p, h4"@) {
        Err(ErrView::Selector("p, h4"@))
    } else if !selector_ok("div"@) {
        Err(ErrView::Selector("div"@))
    } else if !selector_ok("div, p"@) {
        Err(ErrView::Selector("div, p"@))
    } else if !selector_ok("a[href*='/media/']"@) {
        Err(ErrView::Selector("a[href*='/media/']"@))
    } else {
        assemble_spec(html)
    }
}

/// The result of parsing a page for a requested date: the parsed report when
/// its date is the requested one, and a mismatch failure naming both dates
/// otherwise.
pub open spec fn parse_for_date_spec(html: Seq<char>, want: Date) -> Result<ReportCore, ErrView> {
    match parse_spec(html) {
        Err(e) => Err(e),
        Ok(core) => if core.date == want {
            Ok(core)
        } else {
            Err(
                ErrView::Parse(
                    "Report date mismatch: requested "@ + iso_seq(want) + ", got "@ + iso_seq(
                        core.date,
                    ),
                ),
            )
        },
    }
}

/// The exec result agrees with the spec result: same success, the same
/// document-determined fields, the same error.
pub open spec fn report_matches(
    r: Result<VolcanoReport, PopoError>,
    s: Result<ReportCore, ErrView>,
) -> bool {
    match r {
        Ok(rep) => s == Ok::<ReportCore, ErrView>(core_view(rep)),
        Err(e) => s == Err::<ReportCore, ErrView>(e@),
    }
}

/// Parsing is a function of the page text alone: two results for the same
/// text succeed together, agree on every document-determined field, and fail
/// with the same error.  Only the retrieval timestamps may differ.
pub proof fn lemma_parse_deterministic(
    r1: Result<VolcanoReport, PopoError>,
    r2: Result<VolcanoReport, PopoError>,
    html: Seq<char>,
)
    requires
        report_matches(r1, parse_spec(html)),
        report_matches(r2, parse_spec(html)),
    ensures
        r1 is Ok <==> r2 is Ok,
        r1 is Ok && r2 is Ok ==> core_view(r1->Ok_0) == core_view(r2->Ok_0),
        r1 is Err && r2 is Err ==> r1->Err_0@ == r2->Err_0@,
{
}

/// Reads bulletins out of page texts.  The companion that fetches the pages
/// themselves lives outside the library and hands the raw HTML in.
pub struct Scraper {}

impl Scraper {
    pub fn new() -> (r: Scraper)
        ensures
            r == (Scraper {  }),
    {
        Scraper {  }
    }

    /// Parses one bulletin page and assembles the report, stamping the
    /// retrieval timestamps.
    pub fn parse_report(&self, html: &str) -> (r: Result<VolcanoReport, PopoError>)
        ensures
            report_matches(r, parse_spec(html@)),
    {
        parse_report_text(html)
    }

    /// Parses a bulletin page fetched for a requested date and checks that
    /// the report is really for that date: the source may silently serve the
    /// nearest available report instead.
    pub fn parse_report_for_date(&self, html: &str, date: &Date) -> (r: Result<
        VolcanoReport,
        PopoError,
    >)
        ensures
            report_matches(r, parse_for_date_spec(html@, *date)),
    {
        let report = match parse_report_text(html) {
            Ok(rep) => rep,
            Err(e) => {
                return Err(e);
            },
        };
        if report.date == *date {
            Ok(report)
        } else {
            let mut msg: Vec<char> = Vec::new();
            push_lit(&mut msg, "Report date mismatch: requested ");
            let want = iso_chars(date);
            crate::text::push_chars(&mut msg, &want);
            push_lit(&mut msg, ", got ");
            let got = iso_chars(&report.date);
            crate::text::push_chars(&mut msg, &got);
            proof {
                assert(msg@ =~= "Report date mismatch: requested "@ + iso_seq(*date) + ", got "@
                    + iso_seq(report.date));
            }
            Err(PopoError::Parse(string_from_chars(&msg)))
        }
    }

    /// Parses a Spanish long-form date "`D de Month de Y`".
    pub fn parse_spanish_date(text: &str) -> (r: Result<Date, PopoError>)
        ensures
            crate::error::res_view(r) == crate::dates::spanish_date_spec(text@),
    {
        crate::dates::parse_spanish_date(text)
    }

    /// Parses a Spanish month name, case-insensitively.
    pub fn parse_spanish_month(text: &str) -> (r: Option<u32>)
        ensures
            r == crate::dates::spanish_month_spec(text@),
    {
        crate::dates::parse_spanish_month(text)
    }

    /// Extracts the integer standing right before `marker` in `text`.
    pub fn extract_number_before(text: &str, marker: &str) -> (r: Option<u32>)
        ensures
            r == crate::extract::number_before_spec(text@, marker@),
    {
        crate::extract::extract_number_before(text, marker)
    }
}

impl Default for Scraper {
    fn default() -> (r: Scraper)
        ensures
            r == (Scraper {  }),
    {
        Scraper::new()
    }
}

/// Parses one bulletin page text into a report.
pub fn parse_report_text(html: &str) -> (r: Result<VolcanoReport, PopoError>)
    ensures
        report_matches(r, parse_spec(html@)),
{
    let h4s = match select_texts(html, "h4") {
        Some(v) => v,
        None => {
            return Err(selector_error("h4"));
        },
    };
    let scripts = match select_texts(html, "script") {
        Some(v) => v,
        None => {
            return Err(selector_error("script"));
        },
    };
    let ps = match select_texts(html, "p") {
        Some(v) => v,
        None => {
            return Err(selector_error("p"));
        },
    };
    let ph4s = match select_texts(html, "p, h4") {
        Some(v) => v,
        None => {
            return Err(selector_error("p, h4"));
        },
    };
    let divs = match select_texts(html, "div") {
        Some(v) => v,
        None => {
            return Err(selector_error("div"));
        },
    };
    let divps = match select_texts(html, "div, p") {
        Some(v) => v,
        None => {
            return Err(selector_error("div, p"));
        },
    };
    let hrefs = match select_hrefs(html, "a[href*='/media/']") {
        Some(v) => v,
        None => {
            return Err(selector_error("a[href*='/media/']"));
        },
    };
    let tables = select_tables(html);
    let ttexts = tables.0;
    let trows = tables.1;

    let date = match date_from_heading_texts(&h4s) {
        Ok(d) => d,
        Err(e) => {
            return Err(e);
        },
    };
    let exhalations = match extract_from_table(&ttexts, &trows, &scripts, "Exhalaciones", &date) {
        Ok(v) => v,
        Err(e) => {
            return Err(e);
        },
    };
    let volcanotectonic_events = match extract_from_table(
        &ttexts,
        &trows,
        &scripts,
        "Volcanotectónicos",
        &date,
    ) {
        Ok(v) => v,
        Err(e) => {
            return Err(e);
        },
    };
    let tremor_minutes_total = match extract_from_table(
        &ttexts,
        &trows,
        &scripts,
        "Minutos de tremor",
        &date,
    ) {
        Ok(v) => v,
        Err(e) => {
            return Err(e);
        },
    };
    let explosions = match extract_from_table(&ttexts, &trows, &scripts, "Explosiones", &date) {
        Ok(v) => v,
        Err(e) => {
            return Err(e);
        },
    };
    let tremor_pair = tremor_from_texts(&ps);
    let alert = match alert_from_texts(&ph4s) {
        Ok(a) => a,
        Err(e) => {
            return Err(e);
        },
    };
    let wind_direction = wind_from_texts(&ps, &divs);
    let so2_pair = so2_from_texts(&divps);
    let summary_spanish = summary_from_texts(&ps);
    let image_urls = media_from_hrefs(&hrefs, ".jpg", ".png");
    let video_urls = media_from_hrefs(&hrefs, ".mp4", ".webm");
    let mut url: Vec<char> = Vec::new();
    push_lit(
        &mut url,
        "https://www.cenapred.unam.mx/reportesVolcanesMX/Procesos?tipoProceso=detallesUltimoReporteVolcan",
    );
    let source_url = string_from_chars(&url);
    let report_time = now_unix();
    let scraped_at = now_unix();
    let report = VolcanoReport {
        date,
        report_time,
        exhalations,
        volcanotectonic_events,
        tremor_minutes_total,
        tremor_high_frequency_minutes: tremor_pair.0,
        tremor_harmonic_minutes: tremor_pair.1,
        explosions,
        so2_emissions_tons_per_day: so2_pair.0,
        so2_measurement_date: so2_pair.1,
        alert_level: alert.0,
        alert_phase: alert.1,
        wind_direction,
        summary_spanish,
        image_urls,
        video_urls,
        source_url,
        scraped_at,
    };
    proof {
        assert(url@ =~= report_url_spec());
        assert(core_view(report) =~~= assemble_spec(html@)->Ok_0);
    }
    Ok(report)
}

/// A selection failure carrying the refused selector text.
fn selector_error(sel: &str) -> (r: PopoError)
    ensures
        r@ == ErrView::Selector(sel@),
{
    let cs = crate::text::chars_of(sel);
    PopoError::Selector(string_from_chars(&cs))
}

} // verus!
