//! The report record and the lexical classifiers for alert colors and
//! compass directions.

use vstd::prelude::*;
use crate::dates::Date;
use crate::text::{chars_of, has_sub, contains_lit, lower_char, lower_seq, to_lower};

verus! {

/// The agency's four-color hazard scale, ordered by severity.
#[derive(Debug, Clone, Copy, PartialEq, Eq, Structural)]
pub enum AlertLevel {
    Green,
    Yellow,
    Orange,
    Red,
}

/// The classification of a lower-cased text against the four color tokens,
/// tried in the fixed order green, yellow, orange, red; the first token that
/// occurs wins.
pub open spec fn alert_spec(l: Seq<char>) -> Option<AlertLevel> {
    if has_sub(l, "verde"@) {
        Some(AlertLevel::Green)
    } else if has_sub(l, "amarillo"@) {
        Some(AlertLevel::Yellow)
    } else if has_sub(l, "naranja"@) {
        Some(AlertLevel::Orange)
    } else if has_sub(l, "rojo"@) {
        Some(AlertLevel::Red)
    } else {
        None
    }
}

/// Classifies an already lower-cased text against the color tokens.
pub fn alert_from_lower(lowered: &Vec<char>) -> (r: Option<AlertLevel>)
    ensures
        r == alert_spec(lowered@),
{
    if contains_lit(lowered, "verde") {
        Some(AlertLevel::Green)
    } else if contains_lit(lowered, "amarillo") {
        Some(AlertLevel::Yellow)
    } else if contains_lit(lowered, "naranja") {
        Some(AlertLevel::Orange)
    } else if contains_lit(lowered, "rojo") {
        Some(AlertLevel::Red)
    } else {
        None
    }
}

impl AlertLevel {
    /// Classifies a Spanish text by the first alert color named in it,
    /// case-insensitively; text naming no color classifies as nothing.
    pub fn from_spanish(text: &str) -> (r: Option<AlertLevel>)
        ensures
            r == alert_spec(lower_seq(text@)),
    {
        let cs = chars_of(text);
        let lowered = to_lower(&cs);
        alert_from_lower(&lowered)
    }
}

/// A sixteen-point compass direction.
#[derive(Debug, Clone, Copy, PartialEq, Eq, Structural)]
pub enum WindDirection {
    N,
    NNE,
    NE,
    ENE,
    E,
    ESE,
    SE,
    SSE,
    S,
    SSW,
    SW,
    WSW,
    W,
    WNW,
    NW,
    NNW,
}

/// `s` with every space and hyphen removed.
pub open spec fn strip_seps(s: Seq<char>) -> Seq<char>
    decreases s.len(),
{
    if s.len() == 0 {
        Seq::empty()
    } else {
        let rest = strip_seps(s.drop_last());
        if s.last() == ' ' || s.last() == '-' {
            rest
        } else {
            rest.push(s.last())
        }
    }
}

/// The compass classifier's normal form: lower-cased, with spaces and
/// hyphens removed.
pub open spec fn compass_norm(s: Seq<char>) -> Seq<char> {
    strip_seps(lower_seq(s))
}

/// The classification of a normalised text against the Spanish direction
/// names, most specific first: compound names are tried before the plain
/// cardinal names they contain, so a compound mention is never shadowed by
/// one of its cardinal parts.
pub open spec fn compass_spec(n: Seq<char>) -> Option<WindDirection> {
    if has_sub(n, "nortenoroeste"@) || has_sub(n, "nornoroeste"@) {
        Some(WindDirection::NNW)
    } else if has_sub(n, "noroeste"@) {
        Some(WindDirection::NW)
    } else if has_sub(n, "oestenoroeste"@) || has_sub(n, "oestennoroeste"@) {
        Some(WindDirection::WNW)
    } else if has_sub(n, "oestesuroeste"@) || has_sub(n, "oestessuroeste"@) {
        Some(WindDirection::WSW)
    } else if has_sub(n, "suroeste"@) {
        Some(WindDirection::SW)
    } else if has_sub(n, "sursuroeste"@) || has_sub(n, "surssuroeste"@) {
        Some(WindDirection::SSW)
    } else if has_sub(n, "sursureste"@) || has_sub(n, "surssureste"@) {
        Some(WindDirection::SSE)
    } else if has_sub(n, "sureste"@) {
        Some(WindDirection::SE)
    } else if has_sub(n, "estesureste"@) || has_sub(n, "estessureste"@) {
        Some(WindDirection::ESE)
    } else if has_sub(n, "estenoreste"@) {
        Some(WindDirection::ENE)
    } else if has_sub(n, "noreste"@) {
        Some(WindDirection::NE)
    } else if has_sub(n, "nortenoreste"@) || has_sub(n, "nornoreste"@) {
        Some(WindDirection::NNE)
    } else if has_sub(n, "norte"@) {
        Some(WindDirection::N)
    } else if has_sub(n, "oeste"@) {
        Some(WindDirection::W)
    } else if has_sub(n, "sur"@) {
        Some(WindDirection::S)
    } else if has_sub(n, "este"@) {
        Some(WindDirection::E)
    } else {
        None
    }
}

/// Lower-cases `s` and removes spaces and hyphens.
pub fn normalize_compass(s: &Vec<char>) -> (r: Vec<char>)
    ensures
        r@ == compass_norm(s@),
{
    let mut r: Vec<char> = Vec::new();
    let mut i: usize = 0;
    while i < s.len()
        invariant
            i <= s.len(),
            r@ == compass_norm(s@.subrange(0, i as int)),
        decreases s.len() - i,
    {
        let c = crate::text::lower_char_exec(s[i]);
        if c != ' ' && c != '-' {
            r.push(c);
        }
        proof {
            let prev = s@.subrange(0, i as int);
            let next = s@.subrange(0, i + 1 as int);
            assert(lower_seq(next) =~= lower_seq(prev).push(lower_char(s@[i as int])));
            assert(lower_seq(next).drop_last() =~= lower_seq(prev));
        }
        i += 1;
    }
    proof {
        assert(s@.subrange(0, s@.len() as int) =~= s@);
    }
    r
}

/// Classifies an already normalised phrase against the direction names.
pub fn compass_from_norm(n: &Vec<char>) -> (r: Option<WindDirection>)
    ensures
        r == compass_spec(n@),
{
    if contains_lit(n, "nortenoroeste") || contains_lit(n, "nornoroeste") {
        Some(WindDirection::NNW)
    } else if contains_lit(n, "noroeste") {
        Some(WindDirection::NW)
    } else if contains_lit(n, "oestenoroeste") || contains_lit(n, "oestennoroeste") {
        Some(WindDirection::WNW)
    } else if contains_lit(n, "oestesuroeste") || contains_lit(n, "oestessuroeste") {
        Some(WindDirection::WSW)
    } else if contains_lit(n, "suroeste") {
        Some(WindDirection::SW)
    } else if contains_lit(n, "sursuroeste") || contains_lit(n, "surssuroeste") {
        Some(WindDirection::SSW)
    } else if contains_lit(n, "sursureste") || contains_lit(n, "surssureste") {
        Some(WindDirection::SSE)
    } else if contains_lit(n, "sureste") {
        Some(WindDirection::SE)
    } else if contains_lit(n, "estesureste") || contains_lit(n, "estessureste") {
        Some(WindDirection::ESE)
    } else if contains_lit(n, "estenoreste") {
        Some(WindDirection::ENE)
    } else if contains_lit(n, "noreste") {
        Some(WindDirection::NE)
    } else if contains_lit(n, "nortenoreste") || contains_lit(n, "nornoreste") {
        Some(WindDirection::NNE)
    } else if contains_lit(n, "norte") {
        Some(WindDirection::N)
    } else if contains_lit(n, "oeste") {
        Some(WindDirection::W)
    } else if contains_lit(n, "sur") {
        Some(WindDirection::S)
    } else if contains_lit(n, "este") {
        Some(WindDirection::E)
    } else {
        None
    }
}

impl WindDirection {
    /// Classifies a Spanish phrase by the first direction name in the fixed
    /// priority list that occurs in its normal form.
    pub fn from_spanish(text: &str) -> (r: Option<WindDirection>)
        ensures
            r == compass_spec(compass_norm(text@)),
    {
        let cs = chars_of(text);
        let n = normalize_compass(&cs);
        compass_from_norm(&n)
    }
}

/// Any normalised phrase that mentions the north-west classifies as
/// north-west, or as north-north-west when one of those longer names also
/// occurs; never as plain north.
pub proof fn lemma_noroeste_never_north(n: Seq<char>)
    requires
        has_sub(n, "noroeste"@),
    ensures
        compass_spec(n) == Some(WindDirection::NNW) || compass_spec(n) == Some(WindDirection::NW),
        compass_spec(n) != Some(WindDirection::N),
{
}

/// A normalised phrase that mentions one of the two north-north-west names
/// always classifies as north-north-west.
pub proof fn lemma_nnw_names_win(n: Seq<char>)
    requires
        has_sub(n, "nortenoroeste"@) || has_sub(n, "nornoroeste"@),
    ensures
        compass_spec(n) == Some(WindDirection::NNW),
{
}

/// A non-negative decimal number, kept exactly as parsed: the digits with the
/// decimal point removed, and how many of them were fractional.  The value is
/// `mantissa / 10^scale`.
#[derive(Debug, Clone, Copy, PartialEq, Eq, Structural)]
pub struct Decimal {
    pub mantissa: u64,
    pub scale: u32,
}

/// One day's bulletin, assembled from the published page.  Immutable once
/// constructed; equality is structural.
#[derive(Debug, Clone, PartialEq)]
pub struct VolcanoReport {
    /// The bulletin's reporting date: the anchor field.
    pub date: Date,
    /// When the source says the report applies, as Unix seconds.
    pub report_time: i64,
    pub exhalations: u32,
    pub volcanotectonic_events: u32,
    pub tremor_minutes_total: u32,
    pub tremor_high_frequency_minutes: Option<u32>,
    pub tremor_harmonic_minutes: Option<u32>,
    pub explosions: u32,
    pub so2_emissions_tons_per_day: Option<Decimal>,
    pub so2_measurement_date: Option<Date>,
    pub alert_level: AlertLevel,
    /// The full phrase the alert was read from, e.g. "AMARILLO FASE 2".
    pub alert_phase: String,
    pub wind_direction: Option<WindDirection>,
    /// Narrative paragraphs joined by blank lines; never empty.
    pub summary_spanish: String,
    pub image_urls: Vec<String>,
    pub video_urls: Vec<String>,
    pub source_url: String,
    /// When retrieval happened, as Unix seconds.
    pub scraped_at: i64,
}

/// The view of a report without its retrieval timestamps: everything that is
/// a function of the document alone.
#[verifier::ext_equal]
pub struct ReportCore {
    pub date: Date,
    pub exhalations: u32,
    pub volcanotectonic_events: u32,
    pub tremor_minutes_total: u32,
    pub tremor_high_frequency_minutes: Option<u32>,
    pub tremor_harmonic_minutes: Option<u32>,
    pub explosions: u32,
    pub so2_emissions_tons_per_day: Option<Decimal>,
    pub so2_measurement_date: Option<Date>,
    pub alert_level: AlertLevel,
    pub alert_phase: Seq<char>,
    pub wind_direction: Option<WindDirection>,
    pub summary_spanish: Seq<char>,
    pub image_urls: Seq<Seq<char>>,
    pub video_urls: Seq<Seq<char>>,
    pub source_url: Seq<char>,
}

/// Projects a report onto its document-determined fields.
pub open spec fn core_view(r: VolcanoReport) -> ReportCore {
    ReportCore {
        date: r.date,
        exhalations: r.exhalations,
        volcanotectonic_events: r.volcanotectonic_events,
        tremor_minutes_total: r.tremor_minutes_total,
        tremor_high_frequency_minutes: r.tremor_high_frequency_minutes,
        tremor_harmonic_minutes: r.tremor_harmonic_minutes,
        explosions: r.explosions,
        so2_emissions_tons_per_day: r.so2_emissions_tons_per_day,
        so2_measurement_date: r.so2_measurement_date,
        alert_level: r.alert_level,
        alert_phase: r.alert_phase@,
        wind_direction: r.wind_direction,
        summary_spanish: r.summary_spanish@,
        image_urls: r.image_urls.deep_view(),
        video_urls: r.video_urls.deep_view(),
        source_url: r.source_url@,
    }
}

} // verus!
