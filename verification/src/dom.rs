//! Trusted queries over the HTML document, and the clock.
//!
//! The bulletin pages are parsed by the `scraper` crate.  Each query here
//! re-parses the page text and hands back plain string values, so the rest of
//! the library works on ordinary sequences of characters.  What the document
//! holds for a given page text and selector is named by uninterpreted
//! functions: the parser is deterministic, so those names are well defined.

use vstd::prelude::*;

verus! {

/// Whether `sel` is a selector the query engine accepts.  Names the success
/// of `scraper::Selector::parse`, which depends on the selector text alone.
pub uninterp spec fn selector_ok(sel: Seq<char>) -> bool;

/// The concatenated descendant text of each element of the parsed page
/// matching `sel`, in document order.  Names the result of selecting on
/// `scraper::Html::parse_document(html)` and reading each match with
/// `ElementRef::text`; a function of the page text and the selector alone.
pub uninterp spec fn texts_in(html: Seq<char>, sel: Seq<char>) -> Seq<Seq<char>>;

/// The `href` attribute value of each element matching `sel` that has one,
/// in document order.  A function of the page text and the selector alone.
pub uninterp spec fn hrefs_in(html: Seq<char>, sel: Seq<char>) -> Seq<Seq<char>>;

/// The full text of each `table` element of the page, in document order.
pub uninterp spec fn table_texts_in(html: Seq<char>) -> Seq<Seq<char>>;

/// For each `table` element of the page, in document order: for each of its
/// `tr` rows, the texts of its `td` cells.
pub uninterp spec fn table_rows_in(html: Seq<char>) -> Seq<Seq<Seq<Seq<char>>>>;

/// Relies on `scraper::Selector::parse`, `scraper::Html::parse_document`,
/// `Html::select` and `ElementRef::text`: parses the page, selects by `sel`
/// and returns each match's concatenated text in document order.  `None`
/// exactly when the selector text does not parse.
#[verifier::external_body]
pub fn select_texts(html: &str, sel: &str) -> (r: Option<Vec<String>>)
    ensures
        r is Some <==> selector_ok(sel@),
        r is Some ==> r->0.deep_view() == texts_in(html@, sel@),
{
    let selector = match scraper::Selector::parse(sel) {
        Ok(s) => s,
        Err(_) => return None,
    };
    let doc = scraper::Html::parse_document(html);
    Some(doc.select(&selector).map(|e| e.text().collect::<String>()).collect())
}

/// Relies on the same `scraper` calls plus `ElementRef::attr`: returns the
/// `href` value of each match that carries one, in document order.  `None`
/// exactly when the selector text does not parse.
#[verifier::external_body]
pub fn select_hrefs(html: &str, sel: &str) -> (r: Option<Vec<String>>)
    ensures
        r is Some <==> selector_ok(sel@),
        r is Some ==> r->0.deep_view() == hrefs_in(html@, sel@),
{
    let selector = match scraper::Selector::parse(sel) {
        Ok(s) => s,
        Err(_) => return None,
    };
    let doc = scraper::Html::parse_document(html);
    Some(doc.select(&selector).filter_map(|e| e.attr("href").map(str::to_string)).collect())
}

/// Relies on the same `scraper` calls with the fixed selectors `table`, `tr`
/// and `td` (all valid, so `Selector::parse` cannot fail): returns each
/// table's full text and, alongside it, the cell texts of each of its rows.
/// Both lists follow document order, so they have equal length and index `i`
/// of each describes the same table.
#[verifier::external_body]
pub fn select_tables(html: &str) -> (r: (Vec<String>, Vec<Vec<Vec<String>>>))
    ensures
        r.0.deep_view() == table_texts_in(html@),
        r.1.deep_view() == table_rows_in(html@),
        r.0@.len() == r.1@.len(),
{
    let ts = scraper::Selector::parse("table").unwrap();
    let rs = scraper::Selector::parse("tr").unwrap();
    let cs = scraper::Selector::parse("td").unwrap();
    let doc = scraper::Html::parse_document(html);
    let texts = doc.select(&ts).map(|t| t.text().collect::<String>()).collect();
    let rows = doc
        .select(&ts)
        .map(|t| {
            t.select(&rs)
                .map(|row| row.select(&cs).map(|c| c.text().collect::<String>()).collect())
                .collect()
        })
        .collect();
    (texts, rows)
}

/// Relies on `std::time::SystemTime::now` for the retrieval timestamps,
/// returned as Unix seconds.  Nothing is assumed of the clock's value.
#[verifier::external_body]
pub fn now_unix() -> i64 {
    match std::time::SystemTime::now().duration_since(std::time::UNIX_EPOCH) {
        Ok(d) => d.as_secs() as i64,
        Err(_) => 0,
    }
}

} // verus!
