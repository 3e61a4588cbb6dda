use popo_cli::{AlertLevel, Scraper};

fn counters_block() -> String {
    let mut html = String::new();
    html.push_str("<table><tr><th>Fecha</th><th>Exhalaciones</th></tr>");
    html.push_str("<tr><td>06-10-2025</td><td>15</td></tr></table>");
    html.push_str("<table><tr><th>Fecha</th><th>Volcanotectónicos</th></tr>");
    html.push_str("<tr><td>06-10-2025</td><td>0</td></tr></table>");
    html.push_str("<table><tr><th>Fecha</th><th>Minutos de tremor</th></tr>");
    html.push_str("<tr><td>06-10-2025</td><td>53</td></tr></table>");
    html.push_str("<table><tr><th>Fecha</th><th>Explosiones</th></tr>");
    html.push_str("<tr><td>06-10-2025</td><td>0</td></tr></table>");
    html
}

#[test]
fn test_alert_first_in_document_order_wins() {
    // The alert scan walks paragraphs and level-4 headings in document
    // order: a green heading standing before a yellow paragraph wins.
    let mut html = String::new();
    html.push_str("<html><body><h4>06 de Octubre de 2025</h4>");
    html.push_str(&counters_block());
    html.push_str("<h4>Semáforo VERDE</h4>");
    html.push_str("<p>Semáforo de Alerta Volcánica: AMARILLO FASE 2</p>");
    html.push_str("</body></html>");
    let scraper = Scraper::new();
    let report = scraper.parse_report(&html).unwrap();
    assert_eq!(report.alert_level, AlertLevel::Green);
    assert_eq!(report.alert_phase, "Semáforo VERDE");
}

#[test]
fn test_summary_sentinel_when_no_paragraphs() {
    // No paragraph at all: the summary falls back to the fixed sentence.
    let mut html = String::new();
    html.push_str("<html><body><h4>06 de Octubre de 2025</h4>");
    html.push_str(&counters_block());
    html.push_str("<h4>Semáforo de Alerta Volcánica AMARILLO FASE 2</h4>");
    html.push_str("</body></html>");
    let scraper = Scraper::new();
    let report = scraper.parse_report(&html).unwrap();
    assert_eq!(report.summary_spanish, "No summary available");
}

#[test]
fn test_summary_fallback_long_paragraph() {
    // No paragraph mentions a keyword, but one is long enough for the
    // fallback pass.
    let mut html = String::new();
    html.push_str("<html><body><h4>06 de Octubre de 2025</h4>");
    html.push_str(&counters_block());
    html.push_str("<h4>Semáforo de Alerta Volcánica AMARILLO FASE 2</h4>");
    html.push_str("<p>corto</p>");
    html.push_str(
        "<p>Las condiciones meteorológicas del día impidieron la visibilidad continua del cráter.</p>",
    );
    html.push_str("</body></html>");
    let scraper = Scraper::new();
    let report = scraper.parse_report(&html).unwrap();
    assert!(report.summary_spanish.contains("condiciones meteorológicas"));
    assert!(!report.summary_spanish.contains("corto"));
}

#[test]
fn test_summary_collects_at_most_three() {
    let mut html = String::new();
    html.push_str("<html><body><h4>06 de Octubre de 2025</h4>");
    html.push_str(&counters_block());
    html.push_str("<h4>Semáforo de Alerta Volcánica AMARILLO FASE 2</h4>");
    for i in 1..=5 {
        html.push_str(&format!(
            "<p>Párrafo {} sobre la actividad observada en el volcán.</p>",
            i
        ));
    }
    html.push_str("</body></html>");
    let scraper = Scraper::new();
    let report = scraper.parse_report(&html).unwrap();
    let parts: Vec<&str> = report.summary_spanish.split("\n\n").collect();
    assert_eq!(parts.len(), 3);
    assert!(parts[0].contains("Párrafo 1"));
    assert!(parts[2].contains("Párrafo 3"));
}

#[test]
fn test_media_order_and_filtering() {
    let mut html = String::new();
    html.push_str("<html><body><h4>06 de Octubre de 2025</h4>");
    html.push_str(&counters_block());
    html.push_str("<h4>Semáforo de Alerta Volcánica AMARILLO FASE 2</h4>");
    html.push_str("<a href=\"/media/b.png\">b</a>");
    html.push_str("<a href=\"/media/a.jpg\">a</a>");
    html.push_str("<a href=\"/media/ignored.pdf\">doc</a>");
    html.push_str("<a href=\"/media/v.webm\">v</a>");
    html.push_str("<a href=\"/otra/c.jpg\">fuera</a>");
    html.push_str("</body></html>");
    let scraper = Scraper::new();
    let report = scraper.parse_report(&html).unwrap();
    assert_eq!(
        report.image_urls,
        vec![
            "https://www.cenapred.unam.mx/media/b.png".to_string(),
            "https://www.cenapred.unam.mx/media/a.jpg".to_string(),
        ]
    );
    assert_eq!(
        report.video_urls,
        vec!["https://www.cenapred.unam.mx/media/v.webm".to_string()]
    );
}

#[test]
fn test_iso_heading_date_with_surrounding_text() {
    // The fallback scans whitespace tokens of the heading for an ISO date.
    let mut html = String::new();
    html.push_str("<html><body><h4>Monitoreo 2025-10-06 04:00</h4>");
    html.push_str(&counters_block());
    html.push_str("<h4>Semáforo de Alerta Volcánica AMARILLO FASE 2</h4>");
    html.push_str("</body></html>");
    let scraper = Scraper::new();
    let report = scraper.parse_report(&html).unwrap();
    assert_eq!(report.date, popo_cli::Date::from_ymd_opt(2025, 10, 6).unwrap());
}
