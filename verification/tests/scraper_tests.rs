use popo_cli::{AlertLevel, Date, Decimal, Scraper};

fn fixture_html() -> String {
    let mut html = String::new();
    html.push_str("<!DOCTYPE html><html><head><title>Reporte</title></head><body>");
    html.push_str("<h4>06 de Octubre de 2025</h4>");
    html.push_str("<table><tr><th>Fecha</th><th>Exhalaciones</th></tr>");
    html.push_str("<tr><td>06-10-2025</td><td>15</td></tr></table>");
    html.push_str("<table><tr><th>Fecha</th><th>Volcanotectónicos</th></tr>");
    html.push_str("<tr><td>06-10-2025</td><td>0</td></tr></table>");
    html.push_str("<table><tr><th>Fecha</th><th>Minutos de tremor</th></tr>");
    html.push_str("<tr><td>06-10-2025</td><td>53</td></tr></table>");
    html.push_str("<table><tr><th>Fecha</th><th>Explosiones</th></tr>");
    html.push_str("<tr><td>06-10-2025</td><td>0</td></tr></table>");
    html.push_str(
        "<p>En las últimas 24 horas se detectaron 15 exhalaciones y 53 minutos de tremor, \
         de los cuales 39 minutos fueron de alta frecuencia y 14 minutos de armónico.</p>",
    );
    html.push_str("<p>Semáforo de Alerta Volcánica: AMARILLO FASE 2</p>");
    html.push_str("<p>La dirección del viento fue hacia el noroeste durante la actividad.</p>");
    html.push_str(
        "<div>Se registraron 2603.00 toneladas por día de bióxido de azufre, medido el 10 octubre 2024</div>",
    );
    html.push_str("<a href=\"/media/foto1.jpg\">foto</a>");
    html.push_str("<a href=\"https://example.com/media/video1.mp4\">video</a>");
    html.push_str("</body></html>");
    html
}

#[test]
fn test_parse_spanish_date() {
    let result = Scraper::parse_spanish_date("06 de Octubre de 2025").unwrap();
    assert_eq!(result, Date::from_ymd_opt(2025, 10, 6).unwrap());

    let result = Scraper::parse_spanish_date("15 de Enero de 2024").unwrap();
    assert_eq!(result, Date::from_ymd_opt(2024, 1, 15).unwrap());
}

#[test]
fn test_parse_report_with_fixture() {
    let html = fixture_html();
    let scraper = Scraper::new();

    let report = scraper.parse_report(&html).unwrap();

    assert_eq!(report.date, Date::from_ymd_opt(2025, 10, 6).unwrap());
    assert_eq!(report.exhalations, 15);
    assert_eq!(report.volcanotectonic_events, 0);
    assert_eq!(report.tremor_minutes_total, 53);
    assert_eq!(report.explosions, 0);
    assert_eq!(report.alert_level, AlertLevel::Yellow);
    assert!(report.alert_phase.contains("AMARILLO"));

    // Check tremor breakdown
    assert_eq!(report.tremor_high_frequency_minutes, Some(39));
    assert_eq!(report.tremor_harmonic_minutes, Some(14));

    // Check SO2: 2603.00 tons per day, kept exactly as printed.
    assert_eq!(
        report.so2_emissions_tons_per_day,
        Some(Decimal { mantissa: 260300, scale: 2 })
    );

    // Check that we got some summary text
    assert!(!report.summary_spanish.is_empty());
    assert!(report.summary_spanish.contains("exhalaciones"));
}

#[test]
fn test_extract_number_before() {
    let text = "se registraron 39 minutos fueron de alta frecuencia";
    let result = Scraper::extract_number_before(text, "minutos fueron de alta frecuencia");
    assert_eq!(result, Some(39));
}

#[test]
fn test_parse_spanish_month() {
    assert_eq!(Scraper::parse_spanish_month("enero"), Some(1));
    assert_eq!(Scraper::parse_spanish_month("octubre"), Some(10));
    assert_eq!(Scraper::parse_spanish_month("diciembre"), Some(12));
    assert_eq!(Scraper::parse_spanish_month("invalid"), None);
}

#[test]
fn test_fixture_wind_so2_date_and_media() {
    let html = fixture_html();
    let scraper = Scraper::new();
    let report = scraper.parse_report(&html).unwrap();

    assert_eq!(report.wind_direction, Some(popo_cli::WindDirection::NW));
    assert_eq!(
        report.so2_measurement_date,
        Some(Date::from_ymd_opt(2024, 10, 10).unwrap())
    );
    assert_eq!(
        report.image_urls,
        vec!["https://www.cenapred.unam.mx/media/foto1.jpg".to_string()]
    );
    assert_eq!(
        report.video_urls,
        vec!["https://example.com/media/video1.mp4".to_string()]
    );
    assert_eq!(
        report.source_url,
        "https://www.cenapred.unam.mx/reportesVolcanesMX/Procesos?tipoProceso=detallesUltimoReporteVolcan"
    );
}

#[test]
fn test_parse_report_twice_agrees_except_timestamps() {
    let html = fixture_html();
    let scraper = Scraper::new();
    let first = scraper.parse_report(&html).unwrap();
    let mut second = scraper.parse_report(&html).unwrap();
    second.report_time = first.report_time;
    second.scraped_at = first.scraped_at;
    assert_eq!(first, second);
}

#[test]
fn test_parse_report_for_date_match_and_mismatch() {
    let html = fixture_html();
    let scraper = Scraper::new();

    let good = Date::from_ymd_opt(2025, 10, 6).unwrap();
    let report = scraper.parse_report_for_date(&html, &good).unwrap();
    assert_eq!(report.date, good);

    let wanted = Date::from_ymd_opt(2025, 10, 7).unwrap();
    let err = scraper.parse_report_for_date(&html, &wanted).unwrap_err();
    match err {
        popo_cli::PopoError::Parse(msg) => {
            assert!(msg.contains("Report date mismatch"));
            assert!(msg.contains("2025-10-07"));
            assert!(msg.contains("2025-10-06"));
        }
        _ => panic!("expected a parse error"),
    }
}

#[test]
fn test_missing_alert_is_parse_error() {
    // The same document without any alert color anywhere: assembly must fail
    // with a parse error naming the alert level.
    let mut html = String::new();
    html.push_str("<html><body><h4>06 de Octubre de 2025</h4>");
    html.push_str("<table><tr><th>Fecha</th><th>Exhalaciones</th></tr>");
    html.push_str("<tr><td>06-10-2025</td><td>15</td></tr></table>");
    html.push_str("<table><tr><th>Fecha</th><th>Volcanotectónicos</th></tr>");
    html.push_str("<tr><td>06-10-2025</td><td>0</td></tr></table>");
    html.push_str("<table><tr><th>Fecha</th><th>Minutos de tremor</th></tr>");
    html.push_str("<tr><td>06-10-2025</td><td>53</td></tr></table>");
    html.push_str("<table><tr><th>Fecha</th><th>Explosiones</th></tr>");
    html.push_str("<tr><td>06-10-2025</td><td>0</td></tr></table>");
    html.push_str("</body></html>");
    let scraper = Scraper::new();
    let err = scraper.parse_report(&html).unwrap_err();
    match err {
        popo_cli::PopoError::Parse(msg) => {
            assert_eq!(msg, "Could not find alert level");
        }
        _ => panic!("expected a parse error"),
    }
}

#[test]
fn test_missing_wind_is_none() {
    // No wind-direction paragraph: assembly succeeds with no direction.
    let mut html = String::new();
    html.push_str("<html><body><h4>06 de Octubre de 2025</h4>");
    html.push_str("<table><tr><th>Fecha</th><th>Exhalaciones</th></tr>");
    html.push_str("<tr><td>06-10-2025</td><td>15</td></tr></table>");
    html.push_str("<table><tr><th>Fecha</th><th>Volcanotectónicos</th></tr>");
    html.push_str("<tr><td>06-10-2025</td><td>0</td></tr></table>");
    html.push_str("<table><tr><th>Fecha</th><th>Minutos de tremor</th></tr>");
    html.push_str("<tr><td>06-10-2025</td><td>53</td></tr></table>");
    html.push_str("<table><tr><th>Fecha</th><th>Explosiones</th></tr>");
    html.push_str("<tr><td>06-10-2025</td><td>0</td></tr></table>");
    html.push_str("<p>Semáforo de Alerta Volcánica: AMARILLO FASE 2</p>");
    html.push_str("</body></html>");
    let scraper = Scraper::new();
    let report = scraper.parse_report(&html).unwrap();
    assert_eq!(report.wind_direction, None);
    assert_eq!(report.tremor_high_frequency_minutes, None);
    assert_eq!(report.tremor_harmonic_minutes, None);
    assert_eq!(report.so2_emissions_tons_per_day, None);
    assert_eq!(report.so2_measurement_date, None);
}

#[test]
fn test_parse_report_chart_script_fallback() {
    // A live-format page: no static tables, the counters sit in chart scripts,
    // and the heading carries an ISO date.
    let mut html = String::new();
    html.push_str("<html><body><h4>Reporte 2025-10-06</h4>");
    for (field, value) in [
        ("Exhalaciones", 7),
        ("Volcanotectónicos", 1),
        ("Minutos de tremor", 120),
        ("Explosiones", 2),
    ] {
        html.push_str("<script>\nvar data = new google.visualization.DataTable();\n");
        html.push_str(&format!("data.addColumn('number', '{}');\n", field));
        html.push_str("data.addRows([\n");
        html.push_str(&format!("['2025-10-06 06:00', {}, '#abc'],\n", value));
        html.push_str("['2025-10-05 06:00', 99, '#abc'],\n");
        html.push_str("]);\n</script>");
    }
    html.push_str("<p>Semáforo de Alerta Volcánica VERDE</p>");
    html.push_str("<p>La actividad del volcán se mantuvo estable durante el periodo.</p>");
    html.push_str("</body></html>");

    let scraper = Scraper::new();
    let report = scraper.parse_report(&html).unwrap();
    assert_eq!(report.date, Date::from_ymd_opt(2025, 10, 6).unwrap());
    assert_eq!(report.exhalations, 7);
    assert_eq!(report.volcanotectonic_events, 1);
    assert_eq!(report.tremor_minutes_total, 120);
    assert_eq!(report.explosions, 2);
    assert_eq!(report.alert_level, AlertLevel::Green);
    assert!(report.summary_spanish.contains("actividad"));
}

#[test]
fn test_missing_counter_names_field_and_date() {
    let mut html = String::new();
    html.push_str("<html><body><h4>06 de Octubre de 2025</h4>");
    html.push_str("<table><tr><th>Fecha</th><th>Exhalaciones</th></tr>");
    html.push_str("<tr><td>06-10-2025</td><td>15</td></tr></table>");
    html.push_str("</body></html>");
    let scraper = Scraper::new();
    let err = scraper.parse_report(&html).unwrap_err();
    match err {
        popo_cli::PopoError::Parse(msg) => {
            assert_eq!(
                msg,
                "Could not find Volcanotectónicos data for date 06-10-2025"
            );
        }
        _ => panic!("expected a parse error"),
    }
}

#[test]
fn test_missing_date_is_parse_error() {
    let scraper = Scraper::new();
    let err = scraper.parse_report("<html><body><p>nada</p></body></html>").unwrap_err();
    match err {
        popo_cli::PopoError::Parse(msg) => {
            assert_eq!(msg, "Could not find date in report");
        }
        _ => panic!("expected a parse error"),
    }
}

#[test]
fn test_invalid_table_value_is_parse_error() {
    let mut html = String::new();
    html.push_str("<html><body><h4>06 de Octubre de 2025</h4>");
    html.push_str("<table><tr><th>Fecha</th><th>Exhalaciones</th></tr>");
    html.push_str("<tr><td>06-10-2025</td><td>muchas</td></tr></table>");
    html.push_str("</body></html>");
    let scraper = Scraper::new();
    let err = scraper.parse_report(&html).unwrap_err();
    match err {
        popo_cli::PopoError::Parse(msg) => {
            assert!(msg.contains("Invalid value for Exhalaciones"));
        }
        _ => panic!("expected a parse error"),
    }
}
