use popo_cli::{AlertLevel, WindDirection};

#[test]
fn test_alert_level_from_spanish() {
    assert_eq!(
        AlertLevel::from_spanish("Amarillo Fase 2"),
        Some(AlertLevel::Yellow)
    );
    assert_eq!(
        AlertLevel::from_spanish("VERDE"),
        Some(AlertLevel::Green)
    );
    assert_eq!(AlertLevel::from_spanish("rojo"), Some(AlertLevel::Red));
    assert_eq!(
        AlertLevel::from_spanish("NARANJA"),
        Some(AlertLevel::Orange)
    );
    assert_eq!(AlertLevel::from_spanish("unknown"), None);
}

#[test]
fn test_wind_direction_from_spanish() {
    assert_eq!(
        WindDirection::from_spanish("norte-noroeste"),
        Some(WindDirection::NNW)
    );
    assert_eq!(
        WindDirection::from_spanish("NORESTE"),
        Some(WindDirection::NE)
    );
    assert_eq!(WindDirection::from_spanish("sur"), Some(WindDirection::S));
    assert_eq!(
        WindDirection::from_spanish("oeste-suroeste"),
        Some(WindDirection::WSW)
    );
}

#[test]
fn test_wind_direction_compound_not_shadowed() {
    // A phrase mentioning the north-west must never classify as plain north.
    assert_eq!(
        WindDirection::from_spanish("viento hacia el noroeste"),
        Some(WindDirection::NW)
    );
    assert_eq!(
        WindDirection::from_spanish("nornoroeste"),
        Some(WindDirection::NNW)
    );
    assert_eq!(
        WindDirection::from_spanish("Nor Noroeste"),
        Some(WindDirection::NNW)
    );
}

#[test]
fn test_wind_direction_no_match() {
    assert_eq!(WindDirection::from_spanish("sin datos"), None);
    assert_eq!(WindDirection::from_spanish(""), None);
}

#[test]
fn test_alert_level_priority_order() {
    // The color tokens are tried green, yellow, orange, red: the first one
    // that occurs anywhere in the text wins.
    assert_eq!(
        AlertLevel::from_spanish("rojo y verde"),
        Some(AlertLevel::Green)
    );
    assert_eq!(
        AlertLevel::from_spanish("Semaforo de Alerta Volcanica AMARILLO"),
        Some(AlertLevel::Yellow)
    );
}
