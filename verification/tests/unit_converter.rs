use pod_metrics_exporter::quantity::Quantity;
use pod_metrics_exporter::unit_converter::{parse_cpu_value, parse_memory_value};

fn qty_f64(q: Quantity) -> f64 {
    q.mantissa as f64 / 10f64.powi(q.scale as i32)
}

#[test]
fn test_parse_cpu_value() {
    assert_eq!(qty_f64(parse_cpu_value("0").unwrap()), 0.0);
    assert_eq!(qty_f64(parse_cpu_value("1").unwrap()), 1.0);
    assert_eq!(qty_f64(parse_cpu_value("1m").unwrap()), 1.0);
    assert_eq!(qty_f64(parse_cpu_value("1u").unwrap()), 0.001);
    assert_eq!(qty_f64(parse_cpu_value("1n").unwrap()), 0.000001);
    assert_eq!(
        parse_cpu_value("1xxx").unwrap_err(),
        "Unable to parse CPU value: 1xxx".to_string()
    );
    assert_eq!(
        parse_cpu_value("1x").unwrap_err(),
        "Unknown CPU unit: 1x".to_string()
    );
}

#[test]
fn test_parse_memory_value() {
    assert_eq!(qty_f64(parse_memory_value("0").unwrap()), 0.0);
    assert_eq!(qty_f64(parse_memory_value("1").unwrap()), 1.0);
    assert_eq!(qty_f64(parse_memory_value("1Mi").unwrap()), 1.0);
    assert_eq!(qty_f64(parse_memory_value("1Ki").unwrap()), 1.0 / 1024.0);
    assert_eq!(qty_f64(parse_memory_value("1Gi").unwrap()), 1024.0);
    assert_eq!(
        parse_memory_value("1xxx").unwrap_err(),
        "Unable to parse memory value: 1xxx".to_string()
    );
    assert_eq!(
        parse_memory_value("1x").unwrap_err(),
        "Unable to parse memory value: 1x".to_string()
    );
    assert_eq!(
        parse_memory_value("123XX").unwrap_err(),
        "Unknown memory unit: 123XX".to_string()
    );
}

#[test]
fn parse_cpu_plain_numbers_are_identity() {
    assert_eq!(qty_f64(parse_cpu_value("500").unwrap()), 500.0);
    assert_eq!(qty_f64(parse_cpu_value("2.25").unwrap()), 2.25);
    assert_eq!(qty_f64(parse_cpu_value("0.0").unwrap()), 0.0);
    assert_eq!(qty_f64(parse_memory_value("128").unwrap()), 128.0);
    assert_eq!(qty_f64(parse_memory_value("3.5").unwrap()), 3.5);
}

#[test]
fn parse_cpu_empty_and_unknown_suffix() {
    assert_eq!(
        parse_cpu_value("").unwrap_err(),
        "Empty string cannot be parsed as CPU value".to_string()
    );
    assert_eq!(
        parse_memory_value("").unwrap_err(),
        "Empty string cannot be parsed as memory value".to_string()
    );
    // An unknown suffix is accepted only over an exactly zero prefix.
    assert_eq!(qty_f64(parse_cpu_value("0x").unwrap()), 0.0);
    assert_eq!(qty_f64(parse_cpu_value("0.00x").unwrap()), 0.0);
    assert!(parse_cpu_value("1x").is_err());
}

#[test]
fn parse_cpu_uppercase_suffixes() {
    assert_eq!(qty_f64(parse_cpu_value("2M").unwrap()), 2.0);
    assert_eq!(qty_f64(parse_cpu_value("2U").unwrap()), 0.002);
    assert_eq!(qty_f64(parse_cpu_value("2N").unwrap()), 0.000002);
}

#[test]
fn parse_memory_rejects_lowercase_units() {
    assert_eq!(
        parse_memory_value("1ki").unwrap_err(),
        "Unknown memory unit: 1ki".to_string()
    );
    assert_eq!(
        parse_memory_value("5Kx").unwrap_err(),
        "Unknown memory unit: 5Kx".to_string()
    );
}

#[test]
fn parse_exact_quantity_representation() {
    let q = parse_cpu_value("1u").unwrap();
    assert_eq!(q.mantissa, 1);
    assert_eq!(q.scale, 3);
    let q = parse_memory_value("1Ki").unwrap();
    assert_eq!(q.mantissa, 9_765_625);
    assert_eq!(q.scale, 10);
    let q = parse_memory_value("2Gi").unwrap();
    assert_eq!(q.mantissa, 2048);
    assert_eq!(q.scale, 0);
    let q = parse_cpu_value("12.50m").unwrap();
    assert_eq!(q.mantissa, 1250);
    assert_eq!(q.scale, 2);
}
