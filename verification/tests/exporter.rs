use pod_metrics_exporter::publisher::Publisher;
use pod_metrics_exporter::quantity::{format_quantity, parse_number};
use pod_metrics_exporter::render::{render, ContainerSample, Dataset, PodSample};
use pod_metrics_exporter::scheduler::{compute_sleep_seconds, REFRESH_INTERVAL_SECS};
use pod_metrics_exporter::unit_converter::{parse_cpu_value, parse_memory_value};
use pod_metrics_exporter::updater::{decode_dataset, generate_new_metrics, update_metrics};

fn sample_dataset() -> Dataset {
    Dataset {
        items: vec![PodSample {
            namespace: "ns".to_string(),
            name: "pod".to_string(),
            containers: vec![
                ContainerSample {
                    name: "good".to_string(),
                    cpu: "250m".to_string(),
                    memory: "64Mi".to_string(),
                },
                ContainerSample {
                    name: "bad".to_string(),
                    cpu: "oops".to_string(),
                    memory: "32Mi".to_string(),
                },
            ],
        }],
    }
}

#[test]
fn format_quantity_prints_exact_decimals() {
    let fmt = |s: &str| format_quantity(&parse_number(s).unwrap());
    assert_eq!(fmt("0"), "0");
    assert_eq!(fmt("500"), "500");
    assert_eq!(fmt("1.50"), "1.5");
    assert_eq!(fmt("0.0"), "0");
    assert_eq!(format_quantity(&parse_cpu_value("1u").unwrap()), "0.001");
    assert_eq!(format_quantity(&parse_cpu_value("1n").unwrap()), "0.000001");
    assert_eq!(
        format_quantity(&parse_memory_value("1Ki").unwrap()),
        "0.0009765625"
    );
    assert_eq!(format_quantity(&parse_memory_value("3Gi").unwrap()), "3072");
}

#[test]
fn parse_number_stays_exact_up_to_its_caps() {
    // Thirty digits of mantissa are held exactly; a thirty-first is
    // refused rather than rounded.
    let thirty = "9".repeat(30);
    let q = parse_number(&thirty).unwrap();
    assert_eq!(q.mantissa.to_string(), thirty);
    assert!(parse_number(&"9".repeat(31)).is_none());
    // Thirty fraction digits are held exactly; a thirty-first is refused.
    let deep = format!("0.{}1", "0".repeat(29));
    let q = parse_number(&deep).unwrap();
    assert_eq!(q.mantissa, 1);
    assert_eq!(q.scale, 30);
    assert!(parse_number(&format!("0.{}1", "0".repeat(30))).is_none());
    // Not plain numbers at all.
    assert!(parse_number("").is_none());
    assert!(parse_number(".5").is_none());
    assert!(parse_number("5.").is_none());
    assert!(parse_number("1.2.3").is_none());
    assert!(parse_number("-1").is_none());
}

#[test]
fn render_is_idempotent() {
    let d = sample_dataset();
    let first = render(&d);
    let second = render(&d);
    assert_eq!(first, second);
}

#[test]
fn render_recovers_from_bad_cpu_string() {
    let d = sample_dataset();
    let out = render(&d);
    let expected = "kube_pod_container_resource_usage_cpu{namespace=\"ns\", pod=\"pod\", container=\"good\"} 250\n\nkube_pod_container_resource_usage_memory{namespace=\"ns\", pod=\"pod\", container=\"good\"} 64\n\nkube_pod_container_resource_usage_cpu{namespace=\"ns\", pod=\"pod\", container=\"bad\"} 0\n\nkube_pod_container_resource_usage_memory{namespace=\"ns\", pod=\"pod\", container=\"bad\"} 32\n";
    assert_eq!(out, expected);
}

#[test]
fn render_empty_dataset_is_empty() {
    let d = Dataset { items: vec![] };
    assert_eq!(render(&d), "");
}

#[test]
fn end_to_end_dataset_renders_two_lines() {
    let raw = "{\"items\":[{\"metadata\":{\"namespace\":\"ns\",\"name\":\"pod\"},\
               \"containers\":[{\"name\":\"c\",\"usage\":{\"cpu\":\"500m\",\"memory\":\"128Mi\"}}]}]}";
    let v: serde_json::Value = serde_json::from_str(raw).unwrap();
    let out = generate_new_metrics(&v).unwrap();
    let expected = "kube_pod_container_resource_usage_cpu{namespace=\"ns\", pod=\"pod\", container=\"c\"} 500\n\nkube_pod_container_resource_usage_memory{namespace=\"ns\", pod=\"pod\", container=\"c\"} 128\n";
    assert_eq!(out, expected);
}

#[test]
fn empty_items_render_to_empty_text() {
    let v: serde_json::Value = serde_json::from_str("{\"items\": []}").unwrap();
    assert_eq!(generate_new_metrics(&v).unwrap(), "");
}

#[test]
fn malformed_dataset_is_rejected_whole() {
    let cases = [
        "{}",
        "[]",
        "{\"items\": 3}",
        "{\"items\":[{\"containers\":[]}]}",
        "{\"items\":[{\"metadata\":{\"namespace\":\"ns\"},\"containers\":[]}]}",
        "{\"items\":[{\"metadata\":{\"namespace\":\"ns\",\"name\":\"p\"},\
          \"containers\":[{\"name\":\"c\",\"usage\":{\"cpu\":\"1m\"}}]}]}",
        "{\"items\":[{\"metadata\":{\"namespace\":\"ns\",\"name\":\"p\"},\
          \"containers\":[{\"name\":\"c\",\"usage\":{\"cpu\":1,\"memory\":\"1Mi\"}}]}]}",
    ];
    for raw in cases {
        let v: serde_json::Value = serde_json::from_str(raw).unwrap();
        assert_eq!(
            decode_dataset(&v).unwrap_err(),
            "Malformed metrics dataset".to_string()
        );
        assert!(generate_new_metrics(&v).is_err());
    }
}

#[test]
fn publisher_starts_empty_and_replaces_whole() {
    let mut p = Publisher::new();
    assert_eq!(p.read(), "");
    p.publish("first snapshot".to_string());
    assert_eq!(p.read(), "first snapshot");
    p.publish("second".to_string());
    assert_eq!(p.read(), "second");
}

#[test]
fn failed_update_keeps_previous_snapshot() {
    let mut p = Publisher::new();
    let good: serde_json::Value = serde_json::from_str(
        "{\"items\":[{\"metadata\":{\"namespace\":\"n\",\"name\":\"p\"},\
         \"containers\":[{\"name\":\"c\",\"usage\":{\"cpu\":\"1m\",\"memory\":\"1Mi\"}}]}]}",
    )
    .unwrap();
    update_metrics(&mut p, &good).unwrap();
    let before = p.read();
    assert!(!before.is_empty());
    let bad: serde_json::Value = serde_json::from_str("{\"wrong\": true}").unwrap();
    let err = update_metrics(&mut p, &bad).unwrap_err();
    assert_eq!(
        err,
        "Failed to generate new metrics: Malformed metrics dataset".to_string()
    );
    assert_eq!(p.read(), before);
}

#[test]
fn overrunning_cycle_sleeps_zero() {
    assert_eq!(REFRESH_INTERVAL_SECS, 15);
    assert_eq!(compute_sleep_seconds(15, 20), 0);
    assert_eq!(compute_sleep_seconds(15, 15), 0);
    assert_eq!(compute_sleep_seconds(15, 5), 10);
    assert_eq!(compute_sleep_seconds(15, 0), 15);
}
