use unseen::config::{LayerConfig, OutputFormat};
use unseen::text::parse_u32;

#[test]
fn defaults_when_nothing_is_set() {
    let c = LayerConfig::resolve(None, None, None, None, None);
    assert_eq!(c.output_dir, "./captured_frames");
    assert_eq!(c.output_format, OutputFormat::Ppm);
    assert_eq!(c.capture_frequency, 1);
    assert_eq!(c.max_frames, 0);
    assert!(!c.logging);
}

#[test]
fn values_from_the_environment() {
    let c = LayerConfig::resolve(Some("/tmp/frames"), Some("png"), Some("3"), Some("10"), Some("1"));
    assert_eq!(c.output_dir, "/tmp/frames");
    assert_eq!(c.output_format, OutputFormat::Png);
    assert_eq!(c.capture_frequency, 3);
    assert_eq!(c.max_frames, 10);
    assert!(c.logging);
}

#[test]
fn malformed_values_fall_back() {
    let c = LayerConfig::resolve(None, Some("PNG"), Some("often"), Some("-1"), Some("yes"));
    assert_eq!(c.output_format, OutputFormat::Ppm);
    assert_eq!(c.capture_frequency, 1);
    assert_eq!(c.max_frames, 0);
    assert!(!c.logging);
}

#[test]
fn parse_follows_rust_rules() {
    for s in ["0", "7", "+7", "4294967295", "007", "", "+", "-1", " 1", "1 ", "4294967296", "12a", "١"] {
        assert_eq!(parse_u32(s), s.parse::<u32>().ok(), "input {:?}", s);
    }
}

#[test]
fn zero_frequency_falls_back_to_one() {
    let c = LayerConfig::resolve(None, None, Some("0"), None, None);
    assert_eq!(c.capture_frequency, 1);
}
