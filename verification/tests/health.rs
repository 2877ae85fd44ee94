use esp32_lb::health::Health;

const ALL: [Health; 4] = [
    Health::Healthy,
    Health::Unhealthy,
    Health::Probe,
    Health::Disabled,
];

#[test]
fn encoding_is_fixed() {
    let codes: Vec<u8> = ALL.iter().map(|h| h.as_u8()).collect();
    assert_eq!(codes, vec![0, 1, 2, 3]);
}

#[test]
fn decoding_gives_every_state_back() {
    for h in ALL {
        assert_eq!(Health::from(h.as_u8()), h);
    }
}

#[test]
fn unknown_bytes_count_as_disabled() {
    for v in 4..=255u8 {
        assert_eq!(Health::from(v), Health::Disabled);
    }
}

#[test]
fn names() {
    let names: Vec<&str> = ALL.iter().map(|h| h.as_str()).collect();
    assert_eq!(names, vec!["Healthy", "Unhealthy", "Probe", "Disabled"]);
}

#[test]
fn one_byte_only_is_healthy() {
    let healthy: Vec<u8> = (0..=255u8)
        .filter(|v| Health::from(*v) == Health::Healthy)
        .collect();
    assert_eq!(healthy, vec![0]);
}
