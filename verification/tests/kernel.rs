use flax::kernel::{landing_page, metamorphic_policy, traffic_line, AllowedPort, TrafficState};

#[test]
fn two_ports_and_no_others() {
    for port in 0..=u16::MAX {
        let expected = match port {
            80 => Some(AllowedPort::Http),
            443 => Some(AllowedPort::Https),
            _ => None,
        };
        assert_eq!(AllowedPort::from_port(port), expected);
        assert_eq!(
            metamorphic_policy(port),
            match expected {
                Some(service) => TrafficState::Allowed(service),
                None => TrafficState::Rejected(port),
            }
        );
    }
    assert_eq!(AllowedPort::Http.number(), 80);
    assert_eq!(AllowedPort::Https.number(), 443);
}

#[test]
fn traffic_lines() {
    assert_eq!(
        traffic_line(metamorphic_policy(80), "10.0.0.1:5000"),
        "[ALLOW] TCP/80 ← 10.0.0.1:5000"
    );
    assert_eq!(
        traffic_line(metamorphic_policy(443), "10.0.0.1:5000"),
        "[ALLOW] TCP/443 ← 10.0.0.1:5000"
    );
    assert_eq!(
        traffic_line(metamorphic_policy(8080), "10.0.0.1:5000"),
        "[DROP] TCP/8080 ← 10.0.0.1:5000"
    );
}

#[test]
fn the_landing_page() {
    assert_eq!(landing_page(Some("<h1>Online</h1>".to_string())), "<h1>Online</h1>");
    assert_eq!(landing_page(Some(String::new())), "");
    assert_eq!(landing_page(None), "<h1>404 Not Found</h1>");
}
