use ipv6_checker::config::Config;
use ipv6_checker::config::default_port;
use ipv6_checker::http::get_ipv6;
use ipv6_checker::http::health;
use ipv6_checker::race::DiscoveryResult;

#[test]
fn default_port_value() {
    assert_eq!(default_port(), 3443);
}

#[test]
fn default_config() {
    let c = Config::default();
    assert_eq!(c.port, 3443);
    assert_eq!(c.urls.len(), 2);
    assert_eq!(c.urls[0], "https://6.ipw.cn");
    assert_eq!(c.urls[1], "http://checkipv6.dyndns.com/");
}

#[test]
fn load_or_create_keeps_loaded_config() {
    let loaded = Config { port: 8080, urls: vec!["https://example.test/ip".to_string()] };
    let c = Config::load_or_create(Some(loaded));
    assert_eq!(c.port, 8080);
    assert_eq!(c.urls, vec!["https://example.test/ip".to_string()]);
}

#[test]
fn load_or_create_falls_back_to_default() {
    let c = Config::load_or_create(None);
    assert_eq!(c.port, 3443);
    assert_eq!(c.urls.len(), 2);
}

#[test]
fn ipv6_route_success_reply() {
    let r = get_ipv6(DiscoveryResult::Address("2001:db8::7".to_string()));
    assert_eq!(r.status, 200);
    assert_eq!(r.body, "2001:db8::7");
}

#[test]
fn ipv6_route_not_found_reply() {
    let r = get_ipv6(DiscoveryResult::NoAddress);
    assert_eq!(r.status, 404);
    assert_eq!(r.body, "Could not find IPv6 address");
}

#[test]
fn health_reply() {
    let r = health();
    assert_eq!(r.status, 200);
    assert_eq!(r.body, "{\"status\":\"ok\"}");
}
