use embassy_net::{IpAddress, IpEndpoint, Ipv4Address};
use tenshi_no_hana::wifi_config::AppConfig;

#[test]
fn settings_are_taken() {
    let config = AppConfig::new("barrel cellar", "", "192.168.10.5:8888");
    assert_eq!(config.wifi_ssid, "barrel cellar");
    assert_eq!(config.wifi_password, "");
    assert_eq!(config.agent_ip, [192, 168, 10, 5]);
    assert_eq!(config.agent_port, 8888);
}

#[test]
fn same_settings_same_config() {
    let first = AppConfig::new("天使", "鼻", "10.0.0.7:80");
    let second = AppConfig::new("天使", "鼻", "10.0.0.7:80");
    assert_eq!(first.wifi_ssid, second.wifi_ssid);
    assert_eq!(first.wifi_password, second.wifi_password);
    assert_eq!(first.agent_ip, second.agent_ip);
    assert_eq!(first.agent_port, second.agent_port);
    assert_eq!(first.agent_endpoint(), second.agent_endpoint());
}

#[test]
fn endpoint_of_configured_agent() {
    let config = AppConfig::new("ssid", "password", "1.2.3.4:5678");
    let agent: IpEndpoint = config.agent_endpoint();
    assert_eq!(agent, IpEndpoint::new(IpAddress::v4(1, 2, 3, 4), 5678));
    assert_eq!(agent.addr, IpAddress::Ipv4(Ipv4Address::new(1, 2, 3, 4)));
    assert_eq!(agent.port, 5678);
}

#[test]
fn endpoint_tells_agents_apart() {
    let config = AppConfig::new("ssid", "password", "1.2.3.4:5678");
    let other_port = AppConfig::new("ssid", "password", "1.2.3.4:5679");
    let other_ip = AppConfig::new("ssid", "password", "4.3.2.1:5678");
    assert_ne!(config.agent_endpoint(), other_port.agent_endpoint());
    assert_ne!(config.agent_endpoint(), other_ip.agent_endpoint());
}

#[test]
fn endpoint_holds_octets_in_order() {
    let config = AppConfig {
        wifi_ssid: "",
        wifi_password: "",
        agent_ip: [203, 0, 113, 9],
        agent_port: 0,
    };
    let octets = match config.agent_endpoint().addr {
        IpAddress::Ipv4(address) => address.octets(),
    };
    assert_eq!(octets, [203, 0, 113, 9]);
}
