use tenshi_no_hana::agent_addr::{parse_addr, try_parse_addr, AddrError};

#[test]
fn addresses_are_read() {
    assert_eq!(parse_addr("192.168.1.100:8888"), ([192, 168, 1, 100], 8888));
    assert_eq!(parse_addr("0.0.0.0:1"), ([0, 0, 0, 0], 1));
    assert_eq!(parse_addr("255.255.255.255:65535"), ([255, 255, 255, 255], 65535));
    assert_eq!(try_parse_addr("1.2.3.4:5"), Ok(([1, 2, 3, 4], 5)));
}

#[test]
fn every_agent_is_read_back() {
    for n in 0..=255u8 {
        let octets = [n, 255 - n, n / 2, 7];
        let port = 1 + 256 * (n as u16);
        let addr = format!(
            "{}.{}.{}.{}:{}",
            octets[0], octets[1], octets[2], octets[3], port
        );
        assert_eq!(parse_addr(&addr), (octets, port));
    }
}

#[test]
fn plain_address_is_written_back() {
    for addr in ["10.0.0.7:80", "0.1.22.133:1", "255.254.253.252:60001"] {
        let (ip, port) = parse_addr(addr);
        assert_eq!(format!("{}.{}.{}.{}:{}", ip[0], ip[1], ip[2], ip[3], port), addr);
    }
}

#[test]
fn leading_zeros_do_not_matter() {
    assert_eq!(parse_addr("010.000.00.007:00080"), ([10, 0, 0, 7], 80));
    assert_eq!(parse_addr("10.0.0.7:80"), ([10, 0, 0, 7], 80));
}

#[test]
fn port_zero_is_refused() {
    for addr in ["10.0.0.7:0", "10.0.0.7:00000", "nothing at all:0"] {
        assert_eq!(try_parse_addr(addr), Err(AddrError::InvalidPort));
    }
    assert_eq!(parse_addr("10.0.0.7:1"), ([10, 0, 0, 7], 1));
    assert_eq!(parse_addr("10.0.0.7:00001"), ([10, 0, 0, 7], 1));
}

#[test]
fn longest_and_shortest_addresses() {
    assert_eq!(parse_addr("1.2.3.4:5"), ([1, 2, 3, 4], 5));
    assert_eq!(parse_addr("111.122.133.144:15555"), ([111, 122, 133, 144], 15555));
    assert_eq!(try_parse_addr("0111.122.133.144:15555"), Err(AddrError::InvalidOctet));
}

#[test]
fn missing_colon() {
    for addr in ["", "10.0.0.7", "80", "10.0.0.7é80"] {
        assert_eq!(try_parse_addr(addr), Err(AddrError::MissingColon));
    }
}

#[test]
fn invalid_port() {
    for addr in [
        "10.0.0.7:",
        ":",
        "10.0.0.7:65536",
        "10.0.0.7:000080",
        "10.0.0.7:-1",
        "10.0.0.7: 80",
        "10.0.0.7:80 ",
        "10.0.0.7:8é",
        "nothing at all:http",
    ] {
        assert_eq!(try_parse_addr(addr), Err(AddrError::InvalidPort));
    }
}

#[test]
fn invalid_octet() {
    for addr in [
        "256.0.0.7:80",
        "10..0.7:80",
        ".0.0.7:80",
        "10.x.0.7:80",
        "10.0.1234.7:80",
        "é.0.0.7:80",
        "10.0.0.x.7:80",
        "10.0.0.x.7.8.9:80",
        "x.10:80",
    ] {
        assert_eq!(try_parse_addr(addr), Err(AddrError::InvalidOctet));
    }
}

#[test]
fn invalid_last_octet() {
    for addr in [
        ":80",
        "localhost:80",
        "10.x:80",
        "10.0.0.:80",
        "10.0.0.256:80",
        "10.0.0.7.x:80",
        "10.0.0.7:80:80",
        "::1:80",
    ] {
        assert_eq!(try_parse_addr(addr), Err(AddrError::InvalidLastOctet));
    }
}

#[test]
fn too_many_octets() {
    for addr in ["1.2.3.4.5:80", "1.2.3.4.5.6:80", "1.2.3.4.x.6:80", "1.2.3.4..:80"] {
        assert_eq!(try_parse_addr(addr), Err(AddrError::TooManyOctets));
    }
}

#[test]
fn too_few_octets() {
    for addr in ["1:80", "1.2:80", "1.2.3:80"] {
        assert_eq!(try_parse_addr(addr), Err(AddrError::TooFewOctets));
    }
}

#[test]
fn messages() {
    assert_eq!(
        AddrError::MissingColon.message(),
        "MICRO_ROS_AGENT_ADDR: missing ':'. Expected \"a.b.c.d:port\""
    );
    assert_eq!(
        AddrError::InvalidPort.message(),
        "MICRO_ROS_AGENT_ADDR: invalid port number (1–65535)"
    );
    assert_eq!(
        AddrError::InvalidOctet.message(),
        "MICRO_ROS_AGENT_ADDR: invalid IP octet (0–255)"
    );
    assert_eq!(
        AddrError::InvalidLastOctet.message(),
        "MICRO_ROS_AGENT_ADDR: invalid IP octet"
    );
    assert_eq!(
        AddrError::TooManyOctets.message(),
        "MICRO_ROS_AGENT_ADDR: too many IP octets"
    );
    assert_eq!(
        AddrError::TooFewOctets.message(),
        "MICRO_ROS_AGENT_ADDR: IP must have 4 octets"
    );
}
