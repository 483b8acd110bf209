use simple_discover::DiscoverClient;
use simple_discover::DiscoverConfig;
use simple_discover::Ipv4Addr;

#[test]
fn default_configuration() {
    let config = DiscoverConfig::new();
    assert_eq!(config.multicast_addr.octets(), [224, 0, 0, 100]);
    assert_eq!(config.ports, vec![10001, 10010, 10100, 11000]);
    assert_eq!(config.listen_addr, Ipv4Addr::unspecified());
    assert_eq!(config.listen_addr.octets(), [0, 0, 0, 0]);
    let default = DiscoverConfig::default();
    assert_eq!(default.ports, config.ports);
    assert_eq!(default.multicast_addr, config.multicast_addr);
}

#[test]
fn builder_sets_each_field() {
    let config = DiscoverConfig::new()
        .set_multicast_addr(Ipv4Addr::new(224, 0, 0, 200))
        .set_ports(vec![20001, 20010, 20100])
        .set_listen_addr(Ipv4Addr::new(192, 168, 1, 100));
    assert_eq!(config.multicast_addr.octets(), [224, 0, 0, 200]);
    assert_eq!(config.ports, vec![20001, 20010, 20100]);
    assert_eq!(config.listen_addr.octets(), [192, 168, 1, 100]);
}

#[test]
fn addresses_and_their_numbers() {
    let addr = Ipv4Addr::new(192, 168, 1, 100);
    assert_eq!(addr.to_bits(), 0xC0A80164);
    assert_eq!(Ipv4Addr::from_bits(0xC0A80164), addr);
    assert_eq!(addr.octets(), [192, 168, 1, 100]);
    assert!(Ipv4Addr::new(10, 0, 0, 2) < Ipv4Addr::new(10, 0, 1, 1));
}

#[test]
fn client_keeps_its_configuration() {
    let client = DiscoverClient::new();
    assert_eq!(client.config().ports, vec![10001, 10010, 10100, 11000]);
    let config = DiscoverConfig::new().set_ports(vec![1]);
    let client = DiscoverClient::with_config(config);
    assert_eq!(client.config().ports, vec![1]);
    let client = DiscoverClient::default();
    assert_eq!(client.config().multicast_addr.octets(), [224, 0, 0, 100]);
}
