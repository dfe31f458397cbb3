//! WiFi and micro-ROS Agent configuration.
//!
//! All settings are fixed when the firmware is built: the name and the password of
//! the network and the address of the Agent are texts that are embedded in it.
use embassy_net::{IpAddress, IpEndpoint};
use vstd::prelude::*;

use crate::agent_addr;
use crate::decimal;
use crate::endpoint;

verus! {

/// Full application configuration.
pub struct AppConfig {
    pub wifi_ssid: &'static str,
    pub wifi_password: &'static str,
    pub agent_ip: [u8; 4],
    pub agent_port: u16,
}

impl AppConfig {
    /// A configuration with these credentials and the Agent at this address.
    pub open spec fn is_built_from(
        self,
        wifi_ssid: &'static str,
        wifi_password: &'static str,
        agent_addr: Seq<char>,
    ) -> bool {
        &&& self.wifi_ssid == wifi_ssid
        &&& self.wifi_password == wifi_password
        &&& self.agent_ip@ == agent_addr::addr_octets(agent_addr)
        &&& self.agent_port == agent_addr::addr_port(agent_addr)
    }

    /// The configuration with these credentials, which are taken as they are, and the
    /// Agent at the address `agent_addr`.
    pub fn new(
        wifi_ssid: &'static str,
        wifi_password: &'static str,
        agent_addr: &str,
    ) -> (config: Self)
        requires
            agent_addr::is_addr(agent_addr@),
        ensures
            config.is_built_from(wifi_ssid, wifi_password, agent_addr@),
            config.wifi_ssid == wifi_ssid,
            config.wifi_password == wifi_password,
            forall|i: int|
                0 <= i < 4 ==> config.agent_ip@[i] == decimal::decimal_value(
                    #[trigger] agent_addr::host_fields(agent_addr@)[i],
                ),
            config.agent_port == decimal::decimal_value(agent_addr::port_part(agent_addr@)),
    {
        let (agent_ip, agent_port) = agent_addr::parse_addr(agent_addr);
        AppConfig { wifi_ssid, wifi_password, agent_ip, agent_port }
    }

    /// The endpoint of the micro-ROS Agent.
    pub fn agent_endpoint(&self) -> (agent: IpEndpoint)
        ensures
            agent.addr matches IpAddress::Ipv4(address) && endpoint::ipv4_octets(address) == seq![
                self.agent_ip@[0],
                self.agent_ip@[1],
                self.agent_ip@[2],
                self.agent_ip@[3],
            ],
            agent.port == self.agent_port,
            endpoint::is_ipv4_endpoint(agent, self.agent_ip@, self.agent_port),
            forall|other: IpEndpoint| #[trigger]
                endpoint::is_ipv4_endpoint(other, self.agent_ip@, self.agent_port) ==> other
                    == agent,
    {
        assert(self.agent_ip@ =~= seq![
            self.agent_ip@[0],
            self.agent_ip@[1],
            self.agent_ip@[2],
            self.agent_ip@[3],
        ]);
        endpoint::ip_endpoint(endpoint::ipv4_address(self.agent_ip), self.agent_port)
    }
}

/// The same settings make the same configuration every time.
pub proof fn law_same_settings_same_config(
    first: AppConfig,
    second: AppConfig,
    wifi_ssid: &'static str,
    wifi_password: &'static str,
    agent_addr: Seq<char>,
)
    requires
        first.is_built_from(wifi_ssid, wifi_password, agent_addr),
        second.is_built_from(wifi_ssid, wifi_password, agent_addr),
    ensures
        first == second,
{
    assert(first.agent_ip =~= second.agent_ip);
}

/// The credentials are handed over as they are, each in its own place and whatever the
/// other one is.
pub proof fn law_credentials_are_handed_over(
    config: AppConfig,
    wifi_ssid: &'static str,
    wifi_password: &'static str,
    agent_addr: Seq<char>,
)
    requires
        config.is_built_from(wifi_ssid, wifi_password, agent_addr),
    ensures
        config.wifi_ssid@ == wifi_ssid@,
        config.wifi_password@ == wifi_password@,
        config.wifi_ssid == wifi_ssid,
        config.wifi_password == wifi_password,
{
}

/// Different credentials make different configurations: two that agree in the name of
/// the network, or in the password, were built from the same one.
pub proof fn law_credentials_tell_configs_apart(
    first: AppConfig,
    first_ssid: &'static str,
    first_password: &'static str,
    first_addr: Seq<char>,
    second: AppConfig,
    second_ssid: &'static str,
    second_password: &'static str,
    second_addr: Seq<char>,
)
    requires
        first.is_built_from(first_ssid, first_password, first_addr),
        second.is_built_from(second_ssid, second_password, second_addr),
    ensures
        first.wifi_ssid == second.wifi_ssid <==> first_ssid == second_ssid,
        first.wifi_password == second.wifi_password <==> first_password == second_password,
{
}

/// The configured Agent is at the numbers of its address, each in its place.
pub proof fn law_agent_is_at_its_numbers(
    config: AppConfig,
    wifi_ssid: &'static str,
    wifi_password: &'static str,
    a: Seq<char>,
    b: Seq<char>,
    c: Seq<char>,
    d: Seq<char>,
    port: Seq<char>,
)
    requires
        decimal::is_u8_numeral(a),
        decimal::is_u8_numeral(b),
        decimal::is_u8_numeral(c),
        decimal::is_u8_numeral(d),
        decimal::is_u16_numeral(port),
        decimal::decimal_value(port) >= 1,
        config.is_built_from(
            wifi_ssid,
            wifi_password,
            a + seq!['.'] + b + seq!['.'] + c + seq!['.'] + d + seq![':'] + port,
        ),
    ensures
        config.agent_ip@[0] == decimal::decimal_value(a),
        config.agent_ip@[1] == decimal::decimal_value(b),
        config.agent_ip@[2] == decimal::decimal_value(c),
        config.agent_ip@[3] == decimal::decimal_value(d),
        config.agent_port == decimal::decimal_value(port),
{
    agent_addr::law_addr_is_read_number_by_number(a, b, c, d, port);
}

/// The endpoint that belongs to a configuration has the four octets of its Agent in
/// order and its port; two configurations with the same endpoint have the same Agent.
pub proof fn law_endpoint_is_the_agent(
    config: AppConfig,
    agent: IpEndpoint,
    other: AppConfig,
    other_agent: IpEndpoint,
)
    requires
        endpoint::is_ipv4_endpoint(agent, config.agent_ip@, config.agent_port),
        endpoint::is_ipv4_endpoint(other_agent, other.agent_ip@, other.agent_port),
    ensures
        agent.port == config.agent_port,
        agent.addr matches IpAddress::Ipv4(address) && endpoint::ipv4_octets(address)
            == config.agent_ip@,
        agent == other_agent ==> config.agent_ip == other.agent_ip && config.agent_port
            == other.agent_port,
{
    if agent == other_agent {
        assert(config.agent_ip =~= other.agent_ip);
    }
}

/// The Agent whose address is configured is the one that the endpoint leads to.
pub proof fn law_endpoint_of_configured_agent(
    config: AppConfig,
    wifi_ssid: &'static str,
    wifi_password: &'static str,
    octets: Seq<u8>,
    port: u16,
    agent: IpEndpoint,
)
    requires
        octets.len() == 4,
        port >= 1,
        config.is_built_from(wifi_ssid, wifi_password, agent_addr::addr_text(octets, port)),
        endpoint::is_ipv4_endpoint(agent, config.agent_ip@, config.agent_port),
    ensures
        endpoint::is_ipv4_endpoint(agent, octets, port),
{
    agent_addr::law_every_agent_is_read_back(octets, port);
}

} // verus!
