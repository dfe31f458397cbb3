//! Endpoints of the network stack.
use embassy_net::{IpAddress, IpEndpoint, Ipv4Address};
use vstd::prelude::*;

verus! {

/// `embassy_net::Ipv4Address`, an IPv4 address. Its field is private.
#[verifier::external_type_specification]
#[verifier::external_body]
pub struct ExIpv4Address(Ipv4Address);

/// `embassy_net::IpAddress`, an address of either version of the protocol.
#[verifier::external_type_specification]
pub struct ExIpAddress(IpAddress);

/// `embassy_net::IpEndpoint`, an address with a port.
#[verifier::external_type_specification]
pub struct ExIpEndpoint(IpEndpoint);

/// The four octets that make up an IPv4 address, in the order in which its method
/// `octets` returns them.
pub uninterp spec fn ipv4_octets(address: Ipv4Address) -> Seq<u8>;

/// An endpoint at the IPv4 address with these octets, on this port.
pub open spec fn is_ipv4_endpoint(endpoint: IpEndpoint, octets: Seq<u8>, port: u16) -> bool {
    &&& endpoint.addr matches IpAddress::Ipv4(address)
    &&& ipv4_octets(address) == octets
    &&& endpoint.port == port
}

/// An endpoint is the one at these octets and this port exactly where its address is
/// the IPv4 address with these octets and its port is this port.
pub proof fn law_endpoint_fields(endpoint: IpEndpoint, octets: Seq<u8>, port: u16)
    ensures
        is_ipv4_endpoint(endpoint, octets, port) <==> (endpoint.port == port && (
        endpoint.addr matches IpAddress::Ipv4(address) && ipv4_octets(address) == octets)),
{
}

/// Two Agents at different octets or on different ports have different endpoints.
pub proof fn law_endpoints_tell_agents_apart(
    first: IpEndpoint,
    first_octets: Seq<u8>,
    first_port: u16,
    second: IpEndpoint,
    second_octets: Seq<u8>,
    second_port: u16,
)
    requires
        is_ipv4_endpoint(first, first_octets, first_port),
        is_ipv4_endpoint(second, second_octets, second_port),
        first == second,
    ensures
        first_octets == second_octets,
        first_port == second_port,
{
}

/// Calls `Ipv4Address::from` on four octets. The contract claims that the address is
/// made up of these octets, and that no other address is.
#[verifier::external_body]
pub(crate) fn ipv4_address(octets: [u8; 4]) -> (address: Ipv4Address)
    ensures
        ipv4_octets(address) == octets@,
        forall|other: Ipv4Address| #[trigger] ipv4_octets(other) == octets@ ==> other == address,
{
    Ipv4Address::from(octets)
}

/// Calls `IpEndpoint::from` on an IPv4 address and a port. The contract claims that
/// the endpoint holds that address, as an IPv4 address, and that port.
#[verifier::external_body]
pub(crate) fn ip_endpoint(address: Ipv4Address, port: u16) -> (endpoint: IpEndpoint)
    ensures
        endpoint.addr == IpAddress::Ipv4(address),
        endpoint.port == port,
{
    IpEndpoint::from((address, port))
}

} // verus!
