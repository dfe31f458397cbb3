//! Configuration of the Angel's Nose rover: the WiFi network that it joins and the
//! micro-ROS Agent that it reports to.
//!
//! - [`wifi_config`]: the configuration and the endpoint of the Agent.
//! - [`agent_addr`]: the address of the Agent, written `a.b.c.d:port`.
//! - [`decimal`]: decimal numerals.
//! - [`text`]: cutting a text at a separator.
//! - [`endpoint`]: endpoints of the network stack, `embassy-net`.
pub mod agent_addr;
pub mod decimal;
pub mod endpoint;
pub mod text;
pub mod wifi_config;
