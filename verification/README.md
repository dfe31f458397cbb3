# tenshi-no-hana

Configuration of the Angel's Nose rover: the WiFi network that it joins and the
micro-ROS Agent that it reports to. All settings are fixed when the firmware is
built; none is read at run time.

- `src/` is the library, verified with Verus: it reads the address of the Agent
  (`a.b.c.d:port`), says what is wrong with a text that is no address, and builds
  the configuration and the endpoint that the network stack connects to.
- `app/` embeds the settings of the build (`WIFI_SSID`, `WIFI_PASSWORD`,
  `MICRO_ROS_AGENT_ADDR`).
- `tests/` runs the library against `embassy-net`.

The claims about `embassy-net` that are believed without proof stand in
`src/endpoint.rs`.
