# uip

Real-time syslog analysis for UniFi gateways: a UDP receiver, parsers for
the gateway's firewall, DNS, DHCP, WLAN and CEF lines, an enrichment worker
(GeoIP, reverse DNS, AbuseIPDB), pollers for Pi-hole and the UniFi
controller, and an HTTP API with a live stream.

- `src/` is the library, verified with Verus: the parsers, the search and
  filter language and the SQL it becomes, the live-stream filter, the
  writer's rows, the enrichment decisions and quota, the caches, the
  dashboard and flow reports, the controller's inventory and the settings.
  Each public function states what it returns in its contract; the laws
  that relate several functions are public proof functions.
- `app/` is the program around it: sockets, the database, HTTP, files and
  the clock. It hands the library plain values and acts on what comes back.
- `tests/` runs the library on concrete values.
