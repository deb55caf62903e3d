# routescope

An MTR-style traceroute tool with GeoIP, AS-path and latency views. The
library under `src/` is verified with Verus; the program under `app/` holds
what talks to the outside world (sockets, DNS, files, HTTP, the terminal UI
and the web dashboard) and calls the library for the trace's decisions, the
statistics and the text it shows or writes. What depends on the outside world
stays in `app/`: the order of location sources (cache, local databases, web
service), the choice between raw and datagram ICMP sockets, and the JSON
serialisation with floating-point values.

## Library modules

| module       | contents |
|--------------|----------|
| `stats`      | per-hop counters, the round-trip-time window, loss, mean, min, max, jitter |
| `traceroute` | the trace state machine: which hop to probe next, recording results, when to stop |
| `probe`      | probe methods, probe outcomes, destination ports |
| `packet`     | Internet checksum, ICMP echo requests and replies, the socket error queue |
| `ip`         | IPv4/IPv6 addresses as plain values and their text |
| `util`       | private-address classification, duration formatting |
| `ranges`     | the private address ranges, and the proof that the textual test decides them |
| `geoip`      | location records built from a service answer or from MaxMind records |
| `map`        | geographic path and AS path |
| `chart`      | heatmap bars, the latency chart, colour choices |
| `summary`    | the summary table and the route analysis (fastest, slowest, unreliable hops) |
| `export`     | CSV rows and document, GeoJSON points |
| `live`       | the live table, its keys, rows and detail panel |
| `web`        | dashboard requests and the hop state sent to the browser |
| `text`       | character sequences and decimal/hexadecimal rendering |

## Units

Times are integers: round-trip times in microseconds, timeouts in
milliseconds. Means, jitter and loss are exact fractions (`stats::Ratio`):
the sum over the count, and the lost probes times 100 over the probes sent.
Coordinates are micro-degrees. Displayed decimals are rounded once, from the
exact value, to nearest with halves to the even digit, as Rust's `{:.N}`
formatting does; heat bars and chart rows round halves up, as `f64::round` does.
