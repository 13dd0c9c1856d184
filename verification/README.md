# ipdetect

The outgoing IP address and its country, as a display item of TrafficMonitor.

In the background the plugin finds out through which proxy requests go (one set by hand, that of
the system, or none), asks a list of free lookup services until one of them gives an address, and
publishes the result. The item shows it on one line: `出口IP  JP  43.251.186.2`.

`src/` is the library, verified with Verus: every function meets its contract, but for the few
named below, whose contracts are taken on trust.

| module    | what it holds                                                              |
|-----------|----------------------------------------------------------------------------|
| `text`    | trimming, lines, pieces, searching, letter case                            |
| `address` | which texts are IPv4 or IPv6 addresses                                     |
| `json`    | JSON documents and the search for a text in them                           |
| `probe`   | the answers of the services, and the order in which the services are asked |
| `proxy`   | the choice of the proxy, and the system's proxy setting                    |
| `agent`   | the agent that sends the requests                                          |
| `config`  | the settings, their defaults and the shortest interval                     |
| `wide`    | UTF-16 texts for the host                                                  |
| `plugin`  | the display item, the texts that describe the plugin, upright fonts        |
| `drawing` | the calls that draw and measure the item, and undo what they changed       |
| `worker`  | the rounds of the background thread                                        |

Taken on trust are the contracts of the small functions behind which the calls into `serde_json`
(`parse_value` and `value_parts` in `json`), `ureq` and `native-tls` (`new_proxy`, `new_connector`,
`new_direct_agent` and `new_proxied_agent` in `agent`) stand, and what `text` says of
`String::push`. Each says what it relies on.

A proxy is spoken to over plain HTTP or SOCKS. An address that begins with `https://` is refused
with an error; a proxy for HTTPS traffic is given as `http://`.

`app/` is the plugin around the library: the host's interface, GDI, the registry, the configuration
file, the thread and the requests. `tests/` runs the library.
