# UMAI core

A source-address blocklist that is enforced in the kernel: an XDP program drops every frame
whose IPv4 source is in the map `umai_intel_map`, and a loader fills that map from a
threat-intel feed.

`src/` is the verified library. It decides; it does no I/O.

| Module | Role |
|---|---|
| `addr` | IPv4 addresses: dotted decimal text and network byte order |
| `entry` | What the blocklist map and the counter map hold |
| `frame` | Bounds-checked reading of the Ethernet and IPv4 headers |
| `monitor` | The verdict on a frame, and what holds of every verdict |
| `feed` | From a feed bundle to the writes it asks for, and the account of a pull |
| `poll` | The poll loop as a step function, and the judgement of an HTTP answer |
| `blocklist` | Laws over both sides: what the feed writes is what the monitor drops |

`app/` is the code around it: the XDP entry point, the loader with its command line, HTTP and
map system calls, and the terminal UI.

Map keys are addresses in network byte order: the bytes of a key in memory are the octets of
the address, as they lie in a packet. Any tool that writes those four bytes writes a key that
the monitor finds. `addr::law_number_lies_as_octets` states it.

The library is built against `std`. `app/kernel.rs` is the entry point that surrounds it in
the kernel object; a BPF build of it needs the library and its dependencies without `std`,
which is not set up here. `--cfg umai_ce` builds the loader without the HTTP client.
