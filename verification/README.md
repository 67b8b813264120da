# bpfimp

A per-source packet rate limiter for XDP, with its logic verified by Verus.

Every IPv4 or IPv6 packet is decided by its source address. A blocked source is dropped and its
hits are counted. Any other packet is counted and then metered: an allowed peer by a token bucket
that its reputation gates, an unknown source by a plain token bucket. Each address family has
tables of its own.

## Layout

- `src/` is the library; every item of it is verified.
  - `policy`, `bucket`, `reputation`: the constants, token buckets, reputations and blocklist
    entries, with the rate limit proved over arbitrary streams of packets.
  - `addr`, `packet`: addresses, keys, and reading a frame.
  - `filter`: the decision on a packet, as a dialogue with the tables outside.
  - `tables`: what the dialogue comes to when the tables store what they are told.
  - `keys`, `config`: from the lists of a configuration to the changes in the tables.
  - `inspect`, `report`, `loaded`: the snapshot of the state, its report, and finding what the
    kernel has loaded.
  - `watch`: reading the feed of events.
  - `text`, `control`: output and the decisions of the command.
- `app/` is the command and the packet filter around the library: the kernel maps, files, signals,
  the command line, JSON.
- `tests/` runs the library.

One call is taken on trust: `packet::ether_type` calls `network_types::eth::EthHdr::ether_type`,
and its contract says which tags that function knows.

Addresses enter and leave the library as octets; the text form is read and written by `app/`.
The dialogue of `filter` is proved for tables that store every update; an insertion that the kernel
refuses, or an entry that it evicts, leaves the source as one that was never seen.
