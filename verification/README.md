# trackmaker_rs

An audio-based network stack: data is sent between machines as sound,
framed and checked at the physical layer, shared with CSMA/CA, and carried
up to IPv4 (ping, an IP host, a NAT router, a TUN adapter).

The library under `src/` is verified with Verus; every public function has
a contract over mathematical models of its data.

- `phy/` — frames and their byte/bit layout, CRC-8, the Manchester and
  4B/5B + NRZI line codes (as sample levels), and the decisions that turn
  received header and frame bits into frames.
- `mac/` — the CSMA/CA sender as a state machine (event in, next state
  out) and the receiver's delivery and acknowledgement decisions.
- `net/` — IPv4 and ICMP headers, the Internet checksum, fragmentation and
  reassembly (in any arrival order), ARP tables, the NAT table, the router's packet handling, and
  the decisions of the ping/host/TUN tools. Header parsing and packet
  building that the router delegates to `etherparse` go through trusted
  wrappers in `net/headers.rs`.
- `error_correction/` — Reed-Solomon protected blocks around the
  `reed-solomon` crate.
- `pcm.rs` — raw PCM sample decoding and the play position of a player.
- `simple_test.rs` — the bit-level parts of the PSK modem: convolutional
  coding, interleaving and Varicode.

`app/` is the program around the library: command line, JACK audio,
packet capture, TUN devices, threads, and the signal processing on
floating-point samples. `tests/` exercises the library.
