# eqclient

A headless client for EverQuest (Titanium) servers, with its protocol core
verified in Verus.

- `src/` — the verified library:
  - `bytes`: integer encodings and byte-buffer readers and writers;
  - `crc`: the keyed CRC-32 of reliable-UDP datagrams;
  - `opcodes`: session and application opcodes;
  - `packets`: every wire record (session, login, server list, world, zone,
    combat) with its decoding, encoding and round-trip lemma;
  - `udp_engine`: the reliable-UDP session state machine (handshake,
    sequencing, out-of-order buffer, fragments, combined packets, CRC and
    compression) with its laws;
  - `in_order`: laws over whole runs of packets (delivery in sequence for any
    arrival order, reassembly of a run of fragments);
  - `crypto`: the null-key DES-CBC credential transform;
  - `text`: NUL-padded name fields;
  - `login_client`: decisions of the TCP login client;
  - `zone_state`: spawns of the current zone and the player's own record.
- `app/` — the sockets, the web UI and JSON views, and the floating-point
  conversions of positions.
- `tests/` — tests of the library on concrete values.
