# mcping

A ping for Minecraft servers over the Server List Ping protocol: it opens a
connection, sends a handshake and a status request, reads the server's JSON
status, then times a ping/pong exchange, as often as asked, and prints a
summary like `ping` does.

## Layout

- `src/` is the library, verified with Verus:
  - `protocol/varint.rs`: VarInts, the streaming `VarintDecoder`, their
    round-trip and length laws;
  - `protocol/io.rs`: reading (`PacketReader`) and writing (`Vec<u8>`) of
    VarInts, big-endian `u16`s, UTF-8 strings and framed packets;
  - `protocol/forge.rs`: unpacking Forge's `forgeData.d` bit stream, and
    the law that unpacking what Forge packed gives the bytes back;
  - `protocol/packet.rs`: the five packets, their encodings, decodings and
    round-trip laws;
  - `protocol/json.rs`: the status text as `serde_json` parses it; each
    value carries, as ghost state, the text and the key path it came from
    (an error, the text it refused), and what each accessor returns is named
    over them;
  - `protocol/ping.rs`: byte counts, the pong check, the status fields
    (players online, Forge data, mod list) stated over those names, and the
    report of one ping;
  - `dns.rs`: host and port handling (with the laws that `host:port` splits
    back, that adding the default port is idempotent, and that the host shown
    is the host looked up) and the address-family filter;
  - `stats.rs`: the run's totals;
  - `error.rs`: the library's errors.
- `app/` is the program: command line (`clap`), sockets, DNS lookups
  (`libc`, `windows-sys`), Ctrl-C handling (`ctrlc`), timing and printing.
- `tests/` runs the library on concrete values.
