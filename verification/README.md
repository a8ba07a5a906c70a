# mincraft_server

A server for the beta 1.8 block-game protocol. The library (`src/`) holds the
logic, each function with a contract that Verus proves:

- `codec`, `protocol`, `packets`, `packet_ids`, `text`, `buffer`: the wire
  format. Client packets are read by a grammar on bytes that tells an
  incomplete buffer from an unreadable one; server packets are written into
  `bytes::BytesMut` buffers. Floating-point fields travel as their bit patterns.
- `chunk_manager`: chunk positions and view squares, chunk blocks and their
  network form, and the set of chunks held in memory.
- `world`: terrain layering, cave carving and zlib compression of chunk data.
- `player`, `server`: per-connection state (keep-alive latency, name, entity)
  and the decisions taken on each packet, on login, on movement and on chunk
  streaming.
- `config`: biomes and the integer-valued generator settings.

`app/` is the program: the Tokio listener and connection tasks, disk I/O,
the TOML configuration with its fractional settings, and noise sampling.

The server listens on 127.0.0.1:25565 for beta 1.8 clients.
