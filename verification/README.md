# torrent-rs

A BitTorrent client whose logic is verified with Verus.

- `src/` is the library: bencode, metainfo and magnet links, the wire protocol, the piece picker,
  the choker, the conversation with a peer, trackers, storage, torrents and the session. Each is a
  state machine or a function from plain values to plain values; what a function does is stated in
  its contract, and what holds across functions in public proof functions.
- `app/` is the program around it: sockets, files, timers, the HTTP interface and the command line.
- `tests/` runs the library.

What the library has from other crates (`bytes`, `sha1`, `url`, `hex`, `base32`, `rand`) it calls
through small wrappers whose contracts say what is relied on.

| BEP | Description |
|-----|-------------|
| 3 | Core protocol |
| 9 | Magnet URI |
| 10 | Peer extensions |
| 15 | UDP tracker |
| 23 | Compact peer format |
