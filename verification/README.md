# btclient

The core of a BitTorrent client, written in Rust and verified with Verus.

- `src/` is the library. `btclient` keeps the list of torrents, `torrent` runs one of them,
  `connection` cuts the stream of a peer into messages, `slots` keeps the connections, `wire` has
  the bytes of the messages, `tracker` the announcement and the reply, `metainfo` the metainfo
  file, `console` the command line, and `text`, `bitfield` and `readiness` what these build on.
- `app/` is the program around it: the console, threads, sockets, polling and HTTP.
- `tests/` runs the library on examples.

The library does no input or output. Where it needs some, a function returns a step that says what
to do, and takes what came of it as the next event. What is proved of each function stands in its
contract; properties that span several functions are public proof functions whose names start with
`law_`.
