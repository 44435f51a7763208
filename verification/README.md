# battleship

A battleship game server. The library (`src/`) holds the game and the
decisions of its two front ends, with their contracts proved:

- `game`: grids, boats, boards, games, roles. A board knows which cell each
  boat covers; a shot marks the cell and hits the boat on it.
- `api`: pairing players over HTTP and collecting their fleets.
- `mqtt`: the engine that turns incoming MQTT packets into state changes
  and the messages to publish.
- `text`: splitting topics, reading and writing decimal numbers.

`app/` is the program: the MQTT client and event loop, JSON encoding, and
the HTTP routes, all calling into the library.
