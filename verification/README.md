# game

A small multiplayer game with a web site for its accounts, whose logic is
verified with Verus.

- `src/` is the verified library:
  - `keymap`: the keyed tables that the server and client keep;
  - `protocol`: the messages of the game and their framing on the wire;
  - `server`: the server's sessions (tokens over TCP, addresses bound over
    UDP by confirmation or challenge, players admitted, moved and removed),
    with the consistency of its tables as an invariant;
  - `client`: the client's side of a session;
  - `random`: random bytes from the operating system (`getrandom`);
  - `web`: HTTP request parsing, routing, form reading, sessions and the
    responses of the web site;
  - `frontend`: the site's pages as trees of HTML elements.
- `app/` holds the three programs (`web`, `server`, `client`): sockets,
  the database, serialization, HTML and HTTP output, and the game window.
- `tests/` runs the library on concrete values.
