# vangers-srv

The multiplayer server of the game Vangers, with its rules verified by Verus.

- `src/` is the library. It turns bytes into packets (`frames`, `handshake`,
  `session`, `protocol`), keeps games, players and objects (`game`, `games`, `player`,
  `vanject`), answers requests (`callback`), hands packets to clients
  (`client`, `writer`), and decides what the server does about each event
  (`events`, `disconnect`, `server`). Every verified function there has a
  contract over the values of the types it works on.
- `app/` is the program: it opens sockets, runs tasks, reads the clock and
  writes the log, and asks the library what to do.
- `tests/` runs the library on concrete values.

The server is modelled by `ServerModel`. What a request does is a spec function
from the server before to the server after, with what each client has been sent
as part of the value; why a request is turned down is another.
