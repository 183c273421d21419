# randomi

The backend of Randomi GO, an online card game: cards and their effects, games and turns, the game
servers that players reach by WebSocket, lobbies, accounts and friend requests.

`src/` is the library, verified with Verus: every function states what it does in its contract, and
the `law_*` proof functions state what holds across operations (a play creates no card and keeps the
players, a player is in one lobby at most, joining and leaving a lobby gives it back as it was, and
so on). The calls into outside crates (random numbers, UUIDs, bcrypt, nanoid) go through a few
trusted wrappers whose contracts say what the crates' documentation promises.

`app/` is the server around it: the HTTP routes (actix-web), the Postgres database (diesel), the
WebSocket and server-sent-event plumbing, and the JSON forms of the library's types (serde).

`tests/` runs the library on concrete cases.
