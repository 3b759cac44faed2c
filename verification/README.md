# nexus

The core of a small realtime game server, written in Verus. The library holds the rules
the services follow, each with a contract that Verus proves:

- `router` — which websocket connections exist, which channels exist, who belongs to
  which channel, and whom a broadcast reaches.
- `match_channels` — the channel of a confirmed match, and when it is ready (every
  player joined).
- `realtime`, `realtime_events` — what a realtime command does to the router, and how a
  websocket connection is registered and unregistered.
- `game_commands` — the commands a game script queues, framed as JSON, and the game's
  state between events.
- `matchmaking` — joining and leaving queues, forming matches from the head of a queue,
  confirming, declining and expiring pending matches, and the store keys.
- `room_queue`, `rooms` — lobbies, game sessions and the rooms service's own queue.
- `auth` — roles, bearer tokens, token claims and role checks.
- `connections`, `notifications` — the connections of each user and the events pushed to
  them.
- `text`, `json`, `events`, `error`, `clock` — strings, JSON text, event records, errors,
  and the two sources of fresh values (the clock and random ids).

Each module's laws (`law_*` proof functions) state what holds across its operations.

`app/` runs the services (`nexus matchmaking|realtime|game|rooms`) around the library:
HTTP routes, websockets, NATS, Redis, PostgreSQL and the rhai game script.
