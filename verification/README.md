# grahamcraft

A small multiplayer voxel game, with its rules written as a Verus library.

- `src/` — the verified library:
  - `block_store`: coordinates packed into integer keys of a `HashMap`, the
    store of non-air blocks that both worlds use;
  - `world`: the server's bounded world (reads, writes, the seeded floor, the
    spawn pad) and its laws;
  - `game_state`: the server's players and world, with the event each request
    broadcasts, and the snapshot sent to a joining client;
  - `player_id`: player ids drawn from random UUIDs, their text form and the
    spawn offset they pick;
  - `voxels`: the client's collision grid and its support and ground queries;
  - `remote_players`, `keyed_list`: the client's roster of other players;
  - `session`, `address`, `sync`, `palette`: the client's join answer, server
    address, position-sync decision and colours.
- `tests/` — scenarios run against the compiled library.
- `app/` — the runtime around it: the server's locked state, event bus and
  request handlers; the client's float physics, ray picking, scene entities
  and network session.

Player positions travel through the library as the bit patterns of `f32`
coordinates; the float arithmetic of movement and aiming lives in `app/`.
