# mining_demo

The rules of a small tile-based game in which the player builds rocks and
walls, mines them, and is hunted by monsters, written in Verus and proved
against their contracts.

- `src/` is the verified library:
  - `map`: which entity stands on each tile (`Occupancy`), with the laws that
    a free footprint can be occupied, that occupying a footprint inside the
    map gives exactly its tiles to the entity, that an occupied footprint is
    no longer free, and that freeing an entity undoes its placement;
  - `buildings`: the building the player has chosen and where a click places it;
  - `commands`: the queue of orders an entity carries out, and the orders
    given for moving, mining and hunting;
  - `path_following`: walking a path waypoint by waypoint;
  - `ai`: choosing the nearest reachable enemy;
  - `player`: factions; `entity`: entity identities.
- `tests/` runs the library on concrete values.
- `app/` is the Bevy game around the library: plugins, systems, rendering,
  input, navigation meshes and everything that works with world positions.
