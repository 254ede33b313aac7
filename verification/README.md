# Anthill

A turn-based roguelike for the terminal, whose game logic is a library
verified with Verus.

## Layout

- `src/` — the verified library (`anthill`):
  - `gameplay/` — the game state, the player character, combat, inventory
    and equipment, items and potions, the cursor, crafting, and how the
    player's input is carried out;
  - `ai/` — npc decisions, A* path finding, and the costs of ways through
    the world (by which A* is shown to return a cheapest path);
  - `world/` — coordinates, tiles, the world grid, levels, level loading
    and the field of view (symmetric shadowcasting);
  - `proc_gen/` — procedural levels: rooms, minimum spanning trees of room
    connections (with the components and rank of forests, by which Kruskal's
    tree is shown to be lightest), corridors, population, entry and exit;
  - `data/` — the item and npc tables and the handcrafted level files;
  - `util/` — dice, the command line, the text log, errors, strings, and the
    trusted wrappers around `rand` and `num-rational`.
- `tests/` — tests of the library.
- `app/` — the terminal application: the main loop, key handling, rendering
  with `ratatui`, reading level files (RON), the log file, and the
  floating-point part of the map generator (binary space partitioning).

Every function of `src/` carries a contract that Verus proves; the few
calls into `rand`, `num-rational` and `std` that Verus cannot see into are
wrappers whose contracts state what those crates document.
