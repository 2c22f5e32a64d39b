# rpg_core

The rules of a small turn-based 2D role-playing game, verified with Verus, and
the window that plays it.

- `src/` is the verified library:
  - `types.rs`, `joueur.rs`, `ennemi.rs`, `entity.rs`: fighters, their
    statistics, damage, healing, enemy timers and class-based characters;
  - `world.rs`: the grid (12 columns by 8 rows on every map), player moves
    and enemy wandering;
  - `map.rs`, `mapfile.rs`: tiles, the four worlds, the map file format,
    house and chest detection, enemy spawning;
  - `combat.rs`: the combat turn, stated as a function of the random draws;
  - `coffre.rs`: chests, their animation and rewards;
  - `game.rs`: exploration, combats, travel between worlds, chests and the
    end screen;
  - `chance.rs`: the random draws, taken from `rand` and `macroquad`.
- `app/` is the `macroquad` window around the library: input, map files,
  textures, animation, the enemy thread and drawing.
- `tests/` runs the library on concrete cases.
