# canum

The rules of a small 2D shooter, written in Verus and proved against their
contracts, with a thin engine layer around them.

- `src/` — the verified library: shields and health, boss behaviours,
  controls, dashes and projectiles, saved progress and the shop, sessions and
  cutscenes, effect state machines, sprite animation clocks, configuration
  merging, and the text and name-map helpers they use. Public proof functions
  named `law_*` state properties that hold across calls.
- `tests/` — tests of the library on concrete values.
- `app/` — the engine side: plugins that read input, physics contacts and
  time, call the library and carry out what it returns; configuration file
  reading; and the floating-point parts: movement and steering, weapon
  shots, behaviour weights, splash drops, the camera, angles, ray casts and
  placements. Sprites, sounds and interface widgets are not drawn here.
