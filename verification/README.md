# mkg-starship

A 2D lunar-lander game (planets and moons from Mercury to Pluto, three thrusters,
methane fuel, a single crash per run, a top-score table).

- `src/` is the verified library (Verus):
  - `planets` — the bodies, their names, the landing progression and its laws;
  - `game_flow` — what crashes and landings do to a run, restarting, overlay visibility;
  - `persistence` — the top-score table (ordering, the saved text format, reading it
    back, merging a finished run) with the law that a saved table loads back unchanged;
  - `ui` — HUD and overlay texts;
  - `audio` — the WAV container of the engine loop and when the loop is heard;
  - `terrain` — the integer parts of terrain generation (pad count, flattened spans);
  - `text` — trimming, splitting and decimal integers over characters.
- `app/` is the Bevy program around it: rendering, input, audio output, storage, and the
  floating-point physics, collision and terrain shapes.
- `tests/` exercises the library on concrete values.
