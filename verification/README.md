# fete

The decision logic of a live visuals show, verified with Verus.

- `src/` is the library. Every function in it carries a `requires`/`ensures`
  contract that Verus proves, and the library's laws stand there as public
  proof functions (`lemma_*`).
  - `protocol`, `text`: the button panel receiver's line format.
  - `panel`, `mailbox`, `ports`: link state, button edges, packet-loss
    counting, what each button does, and which serial ports to offer.
  - `visual`, `show`: the visual registry, cycling, per-frame visual changes,
    blackout and the opening visual, command-line flags.
  - `quality`: tiers, their names, the shader definitions, the adapter probe.
  - `lexicon`: the signboard vocabulary and its glyph atlas layout.
  - `bleed`, `rng`, `slime`, `sim`, `grid`, `video`: transition styles,
    xorshift generators, the slime simulation's state machine, ping-pong
    buffers, the flock's spatial grid, and dealing clips onto televisions.
- `tests/` runs the library on concrete values.
- `app/` is ordinary Rust around the library: the serial link, the command
  line, the clip directory, the glyph-atlas baker, and the floating-point
  halves of the generators.
