# rmk-palettefx

Palette-driven lighting effects for keyboards with one RGB emitter per key,
verified with Verus.

Effects write HSV values into a frame buffer that the caller supplies. The
caller converts to RGB and ships the result to its LED driver; nothing here
depends on a microcontroller or on a driver. Every effect is an integer
computation on a millisecond clock, the LED positions and its own state, and
its contract says which color every LED of a frame gets.

## Layout

- `src/math.rs`, `src/color.rs`, `src/palette.rs`, `src/layout.rs`: fixed-point
  helpers, colors, palettes and LED positions.
- `src/bytes.rs`: where random bytes come from.
- `src/effects/`: one module per effect. Each has a model (what the state
  holds, as mathematical values), the executable state that views into it, and
  laws about the model.
- `src/effects/cycle.rs`: one value for whichever effect is active, and a stack
  of two.
- `src/rmk_lighting.rs`: the effects as a source for a lighting engine: light
  keys, host selections, parameters and the queue of key hits.
- `app/`: the shared static queue, the adapters for firmware types and for
  generators of any kind.
- `tests/`: scenarios on concrete boards.

## Effects

Gradient, Flow, Vortex, Sparkle, Ripple, Rain, Reactive, Crosshair, Tracer,
Keyfall, Shockwave and Comet, in index order. Reactive and the five after it
react to key presses; every effect can fill either slot of a stack.

## What is trusted

Two outside crates are called, each behind a few declared facts:

- `rand_pcg`: the word that a generator yields is a function of its seed, its
  stream and its position.
- `heapless`: a bounded deque appends while it has room and hands its items out
  in order.
