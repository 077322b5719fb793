# pipemeeter_core

PipeWire handling for a fixed layout mixer, with its decisions proved in
Verus. It creates the virtual devices, starts a filter chain helper per strip,
manages links, reads meters, records and plays takes, and remembers devices
that are not currently plugged in.

Nothing here draws anything.

## Layout

- `src/` is the library: what the mixer knows, decides and writes. Every
  function has a contract over plain models, and the promises that span
  functions are public proof functions beside them.
- `app/` is what touches the machine: threads, files, helper programs, the
  PipeWire connection and floating point. It asks the library and carries out
  the answer.
- `tests/` runs the library on concrete values.

A float is carried through the library as its bits, in `single::Single`.

## What is taken on trust

- `String::push`, in `text.rs`.
- `str::to_lowercase`, in `devices.rs`, whose result is only named.
- `Channels::count` of `symphonia`, in `audio/player.rs`.

## Building

`app/` needs the `libpipewire-0.3` headers and clang at build time, and the
`pipewire` crate at 0.10 or newer with its `v0_3_44` feature.
