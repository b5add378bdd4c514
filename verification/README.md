# ax25_node_core

The portable logic of a packet-radio node, verified with Verus: every function of the
library states in its contract what it returns or changes, and is proved against it.

## Layout

- `src/ax25` - callsigns, addresses, frames and the XID information field.
- `src/kiss.rs` - the KISS framing of packets on a serial line.
- `src/sdl` - the connected-mode link layer, run off the state tables of the `ax25sdl`
  crate: the link and its timers, guards, actions and loops, the session, parameter
  negotiation, the bridge to frames, what is known of neighbours, and the manager of many
  sessions.
- `src/netrom/wire` - the NET/ROM datagrams, NODES broadcasts and INP3 formats.
- `src/radio` - what a radio can do and tells of a frame, the attribution of signal
  levels to frames, and the Tait radios: the CCDI lines, the driver and the transparent
  mode.
- `src/tune` - the telegrams by which two stations set a transmitter's level, and the
  link that carries them as short messages.
- `src/bytes.rs`, `src/fields.rs`, `src/numbers.rs`, `src/pieces.rs`, `src/text.rs` -
  octets, fields, numbers, and texts whole and in pieces.
- `app` - the asynchronous loops between a serial port and the library.
- `tests` - what the library does on given values.

## Contracts

Each type with contents has a view, and contracts speak of views. Where a function works
towards a port, a clock or a radio, it is a step: it says what to write and takes what was
read, and the loop around the steps is in `app`.

Functions named `law_` state what holds across functions: that what is written is read
back, that cutting a stream into pieces makes no difference, that an event touches one
link only.

The tables of `ax25sdl` are taken as they are. The contracts of a session say what any
tables make of an event; where they ask for something that does not exist, the event ends in
a fault and the timers are put back. Of what the generated tables hold, `src/sdl/drawn.rs`
spells out what is relied on: how a link is established, how a call brings it up, and how an
I frame that comes in turn is acknowledged. What follows from it is in `src/sdl/conduct.rs`,
and in the contracts of the manager.
