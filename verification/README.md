# smkb

One mouse and one keyboard for two machines. The master owns the devices; when its pointer goes
over a chosen side of a monitor, the slave replays the input until the pointer comes back, a hotkey
is pressed, or the slave falls silent.

- `src/` is the library, proved with Verus: frames and packets (`codec`, `wire`), the key exchange
  (`noise`, `crypto`, `handshake`), the channels and what they promise (`reliable`, `delivery`,
  `transport`), the two machines (`master`, `slave`), the way of the pointer (`pointer`, `scale`),
  devices (`capture`, `batch`, `grab`, `keys`, `emitter`), Hyprland (`hyprland`, `json`), and the
  settings (`config`, `slave_config`, `args`, `paths`, `discovery`, `safety`).
- `app/` is the program around it: sockets, devices, timers and configuration files. It waits for
  events, hands them to the library, and does what the library decides.
- `tests/` run the library on concrete values.

What the library believes of outside crates stands in functions marked
`#[verifier::external_body]`, each with a comment that says what is believed.

Times are nanoseconds since some moment before the program began.
