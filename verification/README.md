# src_utils

The core of a small VNC server, written in Verus. The functions under
`src/` carry contracts that Verus proves, with six exceptions: the thin
wrappers around std that read the clock (`system_now`, `since_unix_epoch`,
`whole_seconds`, `instant_now`), build a `Duration` (`duration_from_millis`)
and push onto a `String` (`string_push`). Their contracts are taken on
trust from std's documentation.

- `src/text.rs` — character-level trimming, splitting and integer parsing
  with std's exact acceptance rules, the base of all option parsers.
- `src/connections.rs` — connected clients, their listing, the address
  allow lists, and what a user command hook does.
- `src/pointer.rs` — the `-buttonmap` remap strings and remapped events.
- `src/userinput.rs` — input events, the event queue, dispatch to an
  injector, and the wireframe and scroll-copyrect parameter strings as far
  as integers go (defaults, clamping, edges, timing tokens).
- `src/screen.rs` — the RGB24 framebuffer.
- `src/safe_utils.rs` — clamping, hex/decimal scanning, geometry strings,
  bit strings and string lists.
- `src/x11.rs` — a display stub plus the pixel conversion, keysym lookup,
  injector-to-X button mask and button transitions that an X11 backend needs.
- `src/uinput.rs` — the event records of a Linux uinput device.
- `src/event_loop.rs`, `src/options.rs`, `src/inject.rs`, `src/xi2.rs`.

`app/` holds the program around the library: command-line parsing (clap),
the X11 backend (x11rb), the uinput device and host name lookup (libc), the
user command runner, and the floating-point parameter fields.
