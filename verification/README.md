# oneko desktop

Cats that chase the cursor over the desktop, and a small websocket relay that
lets the cats of several people meet in a room.

- `src/` is the library, verified with Verus: the relay's rooms and sessions, what
  it accepts from clients, the client's side of the lobby, the configuration and
  the settings page, what each cat does next, and how it is painted.
- `tests/` holds its tests.
- `app/` is the program around it: windows, sockets, files. Started with the
  argument `relay` it serves the relay on the address in `ONEKO_RELAY_BIND`
  (`0.0.0.0:8118` by default); otherwise it runs the cats, with the sprite sheet
  and the settings page from the directory `assets`.
