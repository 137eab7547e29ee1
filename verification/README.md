# partydeck

The logic of a split-screen game launcher for Linux, verified with Verus: it
runs several instances of a game side by side, each in its own gamescope
window, each fed by its own input devices.

## Layout

- `src/` — the verified library.
  - `input` — the device table: physical devices, the targets that leases
    hold, binding devices to targets and grabbing them.
  - `session` — instances and displays, their ids, launch tracking and the
    editor operations (add, remove, swap, condense).
  - `layout`, `layout_manager` — window layouts of a display.
  - `launch` — the commands that start each instance, the launch
    prerequisites, overlay mounts and the window manager's layout requests.
  - `keys` — keyboard and pointer translation for gamescope.
  - `remote` — remote clients, the relay link state machine and input
    routing.
  - `unshare` — the namespace process protocol and wait statuses.
  - `video` — video errors and who listens to which PipeWire stream.
  - `screens`, `toasts` — the decisions of the launcher's screens and its
    notifications.
  - `text`, `util`, `seqs`, `random` — strings, paths, sequence lemmas, and
    random numbers.
- `tests/` — tests of the library.
- `app/` — the parts around the library that touch the system: evdev
  devices, processes and pidfds, wire formats, window grids and colours.
