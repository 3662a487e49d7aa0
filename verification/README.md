# disturbar

A status bar for Wayland compositors (layer shell), shown while a Super key
is held, plus the small keyboard watcher that tells it when to show.

The library under `src/` holds the logic, verified with Verus:

- `cli` — the command line.
- `text`, `scan` — character and byte helpers; the scanners that read
  integers and strings out of `hyprctl` and `rmpc` JSON.
- `workspaces`, `status` — the texts of the bar (workspace labels, song,
  battery, volume, clock) built from what the system tools print.
- `renderer` — the 5x7 font, text fitting, and the pixel buffer of the
  visible bar.
- `bar` — per-monitor redraw bookkeeping, visibility requests and the poll
  schedule.
- `input_backend` — which signals the keyboard watcher sends.
- `process` — recognising the running bar processes.

`app/` is the program around it: Wayland, libinput, signals, `/proc`,
sysfs, running the tools, and the floating-point parts (volume level,
battery time estimate).
