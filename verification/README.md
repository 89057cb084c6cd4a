# HyprDisJust

Monitor profiles for Hyprland: save the layout of the connected monitors under a
name, recognise the monitors again whatever connector they are plugged into, and
put the layout back, safely.

The crate is a library whose logic is verified with Verus, and a program around
it.

## Layout

- `src/` is the library.
  - `profile/` holds saved layouts: `store` (saving, renaming, copying,
    deleting), `validation`, `matching` and `assignment` (which saved monitor is
    which connected one), `render` (the rules and commands for Hyprland), `modes`,
    `plan` (what applying a profile would do, and the way back), `apply` (apply,
    check, ask, go back), `transaction` (a whole application) and `persist`.
  - `hyprland/` is the compositor: its monitors, the commands it is given and
    their replies, the events on its socket.
  - `daemon`, `doctor`, `cli`, `systemd`, `config`, `atomic` and `process` decide
    what the commands of the program do and say.
  - `tui/` is the editor: its state and steps, the canvas, the panels.
  - `text`, `lines`, `bytes`, `number`, `double`, `range`, `path`, `sort` and
    `error` are what the rest is written with. Scales and refresh rates are decimals
    in units of 10^-18 of at most 10^10, each standing for the nearest double:
    `double` compares, adds, divides and rounds as double precision does. A written
    number that double precision rounds to infinity or to zero is read as that.
  - The modules that end in `_laws`, and the functions whose names begin with
    `law_`, state what holds across functions.
- `app/` is the program: the command line, files, processes, the socket and the
  terminal.
- `tests/` runs the library.

## What is relied on

The library calls `String::push`, `String::from_utf8`, `String::from_utf8_lossy`,
`char::to_lowercase` and ratatui's `Layout::split`; what it believes of each stands
above the item that calls it. The traits `MonitorController`, `ApplyWait`,
`ApplyConfirmation`, `MonitorEventInput`, `MonitorEventConnector`,
`ConnectionProcess` and `DaemonClock` are for their users to implement, and nothing
is assumed of an implementation: the functions that take one say which calls they
make and what follows from the answers.
