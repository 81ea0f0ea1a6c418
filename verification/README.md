# zftop

A terminal dashboard for ZFS in the spirit of `htop`: the ARC, system memory, pools and datasets
on one screen. The logic is a library written in Verus: its functions state what they return, and
Verus proves it. One contract is trusted without proof, that of `String::push` in `text`. The
traits by which the sources are asked (`ArcReader`, `MemSource`, `PoolsSource`, `DatasetsSource`)
promise nothing; what is proved holds whatever a source answers.

- `src/` is the library.
  - `arcstats`, `meminfo`, `pools::libzfs` read counters, memory and pool configurations.
  - `datasets`, `pools::rows` list the visible rows of the two trees.
  - `names` is the set of expanded names, `text` reads lines, words and numbers, `format` writes
    byte counts.
  - `app::model` says what each event makes of the state, `app::state`, `app::refresh`,
    `app::keys` and `app::metrics` do it, and `app::laws` holds what is true whatever happens.
  - `cli` reads the command line.
- `app/` is the program around it: files, sysctl, libzfs, the terminal.
- `tests/` runs the library on examples.

Ratios are kept as two integers; only the program divides them.
