# GEMINUS

Compares two folders or disks and lets the user copy, move and delete between
them, with a look at the health of the disks.

- `src/` is the library, verified with Verus: what differs between two trees,
  what each step of a copy leads to, what may be removed and when, what an error
  means, how paths are written on either system, and what the output of the disk
  tool says.
- `tests/` runs the library on concrete values.
- `app/` is the desktop application around it: the window, the disk, the threads
  and the processes.

Nothing in `src/` reads a disk. Where a decision needs an answer from outside, a
machine names the next step, the application performs it, and the reply decides
what comes after it. The laws at the end of each module say what holds of every
run of such a machine.
