# syncz

rsync over ssh with smart pathing: a path below the home directory is synced with
the same path below the home directory of a host.

The decisions of the program are a library, verified with Verus:

- `text`, `order`, `number`, `lossy`, `duration`: text, its order, and numbers, bytes and
  durations as text
- `path`: parents, clean paths, and the remote path that a local one maps to
- `shell`: quoting for the remote shell
- `args`, `command`: the command lines of ssh and rsync, and how their results are read
- `tree`, `progress`: what a run shows of the changes and of its progress
- `hosts`: the host of a run
- `session`, `watch`: what is done next in a sync, and when a change leads to one
- `*_laws`: what holds of these together

Paths are rows of bytes, as on Unix. `app/` is the program around the library:
it reads the command line and the files in the home directory, runs the commands
and prints.
