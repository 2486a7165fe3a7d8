# EasOS kernel

The kernel of an EasOS workspace: it discovers the plugins (the first-level
directories of the workspace), installs and removes them, starts and stops
their processes in dependency order, and answers the `easos` command over a
Unix socket.

## Layout

- `src/` is the verified library.
  - `text`, `textmap`: text order, character classes, and maps and sets kept
    in key order.
  - `error`: the kernel's errors with their codes and messages.
  - `model`: manifests, settings, the kernel state and their validation.
  - `path`, `layout`, `rooted_layout`: where things live.
  - `registry`: which directories hold loadable plugins, and the rules for
    installing and removing them.
  - `kernel`: dependency order, the guards on uninstall and stop, and the
    reports on plugins.
  - `process`: the table of running plugin processes and launch plans.
  - `protocol`: control requests and responses.
  - `command`: each control command as a sequence of steps; the library
    decides every step and the daemon performs the work it asks for.
- `app/` is the two programs around it: the `easos-kerneld` daemon (socket,
  files, processes, signals) and the `easos` command line.
- `tests/` runs the library on concrete values.
