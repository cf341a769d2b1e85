# alwaysrunning

The verified core of `runner`, a small supervisor: it keeps registered programs alive,
restarts them when they die, and writes their logs under `~/.alwaysrunning`.

- `src/` is a Verus library. It holds what the runner decides and computes: the registry
  of apps, what each command does, what a pass of the daemon does, the status and the live
  screen, logs, env files, signals, times, paths, autostart and the command line. It takes
  and gives plain values.
- `app/` is the program around it: files, clocks, processes, the terminal. It asks the
  library what to do, does it, and hands back what came of it.
- `tests/` runs the library on concrete values.

## Modules

| Module | What it is about |
| --- | --- |
| `model` | registered apps, and what is known of their processes |
| `registry` | changing the list of registered apps |
| `commands` | the effects of `run`, `start`, `stop`, `restart`, `delete`, `export`, `import` |
| `daemon` | starting the daemon, and its pid file |
| `supervise` | one pass of the daemon over the apps; how an instance is started |
| `status`, `watch` | the status, and the live screen with its keys |
| `logs` | the tail of a log, following it, lines as JSON |
| `env_file` | files of environment variables |
| `unix`, `windows` | signals, exits and the ends of processes |
| `autostart` | systemd units and launchd agents |
| `cli`, `grammar` | the command line |
| `store`, `paths`, `time`, `text`, `lossy` | files, paths, times, text and bytes |

## What is trusted

Contracts without a proof stand on the calls into `clap`, `libc`, `serde_json` and
`windows-sys`, and on a few functions of the standard library. Each says in its
documentation what it claims. The constants and status macros of `libc` are stated as
Linux and macOS have them.

## Where it builds

On Unix only. The module `unix` is always part of the library, and it names constants and
functions that `libc` does not have on Windows; so the library, and with it the program,
cannot be built there. What the runner decides on Windows is in the module `windows`, and
`app/windows.rs` has the calls for it, but neither is of use before the library can leave
`unix` out.
