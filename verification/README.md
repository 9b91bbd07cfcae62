# pm

A process manager for local development. A configuration file names some services; a manager in
the background starts them, keeps their output and watches whether they are ready; a terminal can
be attached to it to follow the output and to start, stop and restart services.

## Layout

- `src/` is the library. It holds what decides or computes, each function with a contract that
  Verus proves; only the shares of the processor, which are floating point, are added and compared
  in `app/`.
  - `config`: what a configuration may say.
  - `ipc`, `replies`: the messages between the manager and its clients, their framing, and what
    an answer means.
  - `manager`: what the manager does when something happens. `manager::job` starts and stops
    services step by step, `manager::service` is what is known of one service,
    `manager::process_tree` finds the processes that belong to it, and `manager::mirror` shows
    that those who are attached know what the manager knows.
  - `attach`: the attached terminal. Short names and their highlighting, commands and their
    completion, the footer and the layout of the screen, and the session that ties them together.
  - `startup`, `paths`: starting a manager and finding its files.
  - `text`, `numbers`, `name_map`: what the rest is built from.
- `app/` is the program around the library: the command line, the socket, the processes, the
  terminal and the files. It performs what the library asks for and hands back what came of it.
- `tests/` runs the library.

Public proof functions whose names begin with `law_` state what holds of the library as a whole.

## What is taken on trust

Verus believes four statements without proof: what `String::push` does, that what
`char::is_alphanumeric` answers depends on the character alone, and which status codes
`StatusCode::is_success` and `StatusCode::is_redirection` are about.
