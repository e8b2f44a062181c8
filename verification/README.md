# bashrs

The rules behind a set of shell commands: finding and stopping processes, looking into a
network name, reading provenance marks out of text and images, converting media, telling what
kind of project a directory holds, downloading, and keeping packages up to date.

- `src/` holds the rules. Every function states what it returns and is proved by Verus.
  Functions named `law_…` state what holds across several of them.
- `app/` is the program around them: arguments, files, sockets, child processes and colours.
- `tests/` runs the library on concrete values.

Calls into `regex`, `console`, `serde_json`, `toml` and `syn` stand behind small functions whose
contracts are believed; each says so in its comment.

One marker is not looked for: the table of vendor names lists Anthropic by the company's name only,
not by its assistant's, so a text that names just the assistant is not flagged.
