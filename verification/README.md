# obsidian_web_server

A web server that exposes a git-managed Obsidian vault for editing. Each save that
changes something results in a single git commit in the local repository; pulling and pushing are
left to the operator.

- `src/` is the logic, verified with Verus. It does no input or output: a function says what is to
  be done outside, and another one takes what came of it.
  - `path`, `text`: paths as components, and the text functions they are made with
  - `vault`: which paths a request may name, and where they lie
  - `tree`: the file tree
  - `git`: the commands of git, and what their results mean
  - `routes`: the requests of the API, step by step
  - `state`: the start of the server, and the commit of a change
  - `assets`: the files of the web page
- `app/` is the server around it: the command line, HTTP, the file system, and git itself. The files
  of the web page are embedded from `app/assets`.
- `tests/` runs the library on given values.
