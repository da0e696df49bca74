# github_cli

A terminal companion for a repository-hosting web service: a command prompt
that pushes and pulls a folder's file tree, manages repository secrets and wiki
pages, scans a project (statistics, dependencies, content and file search,
recent files, git commands), and a small local HTTP/WebSocket server.

- `src/` is the verified library: the decisions and computations of the tool,
  each with a contract that Verus proves.
  - `command`: reading a prompt line as a command.
  - `ignore`: which paths a push leaves out, and `.gitignore` patterns.
  - `config`: settings, login requirement, API address, repository link.
  - `remote`: writing a pulled tree, wiki titles, secret lookup.
  - `scan`, `order`, `listing`: statistics, recent files, content search,
    file search, folder listings, and the orders they use.
  - `ports`, `metrics`: listening ports and memory/CPU figures from system tables.
  - `server`, `git`, `deps`: replies of the local server, git arguments,
    `package.json` dependencies.
  - `json`, `text`: the trusted calls into `serde_json` and std's case
    mappings, and verified text helpers.
- `app/` is the program around it: the prompt loop, file system walks,
  network calls, the server, and terminal colours.
- `tests/` runs the library on concrete values.
