# pvm

A PHP version manager for Windows, with its logic verified by Verus.

- `src/` is the verified library: version ordering (`update`), decimal parsing
  (`numbers`), text utilities over characters (`text`), the `PATH` rewrite and the
  registry string encoding (`path_env`), `php.ini` editing (`ini`), reading the
  release listing (`releases`), reading `php -v` / `php -m` output (`php_cli`), and
  the decisions behind every command (`commands`), which return the steps to
  perform. `registry` models the installation registry and proves that no command
  leaves two installations active.
- `app/` is the program around it: command-line parsing, the SQLite registry,
  downloads, archives, the file system, the Windows registry and elevation. Each
  command gathers its facts, asks the library for the steps, and performs them.
- `tests/` runs the library on concrete inputs.
