# rs_repo_manager

Keeps Docker Compose deployments of Git repositories up to date. For each
configured repository it reads `HEAD`, runs `git pull`, reads `HEAD` again,
and redeploys only when the commit moved:

    <after_pull commands>
    docker compose down          (when compose_down is set)
    <before_up commands>
    docker compose up -d --build
    <after_up commands>

A failing command stops the work on its repository; the other repositories
are still handled, and every failure is reported at the end.

Layout:

- `src/` — the library, with its proofs. `execution/script.rs` runs a list of
  commands through a `CommandRunner` and stops at the first failure;
  `execution/mod.rs` holds the pull and deployment scripts and the pull
  decision; `execution/commit.rs` compares `git rev-parse HEAD` outputs;
  `repository/mod.rs` handles all repositories; `configuration/mod.rs` turns
  the configuration into repositories.
- `app/` — the program: argument handling, reading the JSON configuration
  with serde, and a `CommandRunner` that starts child processes.
- `tests/` — tests of the library with fake runners.
