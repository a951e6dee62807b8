# carve

The Zainium OS command-line installer: an interactive wizard
(`carve install [--real]`), a headless TOML-driven install
(`carve auto-install --config …`), an asset report (`carve check-assets`)
and a Limine conf helper (`carve apply-install-conf`).

## Layout

- `src/` — the library, verified with Verus: the install plan and its
  validation, asset discovery over a filesystem snapshot, disk listing and
  partition naming, the privileged commands each job runs and what their
  results mean, the Limine boot configuration, account files and the
  `elevate` policy, Quantra service markers, the job pipeline and its log,
  timezone lists, and the wizard's screens and checks.
- `app/` — the program around it: argument parsing, prompts, reading the
  environment and the filesystem, running commands, writing files, and the
  quantra-netd client.
- `tests/` — tests of the library on concrete values.

Decisions that depend on the outside world take what was observed as
plain data: an `EnvVars` snapshot of the environment, an `FsSnapshot` of
the probed paths, or a `CommandOutput` of a finished command.
