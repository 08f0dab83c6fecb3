# grok_pager

Verified pieces of the pager: how the installed version is shown and stamped,
and the `/jump` turn-navigation command.

- `src/text.rs`: character-level string operations (trim, split, join,
  decimal parsing and printing) with their specifications.
- `src/version.rs`: the compiled version, the injected full version (first
  stamp wins), display strings, the environment override, and
  `append_fork_build_meta` with its laws (identifiers kept, rebuilds do not
  stack).
- `src/build_stamp.rs`: the build stamp `"<stamped version> (<commit>)"` from
  the build version and what git reports.
- `src/semver_version.rs`: the call into the `semver` crate.
- `src/jump_command.rs`: `/jump [N]` argument parsing and the command.
- `src/jump_dispatch.rs`: the picker and direct-jump dispatchers over a model
  of the agent view and its transcript, with their laws.
- `app/build_stamp.rs`: the build-script step (git, environment, cargo
  directives).
- `app/lib.rs`: process-level glue (the build-time version, environment,
  the process-wide stamp).
