# gaiaci

A Lua-driven CI runner.  The library (`src/`) holds the pipeline model and
its verified logic: building pipelines from Lua tables, validation,
dependency ordering, critical-path analysis, scheduling of steps into
groups that may run side by side, the bookkeeping of sequential and
parallel runs, log formatting, and the `assert` and `crypto` modules of
the Lua API.  Contracts and laws are checked by Verus.

`app/` is the `gaia` command around it: the command line, file and process
access, the global logger, the `log`, `shell`, `fs` and `env` Lua modules,
and the tokio worker pool that carries out the library's decisions.
