# clup

A terminal monitor for a Patroni PostgreSQL cluster and the services around
it (HAProxy, PgBouncer, keepalived), with a verified core.

- `src/` is the library, verified with Verus: the interface's state machine
  (`app`), the settings (`config`), reading Patroni's replies and the cluster
  model (`patroni`), the administrative requests (`services::actions`), the
  cluster, logs and overview components, the parsing of what `systemctl`,
  `journalctl`, HAProxy and `ip` print (`system`) and the text functions they
  rest on (`text`).
- `app/` is the program around it: command line, terminal drawing, and the
  HTTP, process and socket I/O whose results it hands to the library.
- `tests/` runs the library on concrete inputs.
