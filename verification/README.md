# chatmail_control

An admin panel for a chatmail server (Postfix, Dovecot, doveauth), with its
logic verified by Verus.

- `src/` is the verified library: the host commands the panel runs, how their
  output is read and graded (users, services, logs, health checks), the ban
  access files, the Postfix restriction merge, the registration settings and
  how they are stored and read back, password hashing and the login rate
  limiter, the session cookie key, and the answers to errors. Each public
  function states its result in its `ensures`; the `lemma_*` proof functions
  state the laws that relate several functions.
- `app/` is the binary around it: command line, configuration file, SQLite,
  process execution, DNS lookups and the HTTP routes.
- `tests/` runs the library on concrete values.
