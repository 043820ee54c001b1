# caldir-provider-proton

A [caldir](https://caldir.org) provider for Proton Calendar, with its core
verified by Verus.

- `src/` is the verified library: the API reply checks and retry rules,
  the SRP login checks, the choice of the key secret, the connect steps, the session naming rules, the
  event listing state machine, the mapping between Proton events and
  iCalendar text (card partitioning, property merging, notification
  triggers), and the remote configuration parameters. Calls into `chrono`,
  `chrono-tz`, `base64`, `proton-srp`, `proton-crypto-account` and `caldir-core` go through small
  trusted wrappers whose contracts are documented where they are declared.
- `app/` is the provider binary: the JSON protocol on stdin and stdout,
  HTTP with `reqwest`, the session files, and the PGP work with
  `proton-crypto`.
- `tests/` exercises the library on concrete values.
