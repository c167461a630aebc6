# ddns_route53

A dynamic DNS updater for AWS Route53: it keeps a list of record names in a
configuration file and points their `A` records at the machine's public IP.

- `src/` is the library, verified with Verus: the configuration and how
  `add` and `remove` change its record list (`config`, `commands`), the
  reading of what the user types (`prompt`, `text`), the record changes sent
  to the hosted zone (`records`), and the decisions taken while installing
  the systemd units (`service`).
- `app/` is the command-line program around it: prompts, the TOML file, the
  HTTP and Route53 calls, systemd.
- `tests/` runs the library on concrete values.

`add` appends the entered records that are not configured yet and points
each of them at the current public IP right away; `update` points all of
them again later.

The original sources declare an `assets` module with the systemd units that
`setup` installs, but its files are not part of them: the unit texts in
`app/assets.rs` are written for this crate (the `ExecStart` path in the
service unit is an assumption).
