# aiwork

The rules of a desktop assistant that looks after the accounts of several applications: a local
proxy that reads the traffic of chosen domains, daily tasks, logins through the browser, snapshots
of logins, and the store behind them. What the library decides and computes has contracts that Verus
checks; what it takes from other crates stands behind trusted items, whose contracts are not checked.

- `src/text.rs`, `digits.rs`, `floats.rs`, `json.rs`, `assoc.rs`, `clock.rs`, `codec.rs`,
  `paths.rs`: text, numbers, JSON values, lists by key, times, encodings and paths.
- `src/jwt.rs`, `models.rs`, `store.rs`: tokens, accounts, and the statements of the store.
- `src/device_proxy/`: the authority and the certificates it signs, reading requests in parts, framing
  HTTP, dispatching connections, what a request tells about
  an account, masking, and the logs.
- `src/tasks/`: the daily check-in, the quota of memberships, and the scheduler.
- `src/commands/`: logging in, the history of usage, snapshots, switching, and the certificate.
- `src/switcher/`: the applications, finding them, copying snapshots, and merging their state.
- `app/`: the program around the library, with its files, sockets, processes and databases.
- `tests/`: examples, one file for each part.

Laws that span several functions are public proof functions beside the functions they are about.
What the library takes on trust from other crates are the items marked `external_body` and
`assume_specification`; the comment above each says what is claimed.
