# tunnel_control

A reverse tunnel: agents behind a NAT keep a control connection and a few data
channels to a public server, which listens for TCP and UDP clients and carries
their traffic over those channels to services near the agent.

## Layout

- `src/` holds the rules, verified with Verus: the wire protocol (`protocol`,
  `messages`), the server's data plane (`plane_model`, `plane`, `pair_map`,
  `listeners`, `bandwidth`), its sessions, settings and management interface
  (`server_session`, `server_config`, `settings`, `enrollment`, `admin`, `api`,
  `token`, `ids`), the agent (`agent_config`, `agent_session`, `agent_channel`,
  `agent_streams`, `backoff`, `traffic`), and the client console (`console`,
  `display`, `key_values`, `logs`, `log_view`).
- `app/` is ordinary Rust: sockets, files, the database, timers and `main`. It
  hands the library plain values and carries out what the library decides.
- `tests/` runs the library with the outside crates linked.

Times are nanoseconds in a `u64`, identifiers are `u128`, and every queue and
table is modelled by a map or a sequence, over which the contracts are stated.
Calls into outside crates stand behind small wrappers marked
`#[verifier::external_body]`; the comment above each says what is taken on
trust.
