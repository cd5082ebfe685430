# Key-X

Key-X keeps secrets in a local AES-256-GCM vault and lets configuration files
carry only `kx_` references. `keyx run` resolves the references of a project
(explicit `--env` options, then the `[env]` table of `.keyx.toml`, then the
`kx_` values of `.env`) through a local daemon, which answers only projects
that were trusted with the key ids they ask for.

## Layout

- `src/` — the library, verified with Verus:
  - `vault.rs`: the encrypted envelope (create, unlock, save) and the laws that
    a created or saved vault unlocks to what was sealed;
  - `entries.rs`: entries and key ids (add, update, rotate, delete);
  - `daemon.rs`: the daemon's state with its idle lock, and the decisions of
    every route (resolution, look-ups, status, routing, authorization);
  - `trust.rs`: the trust list; `refs.rs`: the reference chain of `keyx run`;
  - `render.rs`, `cli.rs`: what the command line prints and decides;
  - `crypto.rs`: AES-GCM, PBKDF2, Base64 and randomness, behind trusted wrappers;
  - `hex.rs`, `num.rs`, `text.rs`, `order.rs`, `config.rs`, `error.rs`, `audit.rs`:
    the smaller pieces.
- `tests/` — tests of the library on concrete values.
- `app/` — the program: argument handling, the HTTP client and server, files,
  the system keychain, dialogs and the clipboard.
