# editor_lsp

The language-server client of an editor: the decisions it makes about
sessions, documents and server traffic, with each one's behaviour stated in
a contract and proved with Verus.

- `src/` is the verified library. JSON values are modelled by `json::Json`;
  strings by their character sequences. Main modules:
  - `sync`, `documents`: text synchronisation (full or incremental content
    changes, which document state to send, buffer versions).
  - `session_table`, `diagnostics`, `logs`: the client's state (sessions and
    the documents they track, published diagnostics and what changed,
    bounded transport and notification logs).
  - `incoming`, `notify`, `config`: reactions to server messages (requests
    answered, progress and message notifications, workspace configuration).
  - `parse`, `completion`, `hover`, `plain`, `order`: reading replies and
    presenting them (locations, code actions, completions, hover and
    signature help, their ordering).
  - `decode`: message bodies and replies, parsed by `serde_json` and
    checked by `lsp-types`, read into the library's types.
  - `params`, `capabilities`, `uri`, `framing`, `transport`, `windows`:
    what the client sends and how it launches servers.
- `tests/` runs the library on concrete values.
- `app/` is the unverified shell: processes, pipes, threads, and the
  conversion between `serde_json`/`lsp-types` values and the library's
  types.
