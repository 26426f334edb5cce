# api_studio

The verified core of a desktop studio for inspecting the HTTP traffic of
mobile apps: capture sessions and flows, endpoint grouping and traffic
search, session comparison, replay, mock rules and fixtures, workspace
collections and environments, portable workspace bundles, the local
command server's guards, and the redacted evidence handed to an AI
assistant.

## Layout

- `src/` is the library. Every function in it is verified by Verus against
  its `requires`/`ensures` contract. Storage is described as SQL statements
  with their parameters, so the library decides what is written and read,
  and the caller runs the statements.
- `tests/` runs the library on concrete values. Some tests run the
  library's statements on SQLite.
- `app/` is the local command server: it parses arguments, opens the data
  directory, runs the statements with `rusqlite`, calls device tools, and
  serves the guarded HTTP endpoints with `axum`.

Calls into `serde_json`, `sha2`, `base64` and a few `std` text functions
go through small trusted wrappers in `src/`. Each wrapper's doc comment says
what its contract claims about the outside function.
