# agent_kernel

A transactional execution kernel for agents, written in Verus: every decision the
kernel takes (who may do what, under which lease, on which backend, with which
effect on the outside world, and what is recorded of it) is executable Rust whose
behaviour is stated in `requires` / `ensures` contracts and proved.

## Layout

- `src/` is the verified library.
  - Foundations: `json`, `hash`, `layout`, `text`, `lines`, `time`, `ids`, `sorted`, `table`, `bytes`.
  - Protocol types: `action`, `observation`, `effect`, `denial`, `capability`,
    `constraints`, `budget`, `state`, `delta`, `replay`, `principal`, `error`, `traits`.
  - `path`, `sync`, `glob`, `net`: workspace paths, state sync, globs, egress addresses.
  - `identity`: principals, leases, delegation, signing and sealing keys.
  - `policy`: the policy document, its compiler and the decision engine.
  - `ledger`: the hash-chained causal ledger and its queries.
  - `broker`: the effect broker (exactly-once commits) and the secret vault.
  - `scheduler`: backend routing, budgets and admission.
  - `api`: the kernel: opening, steps on every plane, effects, exploration, audit, HTTP
    shapes.
- `app/` is the server around it: arguments, files, SQLite, HTTP, and the traits that
  isolation backends and connectors implement.
- `tests/` exercises the library from outside.

## Laws

What holds of the kernel as a whole stands as public proof functions named `law_…`,
next to the functions they speak of: a lease is never widened by delegation, a key is
committed once, a changed ledger is detected, reservations never jointly overdraw an
episode's budget, intent never authorizes, and others.

## What is trusted

Calls into other crates (hashing, signatures, sealing, base64, hex, UUIDs, calendar
texts, JSON numbers read as doubles, `IndexMap`) go through small
functions marked `#[verifier::external_body]`. The doc comment of each says what is
taken on trust.
