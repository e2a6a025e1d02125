# Zitadel Actions Manager

A library and a CLI tool to sync v1 and v2 Zitadel actions defined in a
declarative way (`actions.yaml`, `flows.yaml`, `targets.yaml`,
`executions.yaml`), with the library's logic proved by Verus.

## Layout

- `src/` — the verified library.
  - `text.rs`: the order of names and sorting of names.
  - `name_map.rs`: `NameMap`, the map keyed by names that definitions are read
    into: a `Vec` of entries kept strictly sorted by name, with that as its
    invariant, where an ordered map of strings would otherwise stand. Verus's
    specification of std's `BTreeMap` holds only for keys whose ordering it
    specifies (`key_obeys_cmp_spec`), and it specifies none for `String`, so
    nothing about a `BTreeMap<String, _>` could be proved; a `HashMap` would
    lose the order by name in which definitions are walked. Neither was tried
    as the map here.
  - `zitadel.rs`: the data exchanged with Zitadel and when a defined action is
    the one Zitadel has.
  - `loading.rs`: which scripts to read for the v1 definitions, and completing
    the definitions with them.
  - `plan.rs`: what a sync does with each action and each trigger.
  - `sync_v1.rs`, `create_only.rs`, `v2.rs`: the decisions of a v1 sync, of a
    v1 creation in a fresh organization and of a v2 sync. Each says which call
    to Zitadel comes next and takes what it answered.
  - `remote.rs`: reading Zitadel's answers, where any field may be missing.
  - `auth.rs`: the signed assertion a service account sends for an access
    token.
  - `orgs.rs`: walking the organizations page by page.
  - `laws.rs`: properties of the library as a whole (a second sync writes
    nothing, actions marked as deleted are never written, and so on).
- `tests/` — tests of the library, with in-memory Zitadel doubles.
- `app/` — the CLI: arguments, files, HTTP clients, and the loops that run the
  library's decisions against Zitadel.

Verify with `verus` on `src/lib.rs`.
