# pensieve_analytics

Exact analytics over one active-file snapshot of Nostr events. The library
derives compact products from sorted fixed-width artifacts, revalidates them
before they are published, and decides how a published run follows another.

## Products

| Product | Modules |
|---------|---------|
| Event counts and their publication | `plan`, `incremental*`, `publish*`, `products`, `publication` |
| First appearance of every publisher | `first_seen_*`, `pubkey_first_seen` |
| Fixed activity by day, week and month | `activity*`, `fixed_activity`, `period_counter`, `publisher_flags` |
| Flexible distinct counts | `hour_identities`, `leaf_stream`, `flexible_*` |
| Engagement, long-form and zap facts | `semantic_*`, `rollups` |
| Zap participants | `zap_*` |
| Relay distribution | `relay_*` |
| Publisher rankings | `publisher_*` |
| Hourly and kind counts for serving | `serving_*`, `kind_publishers` |
| Comparison of two series | `reconcile` |

`build_runs`, `merge`, `runs`, `run_writer`, `batches`, `advance` and `disk` hold
what all builds share: one run for each batch, planning and accounting of
streaming merges, names and identities of runs, progress over batches, and disk
estimates. A module whose name ends in `_run` is one whole build, update or
publication. `ledger` is one transaction of the published ledger: it is handed
over with every question and comes back with the answer, and committing or
dropping it takes it for good. `publish_side` publishes one product in it,
`publish_run` a run with its products, and `publish_relay`, `publish_zap` and
their neighbours one product in a transaction of its own. `incremental_run` and
`ranking_run` hand a work database and the store of a ranking on in the same way;
`publisher_resume` counts and ranks in it, and `steps` holds what these chains
have in common. `benchmark_run` scans an activity, encodes its best rows and
reports on them. `visits` hands the rows of an artifact on to a visitor and stops
where the visitor fails. `bytes`, `text`, `records`, `ordered`, `sorting`,
`unique_sort`, `text_map`, `calendar` and `digest` are the ground they stand on.

## Contracts

Every function states when it succeeds and what it returns, over byte strings,
records and mathematical counts. Artifacts are byte strings; files, databases
and distinct-count sketches stay outside, and what they yield comes in as plain
values or as a function to call.

Public proof functions state what holds across functions: encodings are read
back, tables and rankings are determined by their sources, completed builds pass
the revalidation that precedes publication, an incremental run only replaces the
run it was built from, a publication or an update that fails leaves what was
kept, and a repeated one adds nothing (`publish_laws`, `incremental_run`), a
stopped ranking is resumed to the same ranking (`publisher_resume`,
`ranking_run`), and rollups do not depend on the order of events (`rollup_laws`).

Taken without proof are the results of `sha2`, `hex`, `chrono` and `serde_json`
in `digest`, `calendar`, `publisher_state` and `relay_build`; each such function
says above it what is claimed.

## Layout

- `src/`: the library.
- `tests/`: its tests, one file for each product.
- `app/`: the command line around the library: catalog files, the DuckDB work
  database, the SQLite ranking ledger, the Postgres ledger and the JSON evidence.
