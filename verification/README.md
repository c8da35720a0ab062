# larql_cache

Finds, fetches and removes cached vindexes. A vindex is a directory that holds
`index.json`; it lives in the HuggingFace hub cache
(`models--<owner>--<name>/snapshots/<sha>/`) or in the LARQL local cache
(`<name>.vindex/`).

`src/` is a Verus library. It decides; it reads no disk and opens no connection.
What a directory holds, what the hub answered and what the user typed come in as
plain values, and what is to be done next goes out as one. The modules:

- `text`, `path`: text and path primitives over sequences of characters
- `entry`, `error`: a cached vindex, and what can go wrong, with its wording
- `order`: the stable order in which vindexes are listed
- `dirs`: where the caches lie, by the environment
- `scan`: which vindexes the caches hold
- `resolve`: what a name given by the user stands for
- `rm_cmd`: the steps of `larql rm`
- `hub`: `hf://` paths, the hub's addresses, and what its answers say
- `download`: what is cached already, which files to fetch, and in which steps
- `trusted`: what is taken on trust from `hf_hub`, `reqwest`,
  `serde_json` and `std`

Public proof functions named `law_*` state what holds across functions.

`app/` is ordinary Rust around the library: it reads the disk, talks to the hub,
asks the user, and carries out the steps that the library names.
