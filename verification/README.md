# anthelion

Analysis of Windows installers, and updates of their manifests for a package manager.

- `src/` is the library. It decides and computes: which installers a download holds, what an
  InstallShield installer says of itself, what a YAML document means, which version an update
  creates and how installers of two versions are merged. Every function has a contract, which
  Verus proves. The functions marked `external_body` call other crates; the comment above each
  says what is believed of the call.
- `app/` does what the library cannot: files, the network, the terminal, JavaScript values.
- `tests/` runs the library with the other crates.

The modules of the library:

| module | subject |
| --- | --- |
| `yaml` | YAML documents, and the places of their faults |
| `installshield` | InstallShield installers |
| `analyzer`, `download`, `artifact`, `source`, `unique` | files, downloads and their analyses |
| `selector`, `versions`, `update`, `merge` | updates of packages |
| `token`, `pull_request`, `command` | decisions of the services around the library |
| `markdown` | release notes as plain text |
| `manifest`, `types`, `error`, `winget` | the data that the others share |
| `text`, `search`, `number`, `time` | texts, numbers, dates and moments |
