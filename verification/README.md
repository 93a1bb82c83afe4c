# sbmm

A mod manager for Stellar Blade, with its core written in Verus.

- `src/` is the verified library: archive detection and install planning,
  the `.pak`/`.utoc` directory readers, PE version resources, Steam `.vdf`
  and Epic manifest parsing, load-order naming, the UE4SS `mods.txt` rules,
  deployment manifests, asset conflicts, the Nexus download queue, `nxm://`
  links, collection manifests, GraphQL replies, rate-limit backoff and the
  upscaler catalog. Every function there carries a contract that Verus
  proves, except a handful of small trusted wrappers around std and
  serde_json calls (in `text`, `bytes` and `json`), whose contracts
  are taken on trust, and the two JSON tree converters inside them, which
  have none. The `law_*` proof functions state properties that span several
  calls.
- `app/` is the command-line program around the library: files, archives,
  the SQLite store, hard-link deployment, the OS key store, HTTP and
  Discord. It hands plain values to the library and acts on what comes
  back.
- `tests/` runs the library on concrete inputs.
