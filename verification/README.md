# gatefold

The logic of a Spotify client, verified with Verus: the playback queue and the
player's decisions, lyrics (LRC, TTML, Spotify's and LRCLIB's formats, timing and
romanization), local search ranking, metadata and search results, playlist
descriptions, the web player's persisted queries, image cache keys, token and
retry policies, and what the pages show.

- `src/` is the library. Verus verifies all of it, against the contracts of its public
  functions and of most private ones; the few
  calls into other crates (`quick-xml`, `nucleo-matcher`, `kakasi`, `deunicode`,
  `unicode-script`, `rand`, `url`, `serde_json`) and into std stand behind small
  wrappers whose contracts say what those crates promise. The `law_*` proof
  functions state properties that span functions.
- `tests/` runs the library on concrete values.
- `app/` is the program around it: files, JSON and YAML, and the audio clock.
