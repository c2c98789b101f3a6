# parse_message

The logic of an Obsidian plugin that clips the web pages posted in a Discord channel
and saves them as Markdown files, written in Verus: each public function carries a
contract, and Verus proves the code against it.

## Layout

- `src/text.rs`: character helpers (copying, comparing, decimal digits).
- `src/domain.rs`: JavaScript-style trimming and path-segment cleanup.
  - `domain/models.rs`: settings, Discord messages and results as plain types.
  - `domain/settings.rs`: defaults, migration of stored settings, normalization,
    sync snapshots and the settings-screen controls, over `domain/json.rs`, a JSON value
    type of the library's own.
  - `domain/channels.rs`: channel-name validation, folder names and duplicate detection
    under Unicode NFC and lower case.
  - `domain/dates.rs`: local date and time of a Discord timestamp in an IANA zone.
  - `domain/messages.rs`: URL extraction, author names and file-name suffixes.
  - `domain/storage.rs`: the plan of files to write, deduplicated by message id.
  - `domain/headers.rs`: the rate-limit headers kept from an HTTP response.
  - `domain/discord.rs`: the API version and page size of Discord requests.
- `src/html_to_markdown.rs` and `src/html_to_markdown/`: HTML to Markdown with YAML
  front matter (`title`, `source`, `date`, `tags`) and title extraction.
- `tests/`: tests of the library.
- `app/`: the WebAssembly bindings, the serde copies of the types and the conversion of
  JSON values; no logic of its own.

## Outside crates

The library calls `unicode-normalization`, `chrono`, `chrono-tz` and `html5ever` through a
few wrappers whose contracts are trusted, each documented where it stands: Unicode
normalization and lower-casing, date parsing and time-zone offsets, and HTML parsing.
Public laws (proof functions named `law_*`) state what holds across calls, such as
normalization being idempotent or a storage plan skipping the messages already saved.

## Collections

Sets and maps keyed by text are held in `Vec`s, with what the set or map guaranteed written
as an invariant and proved. Verus's specifications of `HashSet` and `BTreeMap` rest on keys
whose equality and hashing or ordering it knows; with `String` keys the plain uses tried were
accepted but let nothing about the contents be proved, so no contract could rest on them.

- The seen folder names in `duplicate_path`, the seen channel ids in `normalize` and
  `configured_indices`, and the saved message ids in `plan` are `Vec<String>`s in which no
  value occurs twice, kept in the order in which they were first seen.
- The rate-limit headers of `rate_limit_headers` are a `Vec<(String, String)>` in which each
  name occurs once, in ascending order of name (the order of `Ord` on strings, which a
  `BTreeMap` keyed by name would give); `domain::headers::names_ascending` states it.
