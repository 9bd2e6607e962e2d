# freeflight

Aeronautical data for a flight-planning tool: decoders for the FAA CIFP
(ARINC 424) and NASR files, the AIXM 4.5 snapshots of European AIS
offices and openAIP's JSON, the AIRAC cycle calendar, chart naming and
catalogue rules, flight-track phase segmentation, and the small state
machines behind the NOTAM and openAIP clients.

## Layout

- `src/` is the library, written in Verus. Every function carries a
  contract over a mathematical model (sequences of characters, integers,
  the views of the domain types) and is proved against it. Coordinates
  are held in milliarcseconds, headings and courses in millidegrees,
  frequencies in kHz, times in milliseconds, so that the decoding rules
  can be stated and proved exactly.
  - `domain` — the shared data model (airports, runways, navaids,
    airways, airspace, procedures).
  - `cifp`, `nasr`, `aixm`, `openaip` — one module per source format.
  - `cycle`, `vocabulary`, `charts`, `mbtiles` — the AIRAC calendar,
    chart names and slugs, chart coverage, tile-set metadata.
  - `postflight`, `planning`, `accounts`, `notam` — track phases and
    summaries, performance tables, stored identifiers, token caching.
  - `text`, `decimal`, `sorting` — the character, decimal-number and
    ordering toolkit the decoders share.
- Calls into other crates (chrono, sha2, quick-xml, pmtiles2) go through
  small trusted wrappers in `src/`, each with a doc comment saying what
  its contract claims of the outside function.
- `app/` is plain Rust around the library: HTTP and database access,
  file formats read through other crates, serde copies of library types,
  and the planning and track arithmetic done in floating point.
- `tests/` exercises the library on concrete inputs, including real
  records from each source.
