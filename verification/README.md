# studymood

The StudyMood backend: a web service for study sessions (to-dos, streaks,
accounts) that also streams the user's music collection.

- `src/` is the verified library (Verus): bearer-token extraction, byte-range
  planning for streaming, decimal parsing and printing, the music catalogue,
  streak bookkeeping, to-do updates, password checks and the verification
  e-mail text.
- `app/` is the actix-web server around it: routes, database access (sea-orm),
  JWT encoding and decoding, e-mail delivery, directory scanning.
- `tests/` runs the library on concrete inputs.

The catalogue (`music::TrackMap`) keeps its tracks in a `Vec` with distinct
paths rather than a `HashMap<String, _>`, whose contents carry no
specification that lookups and updates could be proved against.

Verification tokens are made by `auth::verification_token` from bytes of the
operating system's random source, which the server draws with `getrandom`.
The server declares the `streaks` table itself, in `app/api/entities.rs`.
