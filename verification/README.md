# hack_api

A small feedback-submission web service: clients upload files, create
submissions (title, description, category, priority, tags, optional file)
and list them with filters, search and paging.

- `src/` is the library, written in Verus and verified: text utilities
  (`text`), domain values (`model`), identifiers and the clock (`ids`),
  error answers (`errors`), request validation (`validate`), uploads and
  the upload index (`uploads`), listing (`listing`), start-up settings and
  health (`config`), and the in-memory submission list (`store`).
- `app/` is the HTTP server (axum, PostgreSQL through sqlx, S3/MinIO
  through the AWS SDK) that reads the environment, performs all I/O, and
  hands plain values to the library.
- `tests/` exercise the library on concrete inputs.
