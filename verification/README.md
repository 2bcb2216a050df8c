# MinimaMemosa

A small self-hosted note-taking web service: notes in Markdown with hashtags,
a day-by-day timeline, a month calendar, uploaded files, and notes shared
publicly or behind a password.

## Layout

- `src/` — the library, verified with Verus:
  - `chars.rs`, `num.rs` — character sequences, trimming, searching,
    decimal and hexadecimal text;
  - `content.rs` — HTML stripping, titles, hashtags, first image, file sizes;
  - `auth.rs` — signed session, captcha and note-access tokens; passwords;
  - `request.rs` — client address, cookies, who may see a note or a file;
  - `calendar.rs` — the month grid, relative times, day labels;
  - `db.rs` — the SQLite store;
  - `attachments.rs` — links to uploaded files inside a note;
  - `timeline.rs` — notes grouped by day;
  - `forms.rs`, `pages.rs` — what each page decides and fetches;
  - `render.rs` — Markdown to HTML, the sign-up captcha.
- `tests/` — tests of the library.
- `app/` — the web server (axum): routes, forms, files on disk, templates.
- `extras/templates/` — the page templates (minijinja).

## Running

The server reads `SESSION_SECRET` (the key of the signed cookies),
`DATABASE_PATH` (default `data/minimamemosa.db`; uploads go to `resources/`
beside it), `TEMPLATES_DIR` (default `extras/templates`) and `PORT`
(default 3000), and serves `static/` under `/static`.
