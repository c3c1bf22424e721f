# flyingv

A small static site generator. Content files (Markdown or HTML, each starting
with `KEY: VALUE` frontmatter lines and a blank line) are rendered with the
views of a theme. The first line of a view names, as a quoted glob, the
content paths it renders; a view may hold custom loops,
`{% for post in "blog/*" %}`, over the pages that another glob matches,
newest first.

Layout:

- `src/` — the verified library (Verus): text handling, frontmatter and view
  parsing, the choice of content and theme files, the rendering plan, the
  paths of built files, the preview server's decisions and the watcher's
  reaction to events. `src/outside.rs` holds the trusted calls into globset,
  regex, pulldown-cmark, chrono and `std::path`; `src/glob.rs` builds a
  glob's matcher from them (globset's regular expression, matched on bytes).
- `app/` — the `flyingv` command (`build`, `watch`): environment, file
  system, Tera rendering, the HTTP server and the file watcher.
- `tests/` — tests of the library.

Settings come from the environment or a `.env` file: `BUILD_PATH`,
`CONTENT_PATH`, `SITE_NAME`, `THEME_PATH`, and `UTC_OFFSET` (such as
`+0100`), which is read only when a page has a `datetime` line.
