# content_paulmcbride_com

The content API of paulmcbride.com, with its logic verified by Verus.

- `src/` is the verified library: configuration from environment values,
  the markdown content collections (posts, notes with their threads and
  pages of threads, now entries, pages), the Mastodon import (HTML to text,
  YAML front matter, file names, what to fetch and what to import), the
  media mirror's keys, URLs and configuration, and what the HTTP API
  answers. Calls into chrono, gray_matter, itertools, url (through reqwest)
  and mime_guess stand behind small trusted wrappers whose contracts say
  what the library relies on.
- `app/` is the program around it: reading directories and environment
  variables, the axum server, the Mastodon API requests, the S3 uploads,
  and the serde copies of the library's types.
- `tests/` runs the library on concrete values.

Run the server with `app`; import statuses with
`app sync-mastodon [--write] [--full]`.
