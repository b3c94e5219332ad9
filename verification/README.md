# maddo

A client for the Indonesia Stock Exchange's listed-company disclosure feed
("Keterbukaan Informasi"): list announcements by ticker, keyword, type or date,
download their attachments, watch the feed for new ones, or browse it through a
small local web page.

## Layout

- `src/` is the library, verified with Verus. It holds everything the program
  decides: the API query and the browser-side scripts (`api`, `script`), which
  files to download, under which names and in which batches, and how the browser
  transport's answers are read (`download`), the command line's filters, dates and
  page walk (`filters`), what the watch reports and remembers (`watch`), the local
  server's request reading, routing, query decoding, proxy guard and the status and
  content type each request is answered with (`server`),
  the HTTP client's pacing, retries, fingerprint scan (browser fingerprints only) and
  saved pool (`http`), and the wait for
  the browser tab (`browser`). Calls into serde_json, base64 and chrono stand
  behind small trusted wrappers whose contracts are documented where they are
  declared.
- `app/` is the program around it: command-line parsing, the network transports,
  files, the terminal, and the server's sockets.
- `tests/` runs the library on concrete values.
