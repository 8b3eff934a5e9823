# serve

A static site server (`serve` on the command line) whose request handling is
verified with Verus.

- `src/` is the library. It decides how each request is answered:
  - `handler` — the routing rules of the configuration: ignored paths, Basic
    authentication, custom headers, redirects, clean URLs, trailing slashes
    and rewrites;
  - `resolve` — serving the routed path from the file system as a state
    machine that asks its caller one question at a time (exists? directory?
    symlink? entries? bytes?) and ends in the reply, with ETags, Range
    requests and the single page application fallback;
  - `listing` — the directory index page: which entries, in which order;
  - `config`, `cli`, `banner` — the configuration model and the file it is
    read from, the command line, the start banner;
  - `patterns`, `headers`, `content`, `auth`, `ranges`, `text` — globs,
    header validity, media types and ETags, credentials, byte ranges, and
    string helpers.
- `app/` is the program around it: argument parsing, reading configuration
  files, the HTTP server, and the file system answers to the library's
  questions.
- `tests/` runs the library on concrete requests against a fake file system.
