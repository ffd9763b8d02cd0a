# tiny-webdav

A small, read-only WebDAV server, whose logic is verified with Verus. It speaks
plaintext HTTP and runs behind a front that terminates TLS: on standard input, as
stunnel and inetd start it, or on a Unix-domain socket of its own (`--listen`).

- `src/` is the library: every decision and every byte of an answer, with contracts
  that Verus checks. It does no I/O. What the filesystem says comes in as values
  (`safe::Probe`, `safe::Entry`, `dav::Facts`), and what is to be done goes out as
  values (`dav::Reply`, and the actions of `body`, `transfer`, `listener` and
  `privileges`).
- `app/` is the program around it: arguments, sockets, files, users and processes.
- `tests/` holds tests on concrete values.

| Module | What it is about |
|---|---|
| `dav` | the answer to a request |
| `safe`, `path`, `glob` | which paths are served, and hidden names |
| `listing`, `escape`, `mime`, `size` | the HTML index and the XML of PROPFIND |
| `conditional`, `range`, `date` | entity tags, dates, conditions and byte ranges |
| `http` | reading requests and writing responses |
| `auth`, `base64` | HTTP Basic authentication |
| `connection`, `listener`, `body`, `transfer` | keep-alive, concurrency, discarding bodies, sending files |
| `args`, `setup`, `privileges`, `socket`, `log` | starting up, confinement, logging |
| `text`, `bytes`, `number`, `seqs` | text, bytes and numbers |

Laws that relate several functions are public proof functions whose names begin with
`law_`. Of std, four things are taken on trust: `String::push`,
`String::from_utf8`, `String::from_utf8_lossy` and the `Debug` of `str`; see `text`
and `log`.
