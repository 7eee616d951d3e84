# justupload

Temporary file sharing for the terminal, with the decisions of the service
verified by Verus.

- `src/` is the library: who may upload and how much, which name and id a file
  gets, what is stored and for how long, what each request is answered. Every
  function states what it does, and `src/laws.rs` proves what holds of the
  service as a whole: a file is sent at most once and never an hour after it was
  stored, and in no hour is a client charged more than the quota.
- `app/` is the server around it: sockets, files, timers and the environment.
- `tests/` runs the library against a disk in memory.

| limit | value |
| --- | --- |
| max file size | 10 MB |
| retention | until first download, max 1 hour |
| upload quota | 30 MB per hour per IP |

The server reads `PORT` (8080), `UPLOAD_DIR` (`/tmp/justupload`), `BASE_URL`
(taken from the request) and `RUST_LOG` (`info`).
