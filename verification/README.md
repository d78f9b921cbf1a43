# hotline

The Hotline protocol as a verified library: the wire format, the requests and replies of a client,
the file transfer containers, and the Macintosh metadata that travels with a file.

`src/` is the library. Every function states what it returns in its contract, and Verus proves it.

| module | what it holds |
| --- | --- |
| `bytes`, `wire` | big-endian numbers, data chunks, and the walk over a message |
| `text`, `sanitize`, `emoji` | UTF-8, control bytes in text, emoji and their shortcodes |
| `messages`, `dispatch`, `login`, `user_change`, `hl_date` | opcodes and field tags, and what a client decides on receipt |
| `outgoing`, `ffi` | chunks to be sent, and an interface of flat functions |
| `voice`, `video`, `inline_media`, `gif_icons` | protocol extensions |
| `xfer` | preambles, file objects, resume records and resume digests |
| `suffix`, `hfs` | types and creators, and the sidecar files that hold Finder metadata and resource forks |

`app/` reads and writes the sidecar files, and offers the library to callers in C. `tests/` runs the
library on concrete values.

What is trusted, and not proved, is marked in `text.rs` (four functions of the standard library) and
in `xfer/resume_digest.rs` (SHA-256).
