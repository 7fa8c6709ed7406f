# downloader

A multi-connection HTTP downloader. The library (`src/`) is verified with
Verus; the program around it (`app/`) does the network and disk I/O.

- `plan`: splits a file of known size into one byte range per connection,
  as evenly as possible, and proves that the ranges cover the file once.
- `headers`: reads `content-length` and `accept-ranges`, writes `Range`.
- `progress`: the progress book of the running connections and the window
  of speed samples.
- `speed_limit`, `retry`, `transfer`, `reporter`: the decisions taken while
  a range is fetched and while progress is shown.
- `checksum`: the SHA-256 checksum of the finished file (hashing by the
  `sha2` crate, hex encoding verified).
- `config`, `task`: the configuration and the byte-range task.
