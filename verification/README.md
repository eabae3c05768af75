# komga_api

The decision logic of the HTTP API of a comic and book server, verified with Verus: what a request
is answered, what a search asks for, how feeds and sync answers are put together, how reading
progress is placed, and which requests are refused with which error.

- `src/` is the verified library. Each module belongs to one part of the API (`kobo`, `koreader`,
  `opds_v1`, `opds_v2`, `libraries`, `oauth2`, ...) or is shared by several (`text`, `url`,
  `search`, `sorting`, `datetime`, `error`). Contracts speak of views: a text is a `Seq<char>`, a
  type `Xyz` of the API has a `XyzView` of its texts.
- `app/` is the server around it: routes, storage, sessions, clocks, files and the network.
- `tests/` runs the library on concrete values.

What is believed without proof is marked `#[verifier::external_body]`: calls into `base64`,
`bcrypt`, `flate2`, `image`, `moka`, `serde_json`, `uuid` and std. Each such function says in its doc
comment what it claims of the call.
