# scheme_handler

A handler for `ush://<app>?<payload>` links: the payload is base64 text of a
gzip stream holding a command line, and the link starts the program that the
user configured under `<app>` with that command line. A link with the query
part `needServer=1` instead starts a local HTTP bridge (the same program,
run with `--bridge-server`), which keeps m3u8 playlists in memory and serves
them to a player.

Layout:

- `src/` is the library, verified with Verus:
  - `url.rs`, `payload.rs`, `config.rs`: parsing a link, decoding its payload,
    and resolving it against the configuration;
  - `launch.rs`: the process to start on each platform, and the program's
    other start-up decisions;
  - `bridge/`: the bridge's request reading, answers, identifiers and the
    playlist cache with its expiry and size limit;
  - `platform/`: the texts that registering the scheme writes;
  - `text.rs`, `error.rs`: shared helpers and the error type.
- `app/` is the program around it: files, processes, sockets, threads,
  dialogs and the settings window.
- `tests/` runs the library on concrete inputs.
