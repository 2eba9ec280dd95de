# tagsyd

The core of a daemon that keeps a catalog of tagged files in sync between devices, verified with
[Verus](https://github.com/verus-lang/verus).

- `src/store`: the catalog. Files, their version histories, tags, the relationships between them,
  cached previews and purges, each under last-writer-wins clocks; searching, short ids, and the
  index of a sync directory.
- `src/peer`: talking to peers. Handshakes, dialling, reconciling manifests, the session with a
  peer, the relays that pass chunks and previews on, and the transfer of content in chunks.
- `src/preview`: deciding what a preview of a file shows.
- `app`: the daemon around it. SQLite, sockets, files, timers and renderers.
- `tests`: what the library does on concrete values.

Functions in `src` state what they return or change, and Verus proves it; what the clock shows,
what chance brings and which pixels a decoder makes of a photo is left open. Proof functions named `law_*` state what holds of several functions
together: that two devices which take in what the other announces agree on the path of a file, on
whether a file that both hold the same content of is live, on whether a tag is live and how a live
tag is defined, and on a relationship, unless changes were made at the very same time; that a plan
once applied is not planned again; that a receive takes in its content whatever the order of the
chunks, and completes only with the content it was asked for; that a known file is served without
being hashed again; that pulls start once each, in order, and never too many at a time.

Functions marked `external_body` call outside crates; what their contracts claim is not proved
but read off those crates.
