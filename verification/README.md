# remote_viewer_host

The host side of a view-only LAN desktop streaming service, as a Verus-verified
library with an unverified shell around it.

- `src/protocol.rs`: the framed wire protocol (6-byte header, 16 MiB limit),
  frame payloads and the checks the service applies to the capture agent's frames.
- `src/snapshots.rs`: the encrypted screenshot archive: Argon2id key derivation,
  AES-256-GCM sealing, archive file names, listing and the quota-driven eviction plan.
- `src/session.rs`: the service's decisions: viewer and agent authentication,
  viewer requests, agent control messages and the per-viewer frame feed.
- `src/config.rs`, `src/paths.rs`: configuration, the installer's settings file and
  the data paths.
- `src/capture.rs`: the BGRA-to-RGB conversion and JPEG encoding of captured frames.
- `src/text.rs`: character-level helpers (trimming, decimal and hexadecimal text).
- `app/`: file system, sockets, threads, the Windows service, the capture agent and
  DPAPI key protection; screen capture, frame pacing and thread coordination stay there.
