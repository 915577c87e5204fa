# rustdesk (client input and display logic, verified)

A Verus library with the decision logic of a remote-desktop client:

- `modifier_remap` — which peer modifier each local modifier key sends
  (side preserved, AltGr never touched), for keys, wire control keys and the
  held-modifier state.
- `remap_option`, `json_text` — the stored `modifier-remap` option: parsing
  it (never fails), merging one OS entry into it, seeding the retired swap
  setting, and the parsed-maps cache. JSON is read and written by
  serde_json; the merge is proved to read back exactly what it wrote
  whenever the stored OS names are already their own lowercase (always so
  for ASCII names).
- `display_info`, `retina_shim`, `display_park` — compensation for a macOS
  host's per-connection Retina shim: converting logical points to the
  info-space coordinates the shim maps back exactly, reading cursor reports
  back, finding the display under a point, and parking on a scale-1 display.
- `frame_slot`, `quartz` — the single-frame mailbox between a capture
  callback and its consumer, and the platform-independent part of the macOS
  capturer.

`app/` holds the glue the library cannot hold: the local config, the rdev
and wire-protocol key types, and the protocol's float display scale.
