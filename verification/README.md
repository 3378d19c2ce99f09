# Ferrite

Use an Android tablet as an external display and pen tablet for a Linux host. The host captures a real
or a virtual screen, encodes it as H.264 and streams it to the tablet; the tablet returns touch and pen
input, which the host turns into events of two virtual input devices.

The library under `src/` holds the logic and is verified with Verus. The programs under `app/` are
ordinary Rust around it: sockets, USB, PipeWire, `/dev/uinput`, the tray and the control panel.

## Library

| Module | What it is about |
|---|---|
| `message`, `wire`, `bytes` | The messages and their encoding |
| `frame` | The preamble of a session and the length prefix of a frame |
| `annexb` | Cutting an H.264 stream into access units |
| `capture`, `pixels`, `idle` | Captured frames: what is asked for, packing, skipping repeats |
| `edid`, `evdi` | Virtual monitors |
| `touch`, `pen`, `input` | The virtual touchscreen and pen tablet |
| `session` | The host's settings, its clients, and the course of a session |
| `encoder` | The command line of the encoder |
| `client` | The tablet's side of the protocol |
| `aoa`, `echo`, `transfer` | The accessory transport and its two tests |
| `cosmic`, `drm`, `paths` | The compositor's configuration, connectors, files |
| `panel`, `qr`, `tray` | The control panel and the tray |
| `text` | Text helpers |

What a function does is stated in its `ensures`, over the spec functions next to it. What holds of
several functions together is stated in public proof functions, such as
`client::first_message_survives_stale`, `aoa::bridge_loses_nothing` or
`touch::open_contacts_are_last_snapshot`.

Coordinates and pressure are floating-point numbers on the wire. The library carries them as bit
patterns; `app/uinput.rs` scales them to the axes of the devices.
