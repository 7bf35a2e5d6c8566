# Doritrack host

A phone acts as a touch controller for a rhythm game on a computer. The phone sends
snapshots of its touch surface over a USB tether or a USB accessory link; the host turns
them into key presses or injected touches, keeps the tether from becoming the way to the
internet, and records how well the link did.

`src/` is the host's logic as a Verus library. Its functions carry contracts that
Verus proves. `app/` is the program around it: sockets, USB, windows, files and the
system calls of the two operating systems. `tests/` runs the library on concrete values.

| Module | What it holds |
| --- | --- |
| `bytes`, `crc`, `text` | byte fields, checksums, numbers in text |
| `protocol` | the datagram frame, discovery, and the ordered delivery of frames |
| `v5` | the encrypted record layer: header, replay window, cipher, pairing code |
| `keyboard`, `touch`, `input` | from snapshots to key changes and touch contacts |
| `diagnostics`, `metrics` | events, their analysis, percentile bounds, the report |
| `network`, `usb` | who is heard, what is acknowledged, which endpoints are used |
| `tether` | which networks are tethers, and the reversible routing policy on them |
| `host`, `launcher`, `probe`, `credentials` | options, session and service decisions, settings, identity |

Calls into `blake2`, `chacha20poly1305`, `getrandom`, `snow` and `zeroize` stand behind
small functions marked `external_body` in `v5/crypto.rs`, `v5/cipher.rs` and
`credentials.rs`; two calls into std stand the same way in `text.rs`. Their doc comments say what is taken on trust. What needs floating point
(pixel coordinates, the warning budget in milliseconds) is in `app/`.
