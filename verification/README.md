# aravis-camera

A GigE Vision industrial camera library over Aravis, with a verified core.

- `src/` — the verified library (Verus): Bayer pattern detection, contiguous
  8-bit Bayer planes for demosaicing (row padding removed, 10/12/16-bit samples
  shifted and clamped), frame construction and conversion to RGB24, IPv4
  address text conversion with its round-trip laws, pixel-format selection,
  retry back-off and reconnection decisions, and the collection of
  multi-camera results.
- `app/` — the camera driver calls (Aravis), demosaicing (OpenCV `cvtColor`),
  threads, sleeping and sockets, running the loops the library decides.
- `tests/` — tests of the library.
