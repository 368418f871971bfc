# keyence_suite

Verified core of the Keyence SR-750 tool set: the collector-to-processor frame
protocol, the BMP processing that outlines the detected code in green, the
decoder used by the viewer window, the parsing of SR-750 image names and the
configuration and command text of the command sender.

- `src/` is the library, written in Verus; every function carries a contract.
  - `protocol` – length-prefixed frames and the protocol version frame.
  - `bytes` – big- and little-endian integers as bytes.
  - `canvas`, `draw`, `bmp` – the 376 x 240 canvas, the line walk, the
    quadrilateral outline and BMP encoding.
  - `viewer` – BMP decoding for the viewer.
  - `filename` – image names `readdata:matchinglevel|x1-y1_..._x4-y4.BMP`.
  - `sender` – `key=value` configuration and the command text.
  - `text` – characters, decimal numbers, splitting and trimming.
- `tests/` exercises the library on concrete values.
- `app/` holds the programs around it (`bmp_processor`, `bmp_gui`,
  `sr_sender`): sockets, files, the window, and reading the coordinate
  numbers as `f32`.
