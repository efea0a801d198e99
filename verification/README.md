# crustgraver

Host software for NEJE laser engravers of the KZ 3000 family, with its logic
verified in Verus.

- `src/` is the verified library:
  - `protocol` builds the packets that the host sends and parses the device's replies;
  - `raster` holds a picture as plain values (size, RGBA pixels, grayscale plane),
    thresholds it and encodes it as the escaped 1-bit raster that the device burns;
  - `framing` cuts the byte stream from the device into packets;
  - `device` holds what the host knows of the device and how commands and replies change it;
  - `job` prepares the header and payload of an image job;
  - `panel` holds the display rules of the control panel.
- `app/` is the program around it: loading images with the `image` crate and turning
  them into pictures, the serial port and its reader thread, the engraver handle that
  writes what the library prepares, and the egui control panel.
- `tests/` runs the library on concrete values.
