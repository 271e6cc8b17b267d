# niceview_lib

Display handling for a split keyboard with a nice!view (Sharp memory LCD) screen,
verified with Verus.

- `src/` is the verified library: the packed frame buffer of the display and the
  bytes a flush sends (`nice_view`), the display trait with its circle drawing
  (`display`), an in-memory display (`virtual_display`), bitmap images and their
  iteration (`image`, `icons`), a 5x7 glyph table (`text_db`), the text drawing
  target (`typography`), the XBM parser behind the icon generator (`xbm`,
  `text_parse`, `image_modules`), the battery autorange decisions (`battery`), the
  HID descriptor and GATT read handlers (`hid`), the BLE advertising data (`ble`)
  and random-word helpers (`rng`).
- `app/` is the icon generator program (file I/O, token generation, rustfmt), the
  embedded-graphics draw target adapter and the floating-point battery arithmetic.
- `tests/` runs the library on concrete values.
