# atk68

Offline configuration for ATK / VXE magnetic-switch keyboards (the gtech
controller of the ATK68 family) over the keyboard's vendor HID interface.
Settings go to the keyboard's RAM; flash is never written.

The library in `src/` is verified with Verus: every public function carries a
contract over spec functions and views, and `src/laws.rs` proves the
properties that span several functions.

- `src/device.rs` — configuration-interface detection, the model table,
  request frames, reply matching (`ReplyWait`), reply decoding, request
  builders, debug hex parsing and dumps. Command ids are in `src/device/op.rs`.
- `src/light.rs`, `src/actuation.rs`, `src/tweaks.rs` — one module per
  setting: its value, the request that reads it, the decoding of the reply,
  the request that writes it, and how it is shown.
- `src/config.rs` — `key = value` profiles: the exported text of a
  configuration, how a profile text overrides settings, and the writes that
  push a configuration back.
- `src/i18n.rs` — English, Korean, Japanese and Chinese texts.
- `src/text.rs` — the character-level text handling the parsers use
  (trimming, splitting, lines, integer parsing and rendering).
- `src/laws.rs` — export/apply round trip, read-back of every written
  setting, frame layout, toggles written only when named, no flash writes,
  and applying a profile twice being the same as applying it once.

`app/` is the command-line tool around the library: argument handling,
HID I/O through `hidapi`, files, the environment, and the floating-point
millimetre conversion of user input.

Millimetre values are kept as raw travel units together with the model's
travel step in hundredths of a millimetre, so rendering them is exact
integer arithmetic: a profile writes as many decimals as the step needs
(`1.5` at 0.1 mm, `0.06` at 0.02 mm), and every exported value reads back
as the raw value it came from.
