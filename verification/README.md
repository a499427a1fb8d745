# ble_kdb_rs

Firmware logic for a split Bluetooth keyboard on ESP32-C3 boards, with its
behaviour stated as Verus contracts and proved.

- `src/` is the verified library: keys and their HID usage codes, key
  combinations, layers and key maps, the keyboard that picks the layer the
  held modifiers select, HID report building, the scan of a GPIO key matrix,
  the joining of the two halves' positions, and the byte format in which one
  half notifies the other.
- `tests/` runs the library on concrete values.
- `app/` is the firmware around it for the half that notifies its positions:
  GPIO pin drivers and the Bluetooth LE link (ESP-IDF and NimBLE), which
  build only for the ESP32 target.
