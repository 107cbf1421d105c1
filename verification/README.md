# esp_bundle

Firmware bundles for Espressif chips, verified with Verus. A bundle says which image
goes to which partition of the flash memory and which eFuses are burned. It is made
from a ZIP archive, from a binary or an ELF app image, or from its parts, and bundles
can be added to each other.

- `src/` is the verified library. `bundle`, `assemble`, `create`, `unpack` and `merge`
  hold what bundles do; `chip`, `image`, `partition`, `efuse`, `payload`, `loader` and
  `fault` what they are made of; `table`, `table_text` and `archive` what is read
  through `esp-idf-part` and `zip`; `tools` what is asked of the flashing tools;
  `laws`, `zip_laws` and `efuse_laws` what holds of all of it.
- `app/` is ordinary Rust around the library: streams, TOML, and the flashing tools of
  `espflash`.
- `tests/` runs the library with the outside crates linked.
