# dungeonrs

The verified core of the DungeonRS map editor, written in Verus.

- `src/` is the library. Its functions are verified, except three small
  trusted wrappers that make one outside call each (`blake3::hash`,
  `String::push`, `String::from_utf8_lossy`) and whose contracts are assumed.
  - `library`: the asset library, a device-wide registry of asset packs
    (registration, loading, lookup, export and rebuild for persistence).
  - `packs`: asset packs and how a new one gets its identifier and name.
  - `keyed`: the insertion-ordered map from text keys that both registries use.
  - `paths`: file names and joining of paths, held as the bytes of the OS
    path and read by the Unix or the Windows rules of `std::path`, as the
    caller says (the application passes its platform).
  - `hashing`: BLAKE3 content identifiers in lowercase hexadecimal.
  - `crash`: the texts of the crash dialog and the crash report.
  - `element`, `events`, `plugins`: map elements, save requests, plugin markers.
  - `text`: decimal notation, lossy UTF-8 decoding and small builders.
- `app/` is the editor program around it: Bevy plugins and components, reading
  and writing the library file as TOML, directory lookup, and the panic hook.
- `tests/` exercises the library on concrete values.
