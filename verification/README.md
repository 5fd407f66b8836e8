# uniffi_haskell

Verified core of a Haskell binding generator for UniFFI components.

- `src/names.rs`: the UpperCamelCase module segment of a namespace, the
  sanitised C stem, and the names of the public and internal Haskell modules.
- `src/ffi.rs`: the part of a component's FFI that the normalisation reads and
  writes, with mathematical views and comparison by view.
- `src/normalize.rs`: borrowed `&[u8]` arguments crossing the FFI as foreign
  bytes, with its laws (idempotence, the definitions staying a set, what
  changes and what does not).
- `src/native_library.rs`: the native library a Cabal package links against.
- `app/`: the command line, loading the metadata through `uniffi_bindgen`,
  and the conversion between `uniffi_bindgen`'s IR and the library's model.
