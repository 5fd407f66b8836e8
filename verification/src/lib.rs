//! Verified core of a Haskell binding generator for UniFFI components:
//! the naming rules for generated modules, the normalisation of
//! borrowed-bytes arguments in the FFI model, and the choice of the native
//! library that a generated Cabal package links against.

pub mod ffi;
pub mod names;
pub mod native_library;
pub mod normalize;
