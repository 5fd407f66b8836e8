//! The native library that a generated Cabal package links against.

use vstd::prelude::*;

verus! {

/// What camino's `Utf8Path::file_stem` returns for the path `path`.
pub uninterp spec fn utf8_path_file_stem(path: Seq<char>) -> Option<Seq<char>>;

/// Calls camino's `Utf8Path::file_stem` on `path` and copies out the stem.
///
/// Trusted: the result is the one that `Utf8Path::file_stem` gives, by the name
/// `utf8_path_file_stem`. Camino documents the stem as the file name without its
/// last extension, and `None` where the path has no file name; that rule is
/// left to the name.
#[verifier::external_body]
fn file_stem(path: &str) -> (stem: Option<String>)
    ensures
        match stem {
            Some(s) => utf8_path_file_stem(path@) == Some(s@),
            None => utf8_path_file_stem(path@) is None,
        },
{
    match camino::Utf8Path::new(path).file_stem() {
        Some(s) => Some(s.to_owned()),
        None => None,
    }
}

/// Why no native library name could be inferred.
#[derive(Clone, Copy, PartialEq, Eq, Structural, Debug)]
pub enum NativeLibraryError {
    /// The library path has no file name.
    NoFileName,
}

impl NativeLibraryError {
    /// The message that describes the error.
    pub fn message(&self) -> (text: &'static str)
        ensures
            text@ == "--library path has no file name"@,
    {
        match self {
            NativeLibraryError::NoFileName => "--library path has no file name",
        }
    }
}

/// `s` without a leading `lib`, if it has one.
pub open spec fn strip_lib_prefix(s: Seq<char>) -> Seq<char> {
    if s.len() >= 3 && s[0] == 'l' && s[1] == 'i' && s[2] == 'b' {
        s.skip(3)
    } else {
        s
    }
}

/// The linker name of a library whose file stem is `stem`: `libmy_crate`
/// links as `my_crate`; a stem without the `lib` prefix is kept whole.
pub fn native_library_from_stem(stem: &str) -> (name: String)
    ensures
        name@ == strip_lib_prefix(stem@),
{
    let n = stem.unicode_len();
    if n >= 3 && stem.get_char(0) == 'l' && stem.get_char(1) == 'i' && stem.get_char(2) == 'b' {
        let rest = stem.substring_char(3, n);
        proof {
            assert(stem@.subrange(3, n as int) =~= stem@.skip(3));
        }
        rest.to_owned()
    } else {
        stem.to_owned()
    }
}

/// Infers the linker name of the native library from the path of the built
/// library: its file stem without a leading `lib`.
pub fn infer_native_library(library: &str) -> (name: Result<String, NativeLibraryError>)
    ensures
        match utf8_path_file_stem(library@) {
            Some(stem) => name matches Ok(n) && n@ == strip_lib_prefix(stem),
            None => name == Err::<String, NativeLibraryError>(NativeLibraryError::NoFileName),
        },
{
    match file_stem(library) {
        Some(stem) => Ok(native_library_from_stem(stem.as_str())),
        None => Err(NativeLibraryError::NoFileName),
    }
}

/// The native library a Cabal package links against: the one named
/// explicitly if there is one, else the one inferred from the library path.
pub fn native_library(explicit: Option<String>, library: &str) -> (name: Result<
    String,
    NativeLibraryError,
>)
    ensures
        match explicit {
            Some(e) => name matches Ok(n) && n@ == e@,
            None => match utf8_path_file_stem(library@) {
                Some(stem) => name matches Ok(n) && n@ == strip_lib_prefix(stem),
                None => name == Err::<String, NativeLibraryError>(NativeLibraryError::NoFileName),
            },
        },
{
    match explicit {
        Some(e) => Ok(e),
        None => infer_native_library(library),
    }
}

/// A stem that starts with `lib` links as the rest of it, whatever its
/// length; a stem that does not start with `lib` is kept whole.
pub proof fn lemma_lib_prefix_is_stripped_once(rest: Seq<char>, stem: Seq<char>)
    ensures
        strip_lib_prefix(seq!['l', 'i', 'b'] + rest) == rest,
        !(stem.len() >= 3 && stem.take(3) == seq!['l', 'i', 'b']) ==> strip_lib_prefix(stem)
            == stem,
{
    let s = seq!['l', 'i', 'b'] + rest;
    assert(s[0] == 'l' && s[1] == 'i' && s[2] == 'b');
    assert(s.skip(3) =~= rest);
    if stem.len() >= 3 && stem[0] == 'l' && stem[1] == 'i' && stem[2] == 'b' {
        assert(stem.take(3) =~= seq!['l', 'i', 'b']);
    }
}

} // verus!
