use uniffi_haskell::native_library::{
    infer_native_library, native_library, native_library_from_stem, NativeLibraryError,
};

#[test]
fn infers_the_name_of_a_shared_library() {
    assert_eq!(
        infer_native_library("target/release/libmy_crate.dylib"),
        Ok("my_crate".to_string())
    );
    assert_eq!(
        infer_native_library("/abs/path/libmy_crate.so"),
        Ok("my_crate".to_string())
    );
}

#[test]
fn keeps_a_stem_without_the_lib_prefix() {
    assert_eq!(infer_native_library("build/my_crate.so"), Ok("my_crate".to_string()));
}

#[test]
fn strips_the_lib_prefix_once() {
    assert_eq!(infer_native_library("liblibfoo.a"), Ok("libfoo".to_string()));
    assert_eq!(native_library_from_stem("liblibfoo"), "libfoo");
}

#[test]
fn only_the_last_extension_leaves_the_stem() {
    assert_eq!(infer_native_library("libfoo.so.1"), Ok("foo.so".to_string()));
}

#[test]
fn a_stem_that_is_only_the_prefix_gives_an_empty_name() {
    assert_eq!(native_library_from_stem("lib"), "");
    assert_eq!(native_library_from_stem("li"), "li");
    assert_eq!(native_library_from_stem("my_lib"), "my_lib");
}

#[test]
fn a_path_without_a_file_name_is_an_error() {
    assert_eq!(infer_native_library("/"), Err(NativeLibraryError::NoFileName));
    assert_eq!(infer_native_library("foo/.."), Err(NativeLibraryError::NoFileName));
    assert_eq!(
        NativeLibraryError::NoFileName.message(),
        "--library path has no file name"
    );
}

#[test]
fn an_explicit_native_library_wins() {
    assert_eq!(
        native_library(Some("explicit".to_string()), "/"),
        Ok("explicit".to_string())
    );
    assert_eq!(
        native_library(None, "out/libcomponent.a"),
        Ok("component".to_string())
    );
    assert_eq!(native_library(None, "/"), Err(NativeLibraryError::NoFileName));
}
