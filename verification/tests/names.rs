use uniffi_haskell::names::{namespace_modules, sanitize_identifier, upper_camel};

#[test]
fn upper_camel_joins_underscore_words() {
    assert_eq!(upper_camel("my_crate"), "MyCrate");
    assert_eq!(upper_camel("uniffi_haskell_fixture"), "UniffiHaskellFixture");
}

#[test]
fn upper_camel_joins_hyphen_words() {
    assert_eq!(upper_camel("my-crate"), "MyCrate");
}

#[test]
fn upper_camel_treats_separators_alike() {
    assert_eq!(upper_camel("a_b-c"), upper_camel("a-b_c"));
    assert_eq!(upper_camel("a_b-c"), "ABC");
}

#[test]
fn upper_camel_drops_empty_words() {
    assert_eq!(upper_camel("__a--b_"), "AB");
    assert_eq!(upper_camel("_-_"), "");
    assert_eq!(upper_camel(""), "");
}

#[test]
fn upper_camel_keeps_the_rest_of_a_word() {
    assert_eq!(upper_camel("httpClient_v2"), "HttpClientV2");
    assert_eq!(upper_camel("ABC_def"), "ABCDef");
}

#[test]
fn upper_camel_uses_the_full_uppercase_mapping() {
    // 'ß' uppercases to two chars.
    assert_eq!(upper_camel("ßa_é"), "SSaÉ");
}

#[test]
fn upper_camel_of_a_join_is_the_join_of_upper_camels() {
    assert_eq!(
        upper_camel("foo_bar-baz"),
        format!("{}{}", upper_camel("foo"), upper_camel("bar-baz"))
    );
}

#[test]
fn sanitize_identifier_replaces_invalid_chars() {
    assert_eq!(sanitize_identifier("my-crate.v2"), "my_crate_v2");
    assert_eq!(sanitize_identifier("héllo wörld"), "h_llo_w_rld");
    assert_eq!(sanitize_identifier(""), "");
}

#[test]
fn sanitize_identifier_keeps_valid_names() {
    assert_eq!(sanitize_identifier("Valid_Name_09"), "Valid_Name_09");
}

#[test]
fn sanitize_identifier_is_idempotent() {
    let once = sanitize_identifier("a-b c/é");
    assert_eq!(sanitize_identifier(&once), once);
    assert_eq!(once.chars().count(), "a-b c/é".chars().count());
}

#[test]
fn namespace_modules_for_a_crate() {
    let modules = namespace_modules("my_crate");
    assert_eq!(modules.module_segment, "MyCrate");
    assert_eq!(modules.public_module, "UniFFI.MyCrate");
    assert_eq!(modules.internal_module, "UniFFI.MyCrate.Internal");
    assert_eq!(modules.c_stem, "uniffi_my_crate_haskell");
}

#[test]
fn namespace_modules_sanitize_the_c_stem() {
    let modules = namespace_modules("my-crate");
    assert_eq!(modules.module_segment, "MyCrate");
    assert_eq!(modules.c_stem, "uniffi_my_crate_haskell");
    let fixture = namespace_modules("uniffi_haskell_external_fixture");
    assert_eq!(fixture.public_module, "UniFFI.UniffiHaskellExternalFixture");
    assert_eq!(fixture.c_stem, "uniffi_uniffi_haskell_external_fixture_haskell");
}
