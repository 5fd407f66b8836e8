//! Names of the generated Haskell modules and C files.

use vstd::prelude::*;

verus! {

/// What `char::to_uppercase` yields for `c`: its Unicode uppercase mapping.
pub uninterp spec fn uppercase_mapping(c: char) -> Seq<char>;

/// Calls `char::to_uppercase` and collects the chars it yields.
///
/// Trusted: the result is the uppercase mapping of `c`, and, as the standard
/// library documents, it holds one or more chars.  What the mapping is on a
/// given char is left to the name `uppercase_mapping`.
#[verifier::external_body]
fn char_to_uppercase(c: char) -> (upper: String)
    ensures
        upper@ == uppercase_mapping(c),
        upper@.len() >= 1,
{
    c.to_uppercase().collect::<String>()
}

/// Calls `String::push`, which appends one char to the end of the string.
#[verifier::external_body]
fn push_char(s: &mut String, c: char)
    ensures
        final(s)@ == old(s)@.push(c),
{
    s.push(c);
}

/// Characters that separate the words of a name.
pub open spec fn is_separator(c: char) -> bool {
    c == '_' || c == '-'
}

/// Characters that may stand in a C identifier unchanged.
pub open spec fn is_identifier_char(c: char) -> bool {
    ||| ('a' <= c && c <= 'z')
    ||| ('A' <= c && c <= 'Z')
    ||| ('0' <= c && c <= '9')
    ||| c == '_'
}

fn separator(c: char) -> (b: bool)
    ensures
        b == is_separator(c),
{
    c == '_' || c == '-'
}

fn identifier_char(c: char) -> (b: bool)
    ensures
        b == is_identifier_char(c),
{
    ('a' <= c && c <= 'z') || ('A' <= c && c <= 'Z') || ('0' <= c && c <= '9') || c == '_'
}

/// Position `i` of `s` holds the first char of a word.
pub open spec fn starts_word(s: Seq<char>, i: int) -> bool {
    &&& !is_separator(s[i])
    &&& (i == 0 || is_separator(s[i - 1]))
}

/// What position `i` of `s` contributes to the UpperCamelCase form of `s`:
/// nothing for a separator, the uppercase mapping for the first char of a
/// word, the char itself otherwise.
pub open spec fn camel_piece(s: Seq<char>, i: int) -> Seq<char> {
    if is_separator(s[i]) {
        Seq::empty()
    } else if starts_word(s, i) {
        uppercase_mapping(s[i])
    } else {
        seq![s[i]]
    }
}

/// The UpperCamelCase form of a name whose words are separated by `_` or `-`:
/// the separators are dropped and the first char of every word is uppercased.
pub open spec fn upper_camel_spec(s: Seq<char>) -> Seq<char>
    decreases s.len(),
{
    if s.len() == 0 {
        Seq::empty()
    } else {
        upper_camel_spec(s.drop_last()) + camel_piece(s, s.len() - 1)
    }
}

/// `c` when it may stand in a C identifier, `_` otherwise.
pub open spec fn sanitize_char(c: char) -> char {
    if is_identifier_char(c) {
        c
    } else {
        '_'
    }
}

/// Every char of `s` replaced by `sanitize_char`.
pub open spec fn sanitize_spec(s: Seq<char>) -> Seq<char> {
    Seq::new(s.len(), |i: int| sanitize_char(s[i]))
}

proof fn lemma_camel_piece_prefix(s: Seq<char>, i: int)
    requires
        0 <= i < s.len(),
    ensures
        camel_piece(s.take(i + 1), i) == camel_piece(s, i),
{
}

/// Turns a name such as `my_crate` or `my-crate` into `MyCrate`.
pub fn upper_camel(value: &str) -> (camel: String)
    ensures
        camel@ == upper_camel_spec(value@),
{
    let n = value.unicode_len();
    let mut camel = String::new();
    let mut i: usize = 0;
    while i < n
        invariant
            n == value@.len(),
            i <= n,
            camel@ == upper_camel_spec(value@.take(i as int)),
        decreases n - i,
    {
        let c = value.get_char(i);
        if separator(c) {
        } else if i == 0 || separator(value.get_char(i - 1)) {
            let upper = char_to_uppercase(c);
            camel.append(upper.as_str());
        } else {
            push_char(&mut camel, c);
        }
        proof {
            let t = value@.take(i + 1);
            assert(t.drop_last() =~= value@.take(i as int));
            lemma_camel_piece_prefix(value@, i as int);
        }
        i += 1;
    }
    proof {
        assert(value@.take(n as int) =~= value@);
    }
    camel
}

/// Replaces every char that may not stand in a C identifier by `_`.
pub fn sanitize_identifier(value: &str) -> (sanitized: String)
    ensures
        sanitized@ == sanitize_spec(value@),
{
    let n = value.unicode_len();
    let mut sanitized = String::new();
    let mut i: usize = 0;
    while i < n
        invariant
            n == value@.len(),
            i <= n,
            sanitized@ =~= sanitize_spec(value@.take(i as int)),
        decreases n - i,
    {
        let c = value.get_char(i);
        if identifier_char(c) {
            push_char(&mut sanitized, c);
        } else {
            push_char(&mut sanitized, '_');
        }
        i += 1;
    }
    proof {
        assert(value@.take(n as int) =~= value@);
    }
    sanitized
}

/// The Haskell modules and the C stem generated for one UniFFI namespace.
#[derive(Debug, PartialEq, Eq)]
pub struct NamespaceModules {
    /// UpperCamelCase form of the namespace's name.
    pub module_segment: String,
    /// The public Haskell module, `UniFFI.<segment>`.
    pub public_module: String,
    /// The internal Haskell module, `UniFFI.<segment>.Internal`.
    pub internal_module: String,
    /// Stem of the generated C files, `uniffi_<sanitized name>_haskell`.
    pub c_stem: String,
}

fn concat(prefix: &str, middle: &str, suffix: &str) -> (joined: String)
    ensures
        joined@ == prefix@ + middle@ + suffix@,
{
    let mut joined = String::new();
    joined.append(prefix);
    joined.append(middle);
    joined.append(suffix);
    joined
}

/// Names the modules and the C stem generated for the namespace `name`.
pub fn namespace_modules(name: &str) -> (modules: NamespaceModules)
    ensures
        modules.module_segment@ == upper_camel_spec(name@),
        modules.public_module@ == "UniFFI."@ + upper_camel_spec(name@),
        modules.internal_module@ == "UniFFI."@ + upper_camel_spec(name@) + ".Internal"@,
        modules.c_stem@ == "uniffi_"@ + sanitize_spec(name@) + "_haskell"@,
{
    let module_segment = upper_camel(name);
    let public_module = concat("UniFFI.", module_segment.as_str(), "");
    let internal_module = concat(public_module.as_str(), ".Internal", "");
    let sanitized = sanitize_identifier(name);
    let c_stem = concat("uniffi_", sanitized.as_str(), "_haskell");
    proof {
        reveal_strlit("");
        assert(public_module@ =~= "UniFFI."@ + module_segment@);
        assert(internal_module@ =~= "UniFFI."@ + module_segment@ + ".Internal"@);
    }
    NamespaceModules { module_segment, public_module, internal_module, c_stem }
}

/// Every char of a sanitized name may stand in a C identifier, and the name
/// keeps its length.
pub proof fn lemma_sanitized_is_identifier(s: Seq<char>)
    ensures
        sanitize_spec(s).len() == s.len(),
        forall|i: int| 0 <= i < s.len() ==> is_identifier_char(#[trigger] sanitize_spec(s)[i]),
{
}

/// A name made only of identifier chars is left as it is.
pub proof fn lemma_sanitize_keeps_identifiers(s: Seq<char>)
    requires
        forall|i: int| 0 <= i < s.len() ==> is_identifier_char(#[trigger] s[i]),
    ensures
        sanitize_spec(s) == s,
{
    assert(sanitize_spec(s) =~= s);
}

/// Sanitizing twice gives what sanitizing once gives.
pub proof fn lemma_sanitize_idempotent(s: Seq<char>)
    ensures
        sanitize_spec(sanitize_spec(s)) == sanitize_spec(s),
{
    lemma_sanitized_is_identifier(s);
    lemma_sanitize_keeps_identifiers(sanitize_spec(s));
}

/// The C stem of every namespace is made of identifier chars only.
pub proof fn lemma_c_stem_is_identifier(name: Seq<char>)
    ensures
        forall|i: int|
            0 <= i < ("uniffi_"@ + sanitize_spec(name) + "_haskell"@).len() ==> is_identifier_char(
                #[trigger] ("uniffi_"@ + sanitize_spec(name) + "_haskell"@)[i],
            ),
{
    reveal_strlit("uniffi_");
    reveal_strlit("_haskell");
    lemma_sanitized_is_identifier(name);
    let stem = "uniffi_"@ + sanitize_spec(name) + "_haskell"@;
    assert forall|i: int| 0 <= i < stem.len() implies is_identifier_char(#[trigger] stem[i]) by {
        if i < 7 {
            assert(stem[i] == "uniffi_"@[i]);
        } else if i < 7 + name.len() {
            assert(stem[i] == sanitize_spec(name)[i - 7]);
        } else {
            assert(stem[i] == "_haskell"@[i - 7 - name.len()]);
        }
    }
}

/// `_` and `-` separate words alike: names that differ only in which of the
/// two separators stand where have the same UpperCamelCase form.
pub proof fn lemma_upper_camel_separators_alike(s: Seq<char>, t: Seq<char>)
    requires
        s.len() == t.len(),
        forall|i: int|
            0 <= i < s.len() ==> #[trigger] s[i] == t[i] || ((s[i] == '_' || s[i] == '-') && (t[i]
                == '_' || t[i] == '-')),
    ensures
        upper_camel_spec(s) == upper_camel_spec(t),
    decreases s.len(),
{
    if s.len() > 0 {
        let i = s.len() - 1;
        lemma_upper_camel_separators_alike(s.drop_last(), t.drop_last());
        if i > 0 {
            assert(s[i - 1] == t[i - 1] || (is_separator(s[i - 1]) && is_separator(t[i - 1])));
        }
        assert(s[i] == t[i] || (is_separator(s[i]) && is_separator(t[i])));
        assert(camel_piece(s, i) == camel_piece(t, i));
    }
}

/// Words are put in UpperCamelCase independently: joining two names with a
/// separator joins their UpperCamelCase forms.
pub proof fn lemma_upper_camel_join(a: Seq<char>, sep: char, b: Seq<char>)
    requires
        sep == '_' || sep == '-',
    ensures
        upper_camel_spec(a + seq![sep] + b) == upper_camel_spec(a) + upper_camel_spec(b),
    decreases b.len(),
{
    let s = a + seq![sep] + b;
    if b.len() == 0 {
        assert(s.drop_last() =~= a);
        assert(s =~= a + seq![sep]);
        assert(camel_piece(s, s.len() - 1) =~= Seq::<char>::empty());
        assert(upper_camel_spec(b) =~= Seq::<char>::empty());
        assert(upper_camel_spec(s) =~= upper_camel_spec(a) + upper_camel_spec(b));
    } else {
        lemma_upper_camel_join(a, sep, b.drop_last());
        assert(s.drop_last() =~= a + seq![sep] + b.drop_last());
        let i = s.len() - 1;
        let j = b.len() - 1;
        assert(s[i] == b[j]);
        if j > 0 {
            assert(s[i - 1] == b[j - 1]);
        } else {
            assert(s[i - 1] == sep);
        }
        assert(camel_piece(s, i) == camel_piece(b, j));
        assert(upper_camel_spec(s) =~= upper_camel_spec(a) + upper_camel_spec(b));
    }
}

/// A name made only of separators has an empty UpperCamelCase form.
pub proof fn lemma_upper_camel_of_separators(s: Seq<char>)
    requires
        forall|i: int| 0 <= i < s.len() ==> #[trigger] s[i] == '_' || s[i] == '-',
    ensures
        upper_camel_spec(s) == Seq::<char>::empty(),
    decreases s.len(),
{
    if s.len() > 0 {
        let before = s.drop_last();
        assert forall|i: int| 0 <= i < before.len() implies #[trigger] before[i] == '_' || before[i] == '-' by {
            assert(before[i] == s[i]);
        }
        lemma_upper_camel_of_separators(before);
        assert(is_separator(s[s.len() - 1]));
        assert(upper_camel_spec(s) =~= Seq::<char>::empty());
    }
}

/// Sanitizing keeps every ASCII letter, digit and `_` where it stands and
/// puts `_` in place of every other char.
pub proof fn lemma_sanitize_keeps_ascii_alphanumerics(s: Seq<char>)
    ensures
        sanitize_spec(s).len() == s.len(),
        forall|i: int|
            0 <= i < s.len() ==> #[trigger] sanitize_spec(s)[i] == if ('a' <= s[i] <= 'z') || ('A'
                <= s[i] <= 'Z') || ('0' <= s[i] <= '9') || s[i] == '_' {
                s[i]
            } else {
                '_'
            },
{
}

/// A single word (a name without separators) is put in UpperCamelCase by
/// replacing its first char with that char's uppercase mapping and keeping
/// the rest unchanged.
pub proof fn lemma_upper_camel_of_a_word(w: Seq<char>)
    requires
        w.len() > 0,
        forall|i: int| 0 <= i < w.len() ==> #[trigger] w[i] != '_' && w[i] != '-',
    ensures
        upper_camel_spec(w) == uppercase_mapping(w[0]) + w.skip(1),
    decreases w.len(),
{
    if w.len() == 1 {
        assert(w.drop_last() =~= Seq::<char>::empty());
        assert(w.skip(1) =~= Seq::<char>::empty());
        assert(w.drop_last().len() == 0);
        assert(upper_camel_spec(w.drop_last()) == Seq::<char>::empty());
        assert(camel_piece(w, 0) == uppercase_mapping(w[0]));
        assert(upper_camel_spec(w) == upper_camel_spec(w.drop_last()) + camel_piece(w, 0));
        assert(upper_camel_spec(w) =~= uppercase_mapping(w[0]) + w.skip(1));
    } else {
        let before = w.drop_last();
        assert forall|i: int| 0 <= i < before.len() implies #[trigger] before[i] != '_'
            && before[i] != '-' by {
            assert(before[i] == w[i]);
        }
        lemma_upper_camel_of_a_word(before);
        let n = w.len() - 1;
        assert(w[n] != '_' && w[n] != '-');
        assert(w[n - 1] != '_' && w[n - 1] != '-');
        assert(camel_piece(w, n) == seq![w[n]]);
        assert(before[0] == w[0]);
        assert(w.skip(1) =~= before.skip(1).push(w[n]));
        assert(upper_camel_spec(w) == upper_camel_spec(before) + camel_piece(w, n));
        assert(upper_camel_spec(before) == uppercase_mapping(w[0]) + before.skip(1));
        assert((uppercase_mapping(w[0]) + before.skip(1)) + seq![w[n]] =~= uppercase_mapping(w[0])
            + before.skip(1).push(w[n]));
        assert(upper_camel_spec(w) =~= uppercase_mapping(w[0]) + w.skip(1));
    }
}

} // verus!
