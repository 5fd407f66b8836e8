//! Normalisation of borrowed-bytes arguments: a `&[u8]` argument of a
//! top-level function crosses the FFI as foreign bytes, both in the function's
//! own arguments and in the FFI function that implements it.

use vstd::prelude::*;
use crate::ffi::{
    is_borrowed_bytes_spec, views, Argument, FfiArgument, FfiDefinition, FfiFunction, FfiType,
    Function, Namespace, Root, SameView, SpecArgument, SpecFfiArgument,
    SpecFfiDefinition, SpecFfiFunction, SpecFfiType, SpecFunction, SpecNamespace,
};

verus! {

broadcast use vstd::std_specs::vec::axiom_spec_into_iter;

/// The positions of the borrowed-bytes arguments among `args`, in order.
pub open spec fn borrowed_indices(args: Seq<SpecArgument>) -> Seq<usize>
    decreases args.len(),
{
    if args.len() == 0 {
        Seq::empty()
    } else {
        let before = borrowed_indices(args.drop_last());
        if is_borrowed_bytes_spec(args.last()) {
            before.push((args.len() - 1) as usize)
        } else {
            before
        }
    }
}

/// `a`, passed as foreign bytes when it is a borrowed-bytes argument.
pub open spec fn mark_argument(a: SpecArgument) -> SpecArgument {
    if is_borrowed_bytes_spec(a) {
        SpecArgument {
            name: a.name,
            by_ref: a.by_ref,
            is_bytes: a.is_bytes,
            ffi_type: SpecFfiType::ForeignBytes,
        }
    } else {
        a
    }
}

/// `f` with each of its borrowed-bytes arguments passed as foreign bytes.
pub open spec fn normalized_function(f: SpecFunction) -> SpecFunction {
    SpecFunction {
        ffi_func: f.ffi_func,
        arguments: f.arguments.map_values(|a: SpecArgument| mark_argument(a)),
    }
}

/// For each FFI function name, the borrowed-bytes positions of the last of
/// `fs` that it implements and that has such an argument.
pub open spec fn borrowed_map(fs: Seq<SpecFunction>) -> Map<Seq<char>, Seq<usize>>
    decreases fs.len(),
{
    if fs.len() == 0 {
        Map::empty()
    } else {
        let before = borrowed_map(fs.drop_last());
        let indices = borrowed_indices(fs.last().arguments);
        if indices.len() > 0 {
            before.insert(fs.last().ffi_func, indices)
        } else {
            before
        }
    }
}

/// `args` with the ones at the positions in `indices` passed as foreign bytes.
pub open spec fn mark_foreign_bytes(args: Seq<SpecFfiArgument>, indices: Seq<usize>) -> Seq<
    SpecFfiArgument,
> {
    Seq::new(
        args.len(),
        |k: int|
            if indices.contains(k as usize) {
                SpecFfiArgument { name: args[k].name, ty: SpecFfiType::ForeignBytes }
            } else {
                args[k]
            },
    )
}

/// `d` after normalisation: a Rust function that `m` names has the arguments
/// at the positions `m` gives passed as foreign bytes; any other definition
/// is unchanged.
pub open spec fn normalized_definition(
    d: SpecFfiDefinition,
    m: Map<Seq<char>, Seq<usize>>,
) -> SpecFfiDefinition {
    match d {
        SpecFfiDefinition::RustFunction(f) => if m.contains_key(f.name) {
            SpecFfiDefinition::RustFunction(
                SpecFfiFunction {
                    name: f.name,
                    async_data: f.async_data,
                    arguments: mark_foreign_bytes(f.arguments, m[f.name]),
                    return_type: f.return_type,
                    has_rust_call_status_arg: f.has_rust_call_status_arg,
                    kind: f.kind,
                },
            )
        } else {
            d
        },
        _ => d,
    }
}

/// `s` with every element after its first occurrence left out.
pub open spec fn dedup<A>(s: Seq<A>) -> Seq<A>
    decreases s.len(),
{
    if s.len() == 0 {
        s
    } else {
        let before = dedup(s.drop_last());
        if before.contains(s.last()) {
            before
        } else {
            before.push(s.last())
        }
    }
}

/// `ns` after normalisation. The definitions form a set, so two that become
/// equal count once, at the place of the first.
pub open spec fn normalized_namespace(ns: SpecNamespace) -> SpecNamespace {
    let m = borrowed_map(ns.functions);
    SpecNamespace {
        name: ns.name,
        functions: ns.functions.map_values(|f: SpecFunction| normalized_function(f)),
        ffi_definitions: dedup(
            ns.ffi_definitions.map_values(|d: SpecFfiDefinition| normalized_definition(d, m)),
        ),
    }
}

pub open spec fn normalized_root(r: Seq<SpecNamespace>) -> Seq<SpecNamespace> {
    r.map_values(|ns: SpecNamespace| normalized_namespace(ns))
}

/// Every position that `m` gives for the Rust function `d` is one of its
/// arguments.
pub open spec fn definition_fits(d: SpecFfiDefinition, m: Map<Seq<char>, Seq<usize>>) -> bool {
    match d {
        SpecFfiDefinition::RustFunction(f) => m.contains_key(f.name) ==> forall|j: int|
            0 <= j < m[f.name].len() ==> (#[trigger] m[f.name][j]) < f.arguments.len(),
        _ => true,
    }
}

/// Every FFI function of `ns` that implements a top-level function with a
/// borrowed-bytes argument has an argument at each such position.
pub open spec fn definitions_fit(ns: SpecNamespace) -> bool {
    forall|i: int|
        0 <= i < ns.ffi_definitions.len() ==> definition_fits(
            #[trigger] ns.ffi_definitions[i],
            borrowed_map(ns.functions),
        )
}

pub open spec fn root_fits(r: Seq<SpecNamespace>) -> bool {
    forall|i: int| 0 <= i < r.len() ==> definitions_fit(#[trigger] r[i])
}

fn normalize_function(f: Function) -> (result: (Function, Vec<usize>))
    ensures
        result.0@ == normalized_function(f@),
        result.1@ == borrowed_indices(f@.arguments),
{
    let Function { ffi_func, arguments } = f;
    let ghost args = views(arguments@);
    let mut marked: Vec<Argument> = Vec::new();
    let mut indices: Vec<usize> = Vec::new();
    let n = arguments.len();
    let mut index: usize = 0;
    for argument in it: arguments
        invariant
            n == args.len(),
            it.seq() == arguments@,
            index == it.index(),
            index <= args.len(),
            args == views(arguments@),
            views(marked@) =~= args.take(index as int).map_values(
                |a: SpecArgument| mark_argument(a),
            ),
            indices@ == borrowed_indices(args.take(index as int)),
    {
        let mut argument = argument;
        let ghost before = argument@;
        proof {
            assert(args.take(index + 1).drop_last() =~= args.take(index as int));
            assert(before == args[index as int]);
        }
        if argument.is_borrowed_bytes() {
            argument.ffi_type = FfiType::ForeignBytes;
            indices.push(index);
        }
        let ghost marked_before = marked@;
        marked.push(argument);
        proof {
            assert(argument@ == mark_argument(before));
            assert(views(marked@) =~= views(marked_before).push(argument@));
            assert(args.take(index + 1).map_values(|a: SpecArgument| mark_argument(a))
                =~= args.take(index as int).map_values(|a: SpecArgument| mark_argument(a)).push(
                mark_argument(before),
            ));
        }
        index += 1;
    }
    proof {
        assert(args.take(args.len() as int) =~= args);
    }
    (Function { ffi_func, arguments: marked }, indices)
}

/// The map from FFI function names to borrowed-bytes positions that the
/// normalisation builds, held as the list of its insertions: a later entry
/// for a name replaces an earlier one.
struct BorrowedArguments {
    entries: Vec<(String, Vec<usize>)>,
}

spec fn entries_map(s: Seq<(String, Vec<usize>)>) -> Map<Seq<char>, Seq<usize>>
    decreases s.len(),
{
    if s.len() == 0 {
        Map::empty()
    } else {
        entries_map(s.drop_last()).insert(s.last().0@, s.last().1@)
    }
}

/// Entries at `i` and after that hold another name leave the value of `key`
/// as the first `i` entries give it.
proof fn lemma_entries_map_suffix(s: Seq<(String, Vec<usize>)>, i: int, key: Seq<char>)
    requires
        0 <= i <= s.len(),
        forall|j: int| i <= j < s.len() ==> (#[trigger] s[j]).0@ != key,
    ensures
        entries_map(s).contains_key(key) == entries_map(s.take(i)).contains_key(key),
        entries_map(s).contains_key(key) ==> entries_map(s)[key] == entries_map(s.take(i))[key],
    decreases s.len(),
{
    if s.len() == i {
        assert(s.take(i) =~= s);
    } else {
        lemma_entries_map_suffix(s.drop_last(), i, key);
        assert(s.drop_last().take(i) =~= s.take(i));
    }
}

impl View for BorrowedArguments {
    type V = Map<Seq<char>, Seq<usize>>;

    closed spec fn view(&self) -> Map<Seq<char>, Seq<usize>> {
        entries_map(self.entries@)
    }
}

impl BorrowedArguments {
    fn new() -> (map: Self)
        ensures
            map@ == Map::<Seq<char>, Seq<usize>>::empty(),
    {
        BorrowedArguments { entries: Vec::new() }
    }

    fn insert(&mut self, key: String, value: Vec<usize>)
        ensures
            final(self)@ == old(self)@.insert(key@, value@),
    {
        let ghost before = self.entries@;
        self.entries.push((key, value));
        proof {
            assert(self.entries@.drop_last() =~= before);
        }
    }

    fn get(&self, key: &String) -> (found: Option<&Vec<usize>>)
        ensures
            match found {
                Some(value) => self@.contains_key(key@) && self@[key@] == value@,
                None => !self@.contains_key(key@),
            },
    {
        let mut i = self.entries.len();
        while i > 0
            invariant
                i <= self.entries@.len(),
                forall|j: int| i <= j < self.entries@.len() ==> (#[trigger] self.entries@[j]).0@ != key@,
            decreases i,
        {
            if self.entries[i - 1].0.same_view(key) {
                proof {
                    lemma_entries_map_suffix(self.entries@, i as int, key@);
                    assert(self.entries@.take(i as int).drop_last() =~= self.entries@.take(i - 1));
                }
                return Some(&self.entries[i - 1].1);
            }
            i -= 1;
        }
        proof {
            lemma_entries_map_suffix(self.entries@, 0, key@);
        }
        None
    }
}

fn set_foreign_bytes(args: &mut Vec<FfiArgument>, k: usize)
    requires
        k < old(args)@.len(),
    ensures
        views(final(args)@) == views(old(args)@).update(
            k as int,
            SpecFfiArgument { name: old(args)@[k as int].name@, ty: SpecFfiType::ForeignBytes },
        ),
{
    let argument = args.remove(k);
    args.insert(k, FfiArgument { name: argument.name, ty: FfiType::ForeignBytes });
    proof {
        assert(views(args@) =~= views(old(args)@).update(
            k as int,
            SpecFfiArgument { name: old(args)@[k as int].name@, ty: SpecFfiType::ForeignBytes },
        ));
    }
}

fn normalize_definition(d: FfiDefinition, borrowed: &BorrowedArguments) -> (result: FfiDefinition)
    requires
        definition_fits(d@, borrowed@),
    ensures
        result@ == normalized_definition(d@, borrowed@),
{
    match d {
        FfiDefinition::RustFunction(f) => {
            let FfiFunction {
                name,
                async_data,
                arguments,
                return_type,
                has_rust_call_status_arg,
                kind,
            } = f;
            match borrowed.get(&name) {
                Some(indices) => {
                    let ghost original = views(arguments@);
                    let mut arguments = arguments;
                    let count = arguments.len();
                    assert(original.len() == count);
                    let n = indices.len();
                    let mut j: usize = 0;
                    while j < n
                        invariant
                            n == indices@.len(),
                            j <= n,
                            original.len() <= usize::MAX,
                            borrowed@.contains_key(name@),
                            indices@ == borrowed@[name@],
                            forall|t: int| 0 <= t < n ==> (#[trigger] indices@[t]) < original.len(),
                            views(arguments@) =~= mark_foreign_bytes(original, indices@.take(j as int)),
                        decreases n - j,
                    {
                        let k = indices[j];
                        let ghost before = views(arguments@);
                        proof {
                            assert(k < original.len());
                            assert(before.len() == mark_foreign_bytes(original, indices@.take(j as int)).len());
                            assert(before.len() == arguments@.len());
                        }
                        set_foreign_bytes(&mut arguments, k);
                        proof {
                            let taken = indices@.take(j + 1);
                            assert(taken =~= indices@.take(j as int).push(k));
                            assert forall|x: usize| taken.contains(x) == (indices@.take(j as int).contains(x) || x == k) by {
                                if taken.contains(x) {
                                    let w = choose|w: int| 0 <= w < taken.len() && taken[w] == x;
                                    if w < j {
                                        assert(indices@.take(j as int)[w] == x);
                                    }
                                }
                                if indices@.take(j as int).contains(x) {
                                    let w = choose|w: int| 0 <= w < j && indices@.take(j as int)[w] == x;
                                    assert(taken[w] == x);
                                }
                                if x == k {
                                    assert(taken[j as int] == x);
                                }
                            }
                            let target = mark_foreign_bytes(original, taken);
                            assert forall|t: int| 0 <= t < original.len() implies views(arguments@)[t] == target[t] by {
                                assert(taken.contains(t as usize) == (indices@.take(j as int).contains(t as usize) || t as usize == k));
                                assert(before[t] == mark_foreign_bytes(original, indices@.take(j as int))[t]);
                                if t == k {
                                    assert(views(arguments@)[t] == target[t]);
                                } else {
                                    assert(views(arguments@)[t] == before[t]);
                                }
                            }
                            assert(views(arguments@) =~= target);
                        }
                        j += 1;
                    }
                    proof {
                        assert(indices@.take(n as int) =~= indices@);
                    }
                    FfiDefinition::RustFunction(
                        FfiFunction {
                            name,
                            async_data,
                            arguments,
                            return_type,
                            has_rust_call_status_arg,
                            kind,
                        },
                    )
                },
                None => FfiDefinition::RustFunction(
                    FfiFunction {
                        name,
                        async_data,
                        arguments,
                        return_type,
                        has_rust_call_status_arg,
                        kind,
                    },
                ),
            }
        },
        other => other,
    }
}

fn contains_definition(definitions: &Vec<FfiDefinition>, d: &FfiDefinition) -> (found: bool)
    ensures
        found == views(definitions@).contains(d@),
{
    let n = definitions.len();
    let mut i: usize = 0;
    while i < n
        invariant
            n == definitions@.len(),
            i <= n,
            forall|j: int| 0 <= j < i ==> definitions@[j]@ != d@,
        decreases n - i,
    {
        if definitions[i].same_view(d) {
            proof {
                assert(views(definitions@)[i as int] == d@);
            }
            return true;
        }
        i += 1;
    }
    proof {
        if views(definitions@).contains(d@) {
            let w = choose|w: int| 0 <= w < n && views(definitions@)[w] == d@;
            assert(definitions@[w]@ == d@);
        }
    }
    false
}

fn normalize_namespace(ns: Namespace) -> (result: Namespace)
    requires
        definitions_fit(ns@),
    ensures
        result@ == normalized_namespace(ns@),
{
    let ghost spec_ns = ns@;
    let Namespace { name, functions, ffi_definitions } = ns;
    let ghost fs = views(functions@);
    let ghost ds = views(ffi_definitions@);
    let mut borrowed = BorrowedArguments::new();
    let mut normalized_functions: Vec<Function> = Vec::new();
    let n = functions.len();
    let mut i: usize = 0;
    for function in it: functions
        invariant
            n == fs.len(),
            it.seq() == functions@,
            i == it.index(),
            i <= n,
            fs == views(functions@),
            views(normalized_functions@) =~= fs.take(i as int).map_values(
                |f: SpecFunction| normalized_function(f),
            ),
            borrowed@ == borrowed_map(fs.take(i as int)),
    {
        let ghost before = function@;
        let ghost normalized_before = normalized_functions@;
        proof {
            assert(fs.take(i + 1).drop_last() =~= fs.take(i as int));
            assert(before == fs[i as int]);
        }
        let (normalized, indices) = normalize_function(function);
        if indices.len() > 0 {
            borrowed.insert(normalized.ffi_func.clone(), indices);
        }
        normalized_functions.push(normalized);
        proof {
            assert(views(normalized_functions@) =~= views(normalized_before).push(
                normalized_function(before),
            ));
            assert(fs.take(i + 1).map_values(|f: SpecFunction| normalized_function(f))
                =~= fs.take(i as int).map_values(|f: SpecFunction| normalized_function(f)).push(
                normalized_function(before),
            ));
        }
        i += 1;
    }
    proof {
        assert(fs.take(n as int) =~= fs);
    }
    let ghost m = borrowed_map(fs);
    let ghost mapped = ds.map_values(|d: SpecFfiDefinition| normalized_definition(d, m));
    let mut definitions: Vec<FfiDefinition> = Vec::new();
    let count = ffi_definitions.len();
    let mut i: usize = 0;
    for definition in it: ffi_definitions
        invariant
            count == ds.len(),
            it.seq() == ffi_definitions@,
            i == it.index(),
            i <= count,
            ds == views(ffi_definitions@),
            borrowed@ == m,
            m == borrowed_map(spec_ns.functions),
            ds == spec_ns.ffi_definitions,
            definitions_fit(spec_ns),
            mapped == ds.map_values(|d: SpecFfiDefinition| normalized_definition(d, m)),
            views(definitions@) == dedup(mapped.take(i as int)),
    {
        let ghost before = definition@;
        proof {
            assert(before == ds[i as int]);
            assert(mapped.take(i + 1).drop_last() =~= mapped.take(i as int));
        }
        let normalized = normalize_definition(definition, &borrowed);
        if !contains_definition(&definitions, &normalized) {
            let ghost definitions_before = definitions@;
            definitions.push(normalized);
            proof {
                assert(views(definitions@) =~= views(definitions_before).push(mapped[i as int]));
            }
        }
        i += 1;
    }
    proof {
        assert(mapped.take(count as int) =~= mapped);
    }
    Namespace { name, functions: normalized_functions, ffi_definitions: definitions }
}

/// Passes every borrowed `&[u8]` argument of a top-level function as foreign
/// bytes, both among the function's own arguments and among those of the
/// FFI function that implements it (found by name among the namespace's
/// FFI definitions). The FFI definitions stay a set: two that become equal
/// count once, at the place of the first.
pub fn normalize_borrowed_byte_arguments(root: &mut Root)
    requires
        root_fits(old(root)@),
    ensures
        final(root)@ == normalized_root(old(root)@),
{
    let mut namespaces: Vec<Namespace> = Vec::new();
    std::mem::swap(&mut namespaces, &mut root.namespaces);
    let ghost ns = views(namespaces@);
    let mut normalized: Vec<Namespace> = Vec::new();
    let n = namespaces.len();
    let mut i: usize = 0;
    for namespace in it: namespaces
        invariant
            n == ns.len(),
            it.seq() == namespaces@,
            i == it.index(),
            i <= n,
            ns == views(namespaces@),
            root_fits(ns),
            views(normalized@) =~= normalized_root(ns.take(i as int)),
    {
        let ghost before = normalized@;
        proof {
            assert(namespace@ == ns[i as int]);
        }
        let result = normalize_namespace(namespace);
        normalized.push(result);
        proof {
            assert(views(normalized@) =~= views(before).push(result@));
            assert(normalized_root(ns.take(i + 1)) =~= normalized_root(ns.take(i as int)).push(
                normalized_namespace(ns[i as int]),
            ));
        }
        i += 1;
    }
    proof {
        assert(ns.take(n as int) =~= ns);
    }
    root.namespaces = normalized;
}

fn borrowed_positions(arguments: &Vec<Argument>) -> (indices: Vec<usize>)
    ensures
        indices@ == borrowed_indices(views(arguments@)),
{
    let ghost args = views(arguments@);
    let n = arguments.len();
    let mut indices: Vec<usize> = Vec::new();
    let mut i: usize = 0;
    while i < n
        invariant
            n == args.len(),
            args == views(arguments@),
            i <= n,
            indices@ == borrowed_indices(args.take(i as int)),
        decreases n - i,
    {
        proof {
            assert(args.take(i + 1).drop_last() =~= args.take(i as int));
        }
        if arguments[i].is_borrowed_bytes() {
            indices.push(i);
        }
        i += 1;
    }
    proof {
        assert(args.take(n as int) =~= args);
    }
    indices
}

fn borrowed_arguments(functions: &Vec<Function>) -> (borrowed: BorrowedArguments)
    ensures
        borrowed@ == borrowed_map(views(functions@)),
{
    let ghost fs = views(functions@);
    let n = functions.len();
    let mut borrowed = BorrowedArguments::new();
    let mut i: usize = 0;
    while i < n
        invariant
            n == fs.len(),
            fs == views(functions@),
            i <= n,
            borrowed@ == borrowed_map(fs.take(i as int)),
        decreases n - i,
    {
        proof {
            assert(fs.take(i + 1).drop_last() =~= fs.take(i as int));
        }
        let indices = borrowed_positions(&functions[i].arguments);
        if indices.len() > 0 {
            borrowed.insert(functions[i].ffi_func.clone(), indices);
        }
        i += 1;
    }
    proof {
        assert(fs.take(n as int) =~= fs);
    }
    borrowed
}

fn definition_fits_exec(d: &FfiDefinition, borrowed: &BorrowedArguments) -> (fit: bool)
    ensures
        fit == definition_fits(d@, borrowed@),
{
    match d {
        FfiDefinition::RustFunction(f) => match borrowed.get(&f.name) {
            Some(indices) => {
                let n = indices.len();
                let count = f.arguments.len();
                let mut j: usize = 0;
                while j < n
                    invariant
                        n == indices@.len(),
                        count == f.arguments@.len(),
                        j <= n,
                        borrowed@.contains_key(f.name@),
                        borrowed@[f.name@] == indices@,
                        d@ == SpecFfiDefinition::RustFunction(f@),
                        forall|t: int| 0 <= t < j ==> (#[trigger] indices@[t]) < count,
                    decreases n - j,
                {
                    if indices[j] >= count {
                        proof {
                            assert(views(f.arguments@).len() == count);
                            assert(borrowed@[f@.name][j as int] >= f@.arguments.len());
                            assert(0 <= j < borrowed@[f@.name].len());
                            assert(!definition_fits(d@, borrowed@));
                        }
                        return false;
                    }
                    j += 1;
                }
                true
            },
            None => true,
        },
        _ => true,
    }
}

/// Whether every FFI function that implements a top-level function with a
/// borrowed-bytes argument has an argument at each such position: the
/// condition under which `normalize_borrowed_byte_arguments` may be called.
pub fn borrowed_positions_fit(root: &Root) -> (fit: bool)
    ensures
        fit == root_fits(root@),
{
    let n = root.namespaces.len();
    let mut i: usize = 0;
    while i < n
        invariant
            n == root.namespaces@.len(),
            i <= n,
            forall|k: int| 0 <= k < i ==> definitions_fit(#[trigger] root@[k]),
        decreases n - i,
    {
        let ns = &root.namespaces[i];
        assert(root@[i as int] == ns@);
        let borrowed = borrowed_arguments(&ns.functions);
        let count = ns.ffi_definitions.len();
        let mut j: usize = 0;
        while j < count
            invariant
                count == ns.ffi_definitions@.len(),
                j <= count,
                i < n,
                n == root.namespaces@.len(),
                root@[i as int] == ns@,
                borrowed@ == borrowed_map(ns@.functions),
                forall|t: int| 0 <= t < j ==> definition_fits(
                    #[trigger] ns@.ffi_definitions[t],
                    borrowed_map(ns@.functions),
                ),
            decreases count - j,
        {
            if !definition_fits_exec(&ns.ffi_definitions[j], &borrowed) {
                proof {
                    assert(!definition_fits(ns@.ffi_definitions[j as int], borrowed_map(ns@.functions)));
                    assert(!definitions_fit(root@[i as int]));
                }
                return false;
            }
            j += 1;
        }
        proof {
            assert(root@[i as int] == ns@);
        }
        i += 1;
    }
    true
}

/// What `dedup` keeps: each element once, and every element of `s`.
pub proof fn lemma_dedup_contents<A>(s: Seq<A>)
    ensures
        dedup(s).no_duplicates(),
        forall|x: A| dedup(s).contains(x) <==> s.contains(x),
    decreases s.len(),
{
    if s.len() > 0 {
        let before = s.drop_last();
        lemma_dedup_contents(before);
        let d = dedup(before);
        assert forall|x: A| s.contains(x) <==> (before.contains(x) || x == s.last()) by {
            if s.contains(x) {
                let w = choose|w: int| 0 <= w < s.len() && s[w] == x;
                if w < s.len() - 1 {
                    assert(before[w] == x);
                }
            }
            if before.contains(x) {
                let w = choose|w: int| 0 <= w < before.len() && before[w] == x;
                assert(s[w] == x);
            }
            if x == s.last() {
                assert(s[s.len() - 1] == x);
            }
        }
        if !d.contains(s.last()) {
            let pushed = d.push(s.last());
            assert forall|x: A| pushed.contains(x) <==> (d.contains(x) || x == s.last()) by {
                if pushed.contains(x) {
                    let w = choose|w: int| 0 <= w < pushed.len() && pushed[w] == x;
                    if w < d.len() {
                        assert(d[w] == x);
                    }
                }
                if d.contains(x) {
                    let w = choose|w: int| 0 <= w < d.len() && d[w] == x;
                    assert(pushed[w] == x);
                }
                if x == s.last() {
                    assert(pushed[d.len() as int] == x);
                }
            }
            assert forall|i: int, j: int|
                0 <= i < pushed.len() && 0 <= j < pushed.len() && i != j implies pushed[i]
                != pushed[j] by {
                if i < d.len() && j < d.len() {
                    assert(d[i] != d[j]);
                } else if i < d.len() {
                    assert(d.contains(pushed[i]));
                } else {
                    assert(d.contains(pushed[j]));
                }
            }
        }
    }
}

/// `x` occurs in `s` before every occurrence of `y`.
pub open spec fn occurs_before<A>(s: Seq<A>, x: A, y: A) -> bool {
    exists|p: int|
        0 <= p < s.len() && s[p] == x && forall|q: int|
            0 <= q < s.len() && #[trigger] s[q] == y ==> p < q
}

/// `dedup` keeps the order of first occurrences: of two kept elements, the
/// earlier one occurs in `s` before every occurrence of the later one.
pub proof fn lemma_dedup_keeps_first_occurrences<A>(s: Seq<A>)
    ensures
        forall|i: int, j: int|
            0 <= i < j < dedup(s).len() ==> occurs_before(s, #[trigger] dedup(s)[i], #[trigger] dedup(s)[j]),
    decreases s.len(),
{
    if s.len() > 0 {
        let before = s.drop_last();
        lemma_dedup_keeps_first_occurrences(before);
        lemma_dedup_contents(before);
        let d0 = dedup(before);
        let d = dedup(s);
        let n = s.len() - 1;
        assert forall|i: int, j: int| 0 <= i < j < d.len() implies occurs_before(
            s,
            #[trigger] d[i],
            #[trigger] d[j],
        ) by {
            if j < d0.len() {
                assert(d[i] == d0[i] && d[j] == d0[j]);
                assert(occurs_before(before, d0[i], d0[j]));
                let p = choose|p: int|
                    0 <= p < before.len() && before[p] == d0[i] && forall|q: int|
                        0 <= q < before.len() && #[trigger] before[q] == d0[j] ==> p < q;
                assert forall|q: int| 0 <= q < s.len() && #[trigger] s[q] == d[j] implies p < q by {
                    if q < n {
                        assert(before[q] == s[q]);
                    }
                }
                assert(s[p] == before[p]);
            } else {
                assert(d == d0.push(s.last()));
                assert(d[j] == s.last());
                assert(!d0.contains(s.last()));
                assert(!before.contains(s.last()));
                assert(d[i] == d0[i]);
                assert(d0.contains(d0[i]));
                assert(before.contains(d0[i]));
                let p = choose|p: int| 0 <= p < before.len() && before[p] == d0[i];
                assert forall|q: int| 0 <= q < s.len() && #[trigger] s[q] == d[j] implies p < q by {
                    if q < n {
                        assert(before[q] == s[q]);
                        assert(before.contains(s.last()));
                    }
                }
                assert(s[p] == before[p]);
            }
        }
    }
}

/// A sequence in which nothing occurs twice is its own `dedup`.
pub proof fn lemma_dedup_of_distinct<A>(s: Seq<A>)
    requires
        s.no_duplicates(),
    ensures
        dedup(s) == s,
    decreases s.len(),
{
    if s.len() > 0 {
        let before = s.drop_last();
        assert(before.no_duplicates());
        lemma_dedup_of_distinct(before);
        if before.contains(s.last()) {
            let w = choose|w: int| 0 <= w < before.len() && before[w] == s.last();
            assert(s[w] == s[s.len() - 1]);
        }
        assert(before.push(s.last()) =~= s);
    }
}

/// A map that fixes every element of `t` fixes `dedup(t)`.
proof fn lemma_dedup_fixed<A>(t: Seq<A>, g: spec_fn(A) -> A)
    requires
        forall|x: A| t.contains(x) ==> g(x) == x,
    ensures
        dedup(t).map_values(g) == dedup(t),
{
    lemma_dedup_contents(t);
    let d = dedup(t);
    assert forall|i: int| 0 <= i < d.len() implies d.map_values(g)[i] == d[i] by {
        assert(d.contains(d[i]));
        assert(t.contains(d[i]));
        assert(g(d[i]) == d[i]);
    }
    assert(d.map_values(g) =~= d);
}

proof fn lemma_borrowed_indices_of_marked(args: Seq<SpecArgument>)
    ensures
        borrowed_indices(args.map_values(|a: SpecArgument| mark_argument(a)))
            == borrowed_indices(args),
    decreases args.len(),
{
    if args.len() > 0 {
        let marked = args.map_values(|a: SpecArgument| mark_argument(a));
        lemma_borrowed_indices_of_marked(args.drop_last());
        assert(marked.drop_last() =~= args.drop_last().map_values(
            |a: SpecArgument| mark_argument(a),
        ));
        assert(marked.last() == mark_argument(args.last()));
    }
}

proof fn lemma_borrowed_map_of_normalized(fs: Seq<SpecFunction>)
    ensures
        borrowed_map(fs.map_values(|f: SpecFunction| normalized_function(f))) == borrowed_map(fs),
    decreases fs.len(),
{
    if fs.len() > 0 {
        let nfs = fs.map_values(|f: SpecFunction| normalized_function(f));
        lemma_borrowed_map_of_normalized(fs.drop_last());
        assert(nfs.drop_last() =~= fs.drop_last().map_values(
            |f: SpecFunction| normalized_function(f),
        ));
        lemma_borrowed_indices_of_marked(fs.last().arguments);
        assert(nfs.last() == normalized_function(fs.last()));
    }
}

proof fn lemma_normalized_function_idempotent(f: SpecFunction)
    ensures
        normalized_function(normalized_function(f)) == normalized_function(f),
{
    assert(normalized_function(normalized_function(f)).arguments =~= normalized_function(
        f,
    ).arguments);
}

proof fn lemma_normalized_definition_idempotent(d: SpecFfiDefinition, m: Map<Seq<char>, Seq<usize>>)
    ensures
        normalized_definition(normalized_definition(d, m), m) == normalized_definition(d, m),
        definition_fits(d, m) ==> definition_fits(normalized_definition(d, m), m),
{
    match d {
        SpecFfiDefinition::RustFunction(f) => {
            if m.contains_key(f.name) {
                let once = mark_foreign_bytes(f.arguments, m[f.name]);
                assert(mark_foreign_bytes(once, m[f.name]) =~= once);
            }
        },
        _ => {},
    }
}

/// Normalising twice gives what normalising once gives, and the result of
/// a normalisation can be normalised again.
pub proof fn lemma_normalize_idempotent(r: Seq<SpecNamespace>)
    requires
        root_fits(r),
    ensures
        root_fits(normalized_root(r)),
        normalized_root(normalized_root(r)) == normalized_root(r),
{
    let once = normalized_root(r);
    assert forall|i: int| 0 <= i < r.len() implies definitions_fit(#[trigger] once[i])
        && normalized_namespace(once[i]) == once[i] by {
        lemma_namespace_idempotent(r[i]);
    }
    assert(normalized_root(once) =~= once);
}

proof fn lemma_namespace_idempotent(ns: SpecNamespace)
    requires
        definitions_fit(ns),
    ensures
        definitions_fit(normalized_namespace(ns)),
        normalized_namespace(normalized_namespace(ns)) == normalized_namespace(ns),
{
    let m = borrowed_map(ns.functions);
    let out = normalized_namespace(ns);
    let nfs = ns.functions.map_values(|f: SpecFunction| normalized_function(f));
    lemma_borrowed_map_of_normalized(ns.functions);
    assert(borrowed_map(out.functions) == m);
    let mapped = ns.ffi_definitions.map_values(|d: SpecFfiDefinition| normalized_definition(d, m));
    lemma_dedup_contents(mapped);
    assert forall|x: SpecFfiDefinition| mapped.contains(x) implies normalized_definition(x, m) == x
        && definition_fits(x, m) by {
        let w = choose|w: int| 0 <= w < mapped.len() && mapped[w] == x;
        lemma_normalized_definition_idempotent(ns.ffi_definitions[w], m);
    }
    assert forall|i: int| 0 <= i < out.ffi_definitions.len() implies definition_fits(
        #[trigger] out.ffi_definitions[i],
        borrowed_map(out.functions),
    ) by {
        assert(out.ffi_definitions.contains(out.ffi_definitions[i]));
    }
    lemma_dedup_fixed(mapped, |d: SpecFfiDefinition| normalized_definition(d, m));
    lemma_dedup_of_distinct(dedup(mapped));
    let twice = nfs.map_values(|f: SpecFunction| normalized_function(f));
    assert forall|i: int| 0 <= i < nfs.len() implies #[trigger] twice[i] == nfs[i] by {
        lemma_normalized_function_idempotent(ns.functions[i]);
    }
    assert(nfs.map_values(|f: SpecFunction| normalized_function(f)) =~= nfs);
    assert(out.ffi_definitions.map_values(|d: SpecFfiDefinition| normalized_definition(d, m))
        == out.ffi_definitions);
}

/// Every argument of the Rust function `d` at a position that `m` gives for
/// its name is passed as foreign bytes.
pub open spec fn foreign_at_borrowed_positions(
    d: SpecFfiDefinition,
    m: Map<Seq<char>, Seq<usize>>,
) -> bool {
    match d {
        SpecFfiDefinition::RustFunction(f) => m.contains_key(f.name) ==> forall|j: int|
            0 <= j < m[f.name].len() && (#[trigger] m[f.name][j]) < f.arguments.len()
                ==> f.arguments[m[f.name][j] as int].ty == SpecFfiType::ForeignBytes,
        _ => true,
    }
}

/// After normalisation, every borrowed-bytes argument of a top-level
/// function is passed as foreign bytes, and so is every argument of an FFI
/// function at a position that the borrowed-bytes arguments of the top-level
/// function it implements give.
pub proof fn lemma_borrowed_bytes_cross_as_foreign_bytes(ns: SpecNamespace)
    ensures
        ({
            let out = normalized_namespace(ns);
            &&& forall|i: int, k: int|
                0 <= i < out.functions.len() && 0 <= k < out.functions[i].arguments.len()
                    && is_borrowed_bytes_spec(#[trigger] out.functions[i].arguments[k])
                    ==> out.functions[i].arguments[k].ffi_type == SpecFfiType::ForeignBytes
            &&& forall|i: int|
                0 <= i < out.ffi_definitions.len() ==> foreign_at_borrowed_positions(
                    #[trigger] out.ffi_definitions[i],
                    borrowed_map(ns.functions),
                )
        }),
{
    let out = normalized_namespace(ns);
    let m = borrowed_map(ns.functions);
    let mapped = ns.ffi_definitions.map_values(|d: SpecFfiDefinition| normalized_definition(d, m));
    lemma_dedup_contents(mapped);
    assert forall|i: int| 0 <= i < out.ffi_definitions.len() implies foreign_at_borrowed_positions(
        #[trigger] out.ffi_definitions[i],
        m,
    ) by {
        let x = out.ffi_definitions[i];
        assert(out.ffi_definitions == dedup(mapped));
        assert(out.ffi_definitions.contains(x));
        assert(mapped.contains(x));
        let w = choose|w: int| 0 <= w < mapped.len() && mapped[w] == x;
        let d = ns.ffi_definitions[w];
        match d {
            SpecFfiDefinition::RustFunction(g) => {
                if m.contains_key(g.name) {
                    assert forall|j: int| 0 <= j < m[g.name].len() && (#[trigger] m[g.name][j])
                        < g.arguments.len() implies mark_foreign_bytes(g.arguments, m[g.name])[m[g.name][j] as int].ty
                        == SpecFfiType::ForeignBytes by {
                        assert(m[g.name].contains(m[g.name][j]));
                    }
                }
            },
            _ => {},
        }
    }
}

/// The definitions of a normalised namespace hold nothing twice, and each
/// definition of the namespace is among them in its normalised form.
pub proof fn lemma_normalized_definitions_form_a_set(ns: SpecNamespace)
    ensures
        normalized_namespace(ns).ffi_definitions.no_duplicates(),
        forall|i: int|
            0 <= i < ns.ffi_definitions.len() ==> normalized_namespace(ns).ffi_definitions.contains(
                normalized_definition(#[trigger] ns.ffi_definitions[i], borrowed_map(ns.functions)),
            ),
{
    let m = borrowed_map(ns.functions);
    let mapped = ns.ffi_definitions.map_values(|d: SpecFfiDefinition| normalized_definition(d, m));
    lemma_dedup_contents(mapped);
    assert forall|i: int| 0 <= i < ns.ffi_definitions.len() implies normalized_namespace(
        ns,
    ).ffi_definitions.contains(
        normalized_definition(#[trigger] ns.ffi_definitions[i], borrowed_map(ns.functions)),
    ) by {
        assert(mapped[i] == normalized_definition(ns.ffi_definitions[i], m));
        assert(mapped.contains(mapped[i]));
    }
}

/// Normalisation keeps the namespace's name, its functions with their FFI
/// function names, and their arguments with their names and kinds; an
/// argument's FFI type either stays or becomes foreign bytes.
pub proof fn lemma_normalize_changes_only_ffi_types(ns: SpecNamespace)
    ensures
        ({
            let out = normalized_namespace(ns);
            &&& out.name == ns.name
            &&& out.functions.len() == ns.functions.len()
            &&& forall|i: int|
                0 <= i < ns.functions.len() ==> {
                    let f = #[trigger] ns.functions[i];
                    let g = out.functions[i];
                    &&& g.ffi_func == f.ffi_func
                    &&& g.arguments.len() == f.arguments.len()
                    &&& forall|k: int|
                        0 <= k < f.arguments.len() ==> {
                            let a = #[trigger] f.arguments[k];
                            let b = g.arguments[k];
                            &&& b.name == a.name
                            &&& b.by_ref == a.by_ref
                            &&& b.is_bytes == a.is_bytes
                            &&& (b.ffi_type == a.ffi_type || b.ffi_type == SpecFfiType::ForeignBytes)
                            &&& (a.by_ref && a.is_bytes) ==> b.ffi_type == SpecFfiType::ForeignBytes
                            &&& !(a.by_ref && a.is_bytes) ==> b == a
                        }
                }
        }),
{
}

/// The borrowed-bytes positions of a list of arguments are exactly the
/// positions of the arguments passed by reference whose type is `bytes`,
/// each once and in increasing order.
pub proof fn lemma_borrowed_indices_are_the_borrowed_bytes(args: Seq<SpecArgument>)
    requires
        args.len() <= usize::MAX,
    ensures
        forall|k: int|
            0 <= k < args.len() ==> (borrowed_indices(args).contains(k as usize) <==> (
            #[trigger] args[k]).by_ref && args[k].is_bytes),
        forall|j: int|
            0 <= j < borrowed_indices(args).len() ==> (#[trigger] borrowed_indices(args)[j])
                < args.len(),
        forall|i: int, j: int|
            0 <= i < j < borrowed_indices(args).len() ==> (#[trigger] borrowed_indices(args)[i])
                < (#[trigger] borrowed_indices(args)[j]),
    decreases args.len(),
{
    if args.len() > 0 {
        let before = args.drop_last();
        lemma_borrowed_indices_are_the_borrowed_bytes(before);
        let b = borrowed_indices(before);
        let r = borrowed_indices(args);
        let last = (args.len() - 1) as usize;
        assert(last as int == args.len() - 1);
        assert forall|x: usize| r.contains(x) <==> (b.contains(x) || (x == last
            && is_borrowed_bytes_spec(args.last()))) by {
            if is_borrowed_bytes_spec(args.last()) {
                assert(r == b.push(last));
                if r.contains(x) {
                    let w = choose|w: int| 0 <= w < r.len() && r[w] == x;
                    if w < b.len() {
                        assert(b[w] == x);
                    }
                }
                if b.contains(x) {
                    let w = choose|w: int| 0 <= w < b.len() && b[w] == x;
                    assert(r[w] == x);
                }
                if x == last {
                    assert(r[b.len() as int] == x);
                }
            } else {
                assert(r == b);
            }
        }
        assert forall|k: int| 0 <= k < args.len() implies (r.contains(k as usize) <==> (
        #[trigger] args[k]).by_ref && args[k].is_bytes) by {
            if k < args.len() - 1 {
                assert(before[k] == args[k]);
                assert(k as usize != last);
            } else {
                assert(k as usize == last);
                if b.contains(last) {
                    let w = choose|w: int| 0 <= w < b.len() && b[w] == last;
                    assert(b[w] < before.len());
                }
            }
        }
        assert forall|i: int, j: int| 0 <= i < j < r.len() implies (#[trigger] r[i]) < (
        #[trigger] r[j]) by {
            if j < b.len() {
                assert(r[i] == b[i] && r[j] == b[j]);
            } else {
                assert(r[j] == last);
                assert(r[i] == b[i]);
            }
        }
    }
}

/// The positions that the normalisation marks for an FFI function name are
/// those of the borrowed-bytes arguments of the last top-level function that
/// the FFI function implements and that has such an argument; a name has
/// positions exactly when some such function exists.
#[verifier::rlimit(60)]
pub proof fn lemma_borrowed_map_names_the_last_function(fs: Seq<SpecFunction>)
    requires
        forall|j: int| 0 <= j < fs.len() ==> (#[trigger] fs[j]).arguments.len() <= usize::MAX,
    ensures
        forall|name: Seq<char>|
            #![trigger borrowed_map(fs).contains_key(name)]
            borrowed_map(fs).contains_key(name) <==> exists|j: int|
                0 <= j < fs.len() && (#[trigger] fs[j]).ffi_func == name && exists|k: int|
                    0 <= k < fs[j].arguments.len() && (#[trigger] fs[j].arguments[k]).by_ref
                        && fs[j].arguments[k].is_bytes,
        forall|name: Seq<char>|
            #![trigger borrowed_map(fs).contains_key(name)]
            borrowed_map(fs).contains_key(name) ==> exists|j: int|
                0 <= j < fs.len() && (#[trigger] fs[j]).ffi_func == name && borrowed_map(fs)[name]
                    == borrowed_indices(fs[j].arguments) && forall|i: int|
                    j < i < fs.len() && (#[trigger] fs[i]).ffi_func == name ==> forall|k: int|
                        0 <= k < fs[i].arguments.len() ==> !((#[trigger] fs[i].arguments[k]).by_ref
                            && fs[i].arguments[k].is_bytes),
    decreases fs.len(),
{
    if fs.len() > 0 {
        let before = fs.drop_last();
        lemma_borrowed_map_names_the_last_function(before);
        let last = fs.len() - 1;
        let f = fs[last];
        lemma_borrowed_indices_are_the_borrowed_bytes(f.arguments);
        let indices = borrowed_indices(f.arguments);
        let has = exists|k: int|
            0 <= k < f.arguments.len() && (#[trigger] f.arguments[k]).by_ref
                && f.arguments[k].is_bytes;
        assert(has <==> indices.len() > 0) by {
            if has {
                let k = choose|k: int|
                    0 <= k < f.arguments.len() && (#[trigger] f.arguments[k]).by_ref
                        && f.arguments[k].is_bytes;
                assert(indices.contains(k as usize));
            }
            if indices.len() > 0 {
                let k = indices[0] as int;
                assert(indices.contains(indices[0]));
                assert(0 <= k < f.arguments.len());
                assert(f.arguments[k].by_ref && f.arguments[k].is_bytes);
            }
        }
        let m = borrowed_map(fs);
        let mb = borrowed_map(before);
        assert forall|name: Seq<char>| #[trigger] m.contains_key(name) <==> exists|j: int|
            0 <= j < fs.len() && (#[trigger] fs[j]).ffi_func == name && exists|k: int|
                0 <= k < fs[j].arguments.len() && (#[trigger] fs[j].arguments[k]).by_ref
                    && fs[j].arguments[k].is_bytes by {
            if m.contains_key(name) {
                if has && name == f.ffi_func {
                    assert(fs[last].ffi_func == name);
                } else {
                    assert(mb.contains_key(name));
                    let j = choose|j: int|
                        0 <= j < before.len() && (#[trigger] before[j]).ffi_func == name
                            && exists|k: int|
                            0 <= k < before[j].arguments.len()
                                && (#[trigger] before[j].arguments[k]).by_ref
                                && before[j].arguments[k].is_bytes;
                    assert(fs[j] == before[j]);
                }
            }
            if exists|j: int|
                0 <= j < fs.len() && (#[trigger] fs[j]).ffi_func == name && exists|k: int|
                    0 <= k < fs[j].arguments.len() && (#[trigger] fs[j].arguments[k]).by_ref
                        && fs[j].arguments[k].is_bytes {
                let j = choose|j: int|
                    0 <= j < fs.len() && (#[trigger] fs[j]).ffi_func == name && exists|k: int|
                        0 <= k < fs[j].arguments.len() && (#[trigger] fs[j].arguments[k]).by_ref
                            && fs[j].arguments[k].is_bytes;
                if j < last {
                    assert(before[j] == fs[j]);
                    assert(mb.contains_key(name));
                }
            }
        }
        assert forall|name: Seq<char>| #[trigger] m.contains_key(name) implies exists|j: int|
            0 <= j < fs.len() && (#[trigger] fs[j]).ffi_func == name && m[name]
                == borrowed_indices(fs[j].arguments) && forall|i: int|
                j < i < fs.len() && (#[trigger] fs[i]).ffi_func == name ==> forall|k: int|
                    0 <= k < fs[i].arguments.len() ==> !((#[trigger] fs[i].arguments[k]).by_ref
                        && fs[i].arguments[k].is_bytes) by {
            if has && name == f.ffi_func {
                assert(fs[last].ffi_func == name);
                assert(m[name] == borrowed_indices(fs[last].arguments));
            } else {
                assert(mb.contains_key(name));
                let j = choose|j: int|
                    0 <= j < before.len() && (#[trigger] before[j]).ffi_func == name && mb[name]
                        == borrowed_indices(before[j].arguments) && forall|i: int|
                        j < i < before.len() && (#[trigger] before[i]).ffi_func == name
                            ==> forall|k: int|
                            0 <= k < before[i].arguments.len()
                                ==> !((#[trigger] before[i].arguments[k]).by_ref
                                && before[i].arguments[k].is_bytes);
                assert(fs[j] == before[j]);
                assert forall|i: int| j < i < fs.len() && (#[trigger] fs[i]).ffi_func == name implies forall|k: int|
                    0 <= k < fs[i].arguments.len() ==> !((#[trigger] fs[i].arguments[k]).by_ref
                        && fs[i].arguments[k].is_bytes) by {
                    if i < last {
                        assert(fs[i] == before[i]);
                    }
                }
            }
        }
    }
}

/// `after` is `before` with the arguments at the positions in `positions`
/// passed as foreign bytes and every other argument kept as it was.
pub open spec fn marked_only_at(
    before: Seq<SpecFfiArgument>,
    after: Seq<SpecFfiArgument>,
    positions: Seq<usize>,
) -> bool {
    &&& after.len() == before.len()
    &&& forall|k: int|
        0 <= k < before.len() ==> if positions.contains(k as usize) {
            (#[trigger] after[k]).name == before[k].name && after[k].ty
                == SpecFfiType::ForeignBytes
        } else {
            after[k] == before[k]
        }
}

/// Normalising a definition: a Rust function keeps its name and everything
/// but its arguments; an argument at a borrowed-bytes position for that name
/// becomes foreign bytes and every other argument keeps its type; any other
/// definition is left as it is.
pub proof fn lemma_normalized_definition_marks_only_borrowed_positions(
    d: SpecFfiDefinition,
    m: Map<Seq<char>, Seq<usize>>,
)
    ensures
        match d {
            SpecFfiDefinition::RustFunction(f) => {
                &&& normalized_definition(d, m) is RustFunction
                &&& {
                    let g = normalized_definition(d, m)->RustFunction_0;
                    &&& g.name == f.name
                    &&& g.async_data == f.async_data
                    &&& g.return_type == f.return_type
                    &&& g.has_rust_call_status_arg == f.has_rust_call_status_arg
                    &&& g.kind == f.kind
                    &&& marked_only_at(
                        f.arguments,
                        g.arguments,
                        if m.contains_key(f.name) {
                            m[f.name]
                        } else {
                            Seq::empty()
                        },
                    )
                }
            },
            _ => normalized_definition(d, m) == d,
        },
{
}

/// `after` is `before` normalised with the borrowed-bytes positions `m`:
/// a Rust function keeps its name and everything but its arguments, and only
/// the arguments at the positions for its name become foreign bytes; any
/// other definition is unchanged.
pub open spec fn normalized_from(
    before: SpecFfiDefinition,
    after: SpecFfiDefinition,
    m: Map<Seq<char>, Seq<usize>>,
) -> bool {
    match (before, after) {
        (SpecFfiDefinition::RustFunction(f), SpecFfiDefinition::RustFunction(g)) => {
            &&& g.name == f.name
            &&& g.async_data == f.async_data
            &&& g.return_type == f.return_type
            &&& g.has_rust_call_status_arg == f.has_rust_call_status_arg
            &&& g.kind == f.kind
            &&& marked_only_at(
                f.arguments,
                g.arguments,
                if m.contains_key(f.name) {
                    m[f.name]
                } else {
                    Seq::empty()
                },
            )
        },
        (x, y) => x == y && !(x is RustFunction),
    }
}

/// Every definition of a normalised namespace is one of the namespace's
/// definitions in which, for a Rust function, exactly the arguments at the
/// borrowed-bytes positions for its name became foreign bytes.
pub proof fn lemma_normalized_definitions_come_from_the_namespace(ns: SpecNamespace)
    ensures
        forall|i: int|
            #![trigger normalized_namespace(ns).ffi_definitions[i]]
            0 <= i < normalized_namespace(ns).ffi_definitions.len() ==> exists|w: int|
                0 <= w < ns.ffi_definitions.len() && normalized_from(
                    #[trigger] ns.ffi_definitions[w],
                    normalized_namespace(ns).ffi_definitions[i],
                    borrowed_map(ns.functions),
                ),
{
    let out = normalized_namespace(ns);
    let m = borrowed_map(ns.functions);
    let mapped = ns.ffi_definitions.map_values(|d: SpecFfiDefinition| normalized_definition(d, m));
    lemma_dedup_contents(mapped);
    assert forall|i: int|
        #![trigger out.ffi_definitions[i]]
        0 <= i < out.ffi_definitions.len() implies exists|w: int|
        0 <= w < ns.ffi_definitions.len() && normalized_from(
            #[trigger] ns.ffi_definitions[w],
            out.ffi_definitions[i],
            m,
        ) by {
        let x = out.ffi_definitions[i];
        assert(out.ffi_definitions == dedup(mapped));
        assert(out.ffi_definitions.contains(x));
        assert(mapped.contains(x));
        let w = choose|w: int| 0 <= w < mapped.len() && mapped[w] == x;
        lemma_normalized_definition_marks_only_borrowed_positions(ns.ffi_definitions[w], m);
        assert(normalized_from(ns.ffi_definitions[w], x, m));
    }
}

} // verus!
