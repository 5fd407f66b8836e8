//! The part of a UniFFI component's interface that the normalisation of
//! borrowed-bytes arguments reads and writes: namespaces, their top-level
//! functions with their arguments, and their FFI definitions.
//!
//! Every type has a view made of mathematical values (names as `Seq<char>`,
//! lists as `Seq`), and the equality functions compare two values by their
//! views, which is what a set of FFI definitions counts as a duplicate.

use vstd::prelude::*;

verus! {

/// Owner of a 64-bit handle passed across the FFI.
#[derive(Debug, PartialEq, Eq)]
pub enum HandleKind {
    RustFuture,
    ForeignFuture,
    ForeignFutureCallbackData,
    StructInterface { namespace: String, interface_name: String },
    TraitInterface { namespace: String, interface_name: String },
}

pub enum SpecHandleKind {
    RustFuture,
    ForeignFuture,
    ForeignFutureCallbackData,
    StructInterface { namespace: Seq<char>, interface_name: Seq<char> },
    TraitInterface { namespace: Seq<char>, interface_name: Seq<char> },
}

impl View for HandleKind {
    type V = SpecHandleKind;

    open spec fn view(&self) -> SpecHandleKind {
        match self {
            HandleKind::RustFuture => SpecHandleKind::RustFuture,
            HandleKind::ForeignFuture => SpecHandleKind::ForeignFuture,
            HandleKind::ForeignFutureCallbackData => SpecHandleKind::ForeignFutureCallbackData,
            HandleKind::StructInterface { namespace, interface_name } => SpecHandleKind::StructInterface {
                namespace: namespace@,
                interface_name: interface_name@,
            },
            HandleKind::TraitInterface { namespace, interface_name } => SpecHandleKind::TraitInterface {
                namespace: namespace@,
                interface_name: interface_name@,
            },
        }
    }
}

/// Type of a value at the FFI layer.
#[derive(Debug, PartialEq, Eq)]
pub enum FfiType {
    UInt8,
    Int8,
    UInt16,
    Int16,
    UInt32,
    Int32,
    UInt64,
    Int64,
    Float32,
    Float64,
    /// A byte buffer owned by Rust; the name of the namespace for user types.
    RustBuffer(Option<String>),
    /// Bytes borrowed from the foreign side for the duration of one call.
    ForeignBytes,
    /// Value of a function-type definition, by name.
    Function(String),
    /// Pointer to a struct definition, by name.
    Struct(String),
    Handle(HandleKind),
    RustCallStatus,
    Reference(Box<FfiType>),
    MutReference(Box<FfiType>),
    VoidPointer,
}

pub enum SpecFfiType {
    UInt8,
    Int8,
    UInt16,
    Int16,
    UInt32,
    Int32,
    UInt64,
    Int64,
    Float32,
    Float64,
    RustBuffer(Option<Seq<char>>),
    ForeignBytes,
    Function(Seq<char>),
    Struct(Seq<char>),
    Handle(SpecHandleKind),
    RustCallStatus,
    Reference(Box<SpecFfiType>),
    MutReference(Box<SpecFfiType>),
    VoidPointer,
}

/// The view of the value that an `Option` holds, if it holds one.
pub open spec fn option_view<T: View>(o: Option<T>) -> Option<T::V> {
    match o {
        Some(x) => Some(x@),
        None => None,
    }
}

pub open spec fn ffi_type_view(t: FfiType) -> SpecFfiType
    decreases t,
{
    match t {
        FfiType::UInt8 => SpecFfiType::UInt8,
        FfiType::Int8 => SpecFfiType::Int8,
        FfiType::UInt16 => SpecFfiType::UInt16,
        FfiType::Int16 => SpecFfiType::Int16,
        FfiType::UInt32 => SpecFfiType::UInt32,
        FfiType::Int32 => SpecFfiType::Int32,
        FfiType::UInt64 => SpecFfiType::UInt64,
        FfiType::Int64 => SpecFfiType::Int64,
        FfiType::Float32 => SpecFfiType::Float32,
        FfiType::Float64 => SpecFfiType::Float64,
        FfiType::RustBuffer(owner) => SpecFfiType::RustBuffer(option_view(owner)),
        FfiType::ForeignBytes => SpecFfiType::ForeignBytes,
        FfiType::Function(name) => SpecFfiType::Function(name@),
        FfiType::Struct(name) => SpecFfiType::Struct(name@),
        FfiType::Handle(kind) => SpecFfiType::Handle(kind@),
        FfiType::RustCallStatus => SpecFfiType::RustCallStatus,
        FfiType::Reference(inner) => SpecFfiType::Reference(Box::new(ffi_type_view(*inner))),
        FfiType::MutReference(inner) => SpecFfiType::MutReference(Box::new(ffi_type_view(*inner))),
        FfiType::VoidPointer => SpecFfiType::VoidPointer,
    }
}

impl View for FfiType {
    type V = SpecFfiType;

    open spec fn view(&self) -> SpecFfiType {
        ffi_type_view(*self)
    }
}

/// Names of the functions that drive an async call across the FFI.
#[derive(Debug, PartialEq, Eq)]
pub struct AsyncData {
    pub ffi_rust_future_poll: String,
    pub ffi_rust_future_cancel: String,
    pub ffi_rust_future_free: String,
    pub ffi_rust_future_complete: String,
    pub ffi_foreign_future_complete: String,
    pub ffi_foreign_future_result: String,
}

pub struct SpecAsyncData {
    pub ffi_rust_future_poll: Seq<char>,
    pub ffi_rust_future_cancel: Seq<char>,
    pub ffi_rust_future_free: Seq<char>,
    pub ffi_rust_future_complete: Seq<char>,
    pub ffi_foreign_future_complete: Seq<char>,
    pub ffi_foreign_future_result: Seq<char>,
}

impl View for AsyncData {
    type V = SpecAsyncData;

    open spec fn view(&self) -> SpecAsyncData {
        SpecAsyncData {
            ffi_rust_future_poll: self.ffi_rust_future_poll@,
            ffi_rust_future_cancel: self.ffi_rust_future_cancel@,
            ffi_rust_future_free: self.ffi_rust_future_free@,
            ffi_rust_future_complete: self.ffi_rust_future_complete@,
            ffi_foreign_future_complete: self.ffi_foreign_future_complete@,
            ffi_foreign_future_result: self.ffi_foreign_future_result@,
        }
    }
}

/// What an FFI function is for.
#[derive(Clone, Copy, PartialEq, Eq, Structural, Debug)]
pub enum FfiFunctionKind {
    Scaffolding,
    ObjectClone,
    ObjectFree,
    RustFuturePoll,
    RustFutureComplete,
    RustFutureCancel,
    RustFutureFree,
    RustBufferFromBytes,
    RustBufferFree,
    RustBufferAlloc,
    RustBufferReserve,
    RustVtableInit,
    UniffiContractVersion,
    Checksum,
}

/// A named, typed argument of an FFI function or function type.
#[derive(Debug, PartialEq, Eq)]
pub struct FfiArgument {
    pub name: String,
    pub ty: FfiType,
}

pub struct SpecFfiArgument {
    pub name: Seq<char>,
    pub ty: SpecFfiType,
}

impl View for FfiArgument {
    type V = SpecFfiArgument;

    open spec fn view(&self) -> SpecFfiArgument {
        SpecFfiArgument { name: self.name@, ty: self.ty@ }
    }
}

/// A named, typed field of an FFI struct.
#[derive(Debug, PartialEq, Eq)]
pub struct FfiField {
    pub name: String,
    pub ty: FfiType,
}

pub struct SpecFfiField {
    pub name: Seq<char>,
    pub ty: SpecFfiType,
}

impl View for FfiField {
    type V = SpecFfiField;

    open spec fn view(&self) -> SpecFfiField {
        SpecFfiField { name: self.name@, ty: self.ty@ }
    }
}

/// The view of every element of `s`.
pub open spec fn views<T: View>(s: Seq<T>) -> Seq<T::V> {
    s.map_values(|x: T| x@)
}

/// A function exported by the Rust library.
#[derive(Debug, PartialEq, Eq)]
pub struct FfiFunction {
    pub name: String,
    pub async_data: Option<AsyncData>,
    pub arguments: Vec<FfiArgument>,
    pub return_type: Option<FfiType>,
    pub has_rust_call_status_arg: bool,
    pub kind: FfiFunctionKind,
}

pub struct SpecFfiFunction {
    pub name: Seq<char>,
    pub async_data: Option<SpecAsyncData>,
    pub arguments: Seq<SpecFfiArgument>,
    pub return_type: Option<SpecFfiType>,
    pub has_rust_call_status_arg: bool,
    pub kind: FfiFunctionKind,
}

impl View for FfiFunction {
    type V = SpecFfiFunction;

    open spec fn view(&self) -> SpecFfiFunction {
        SpecFfiFunction {
            name: self.name@,
            async_data: option_view(self.async_data),
            arguments: views(self.arguments@),
            return_type: option_view(self.return_type),
            has_rust_call_status_arg: self.has_rust_call_status_arg,
            kind: self.kind,
        }
    }
}

/// A function pointer type used in the interface, such as a callback.
#[derive(Debug, PartialEq, Eq)]
pub struct FfiFunctionType {
    pub name: String,
    pub arguments: Vec<FfiArgument>,
    pub return_type: Option<FfiType>,
    pub has_rust_call_status_arg: bool,
}

pub struct SpecFfiFunctionType {
    pub name: Seq<char>,
    pub arguments: Seq<SpecFfiArgument>,
    pub return_type: Option<SpecFfiType>,
    pub has_rust_call_status_arg: bool,
}

impl View for FfiFunctionType {
    type V = SpecFfiFunctionType;

    open spec fn view(&self) -> SpecFfiFunctionType {
        SpecFfiFunctionType {
            name: self.name@,
            arguments: views(self.arguments@),
            return_type: option_view(self.return_type),
            has_rust_call_status_arg: self.has_rust_call_status_arg,
        }
    }
}

/// A struct used in the interface, such as a callback vtable.
#[derive(Debug, PartialEq, Eq)]
pub struct FfiStruct {
    pub name: String,
    pub fields: Vec<FfiField>,
}

pub struct SpecFfiStruct {
    pub name: Seq<char>,
    pub fields: Seq<SpecFfiField>,
}

impl View for FfiStruct {
    type V = SpecFfiStruct;

    open spec fn view(&self) -> SpecFfiStruct {
        SpecFfiStruct { name: self.name@, fields: views(self.fields@) }
    }
}

/// One definition of a namespace's FFI.
#[derive(Debug, PartialEq, Eq)]
pub enum FfiDefinition {
    RustFunction(FfiFunction),
    FunctionType(FfiFunctionType),
    Struct(FfiStruct),
}

pub enum SpecFfiDefinition {
    RustFunction(SpecFfiFunction),
    FunctionType(SpecFfiFunctionType),
    Struct(SpecFfiStruct),
}

impl View for FfiDefinition {
    type V = SpecFfiDefinition;

    open spec fn view(&self) -> SpecFfiDefinition {
        match self {
            FfiDefinition::RustFunction(f) => SpecFfiDefinition::RustFunction(f@),
            FfiDefinition::FunctionType(f) => SpecFfiDefinition::FunctionType(f@),
            FfiDefinition::Struct(s) => SpecFfiDefinition::Struct(s@),
        }
    }
}

/// An argument of a top-level function: what the normalisation reads of it
/// (whether it is passed by reference, whether its type is `bytes`) and the
/// FFI type it is passed as.
#[derive(Debug, PartialEq, Eq)]
pub struct Argument {
    pub name: String,
    pub by_ref: bool,
    pub is_bytes: bool,
    pub ffi_type: FfiType,
}

pub struct SpecArgument {
    pub name: Seq<char>,
    pub by_ref: bool,
    pub is_bytes: bool,
    pub ffi_type: SpecFfiType,
}

impl View for Argument {
    type V = SpecArgument;

    open spec fn view(&self) -> SpecArgument {
        SpecArgument {
            name: self.name@,
            by_ref: self.by_ref,
            is_bytes: self.is_bytes,
            ffi_type: self.ffi_type@,
        }
    }
}

/// A borrowed `&[u8]` argument, which crosses the FFI as foreign bytes.
pub open spec fn is_borrowed_bytes_spec(a: SpecArgument) -> bool {
    a.by_ref && a.is_bytes
}

impl Argument {
    /// True for a zero-copy `&[u8]` argument: passed by reference, of type `bytes`.
    pub fn is_borrowed_bytes(&self) -> (borrowed: bool)
        ensures
            borrowed == is_borrowed_bytes_spec(self@),
    {
        self.by_ref && self.is_bytes
    }
}

/// A top-level function: the name of the FFI function that implements it,
/// and its arguments.
#[derive(Debug, PartialEq, Eq)]
pub struct Function {
    pub ffi_func: String,
    pub arguments: Vec<Argument>,
}

pub struct SpecFunction {
    pub ffi_func: Seq<char>,
    pub arguments: Seq<SpecArgument>,
}

impl View for Function {
    type V = SpecFunction;

    open spec fn view(&self) -> SpecFunction {
        SpecFunction { ffi_func: self.ffi_func@, arguments: views(self.arguments@) }
    }
}

/// A crate that exposes a UniFFI interface.
#[derive(Debug, PartialEq, Eq)]
pub struct Namespace {
    pub name: String,
    pub functions: Vec<Function>,
    pub ffi_definitions: Vec<FfiDefinition>,
}

pub struct SpecNamespace {
    pub name: Seq<char>,
    pub functions: Seq<SpecFunction>,
    pub ffi_definitions: Seq<SpecFfiDefinition>,
}

impl View for Namespace {
    type V = SpecNamespace;

    open spec fn view(&self) -> SpecNamespace {
        SpecNamespace {
            name: self.name@,
            functions: views(self.functions@),
            ffi_definitions: views(self.ffi_definitions@),
        }
    }
}

/// All namespaces of a component, in the order in which they were loaded.
#[derive(Debug, PartialEq, Eq)]
pub struct Root {
    pub namespaces: Vec<Namespace>,
}

impl View for Root {
    type V = Seq<SpecNamespace>;

    open spec fn view(&self) -> Seq<SpecNamespace> {
        views(self.namespaces@)
    }
}

/// Comparison of two values by their views.
pub trait SameView: View + Sized {
    fn same_view(&self, other: &Self) -> (same: bool)
        ensures
            same == (self@ == other@),
    ;
}

impl SameView for String {
    fn same_view(&self, other: &Self) -> (same: bool) {
        *self == *other
    }
}

fn option_same<T: SameView>(a: &Option<T>, b: &Option<T>) -> (same: bool)
    ensures
        same == (option_view(*a) == option_view(*b)),
{
    match (a, b) {
        (Some(x), Some(y)) => x.same_view(y),
        (None, None) => true,
        _ => false,
    }
}

fn vec_same<T: SameView>(a: &Vec<T>, b: &Vec<T>) -> (same: bool)
    ensures
        same == (views(a@) == views(b@)),
{
    if a.len() != b.len() {
        proof {
            assert(views(a@).len() != views(b@).len());
        }
        return false;
    }
    let n = a.len();
    let mut i: usize = 0;
    while i < n
        invariant
            n == a@.len(),
            n == b@.len(),
            i <= n,
            forall|j: int| 0 <= j < i ==> a@[j]@ == b@[j]@,
        decreases n - i,
    {
        if !a[i].same_view(&b[i]) {
            proof {
                assert(views(a@)[i as int] != views(b@)[i as int]);
            }
            return false;
        }
        i += 1;
    }
    proof {
        assert(views(a@) =~= views(b@));
    }
    true
}

impl SameView for HandleKind {
    fn same_view(&self, other: &Self) -> (same: bool) {
        match (self, other) {
            (HandleKind::RustFuture, HandleKind::RustFuture) => true,
            (HandleKind::ForeignFuture, HandleKind::ForeignFuture) => true,
            (HandleKind::ForeignFutureCallbackData, HandleKind::ForeignFutureCallbackData) => true,
            (
                HandleKind::StructInterface { namespace: n1, interface_name: i1 },
                HandleKind::StructInterface { namespace: n2, interface_name: i2 },
            ) => n1.same_view(n2) && i1.same_view(i2),
            (
                HandleKind::TraitInterface { namespace: n1, interface_name: i1 },
                HandleKind::TraitInterface { namespace: n2, interface_name: i2 },
            ) => n1.same_view(n2) && i1.same_view(i2),
            _ => false,
        }
    }
}

fn ffi_type_same(a: &FfiType, b: &FfiType) -> (same: bool)
    ensures
        same == (a@ == b@),
    decreases a,
{
    match (a, b) {
        (FfiType::UInt8, FfiType::UInt8) => true,
        (FfiType::Int8, FfiType::Int8) => true,
        (FfiType::UInt16, FfiType::UInt16) => true,
        (FfiType::Int16, FfiType::Int16) => true,
        (FfiType::UInt32, FfiType::UInt32) => true,
        (FfiType::Int32, FfiType::Int32) => true,
        (FfiType::UInt64, FfiType::UInt64) => true,
        (FfiType::Int64, FfiType::Int64) => true,
        (FfiType::Float32, FfiType::Float32) => true,
        (FfiType::Float64, FfiType::Float64) => true,
        (FfiType::RustBuffer(x), FfiType::RustBuffer(y)) => option_same(x, y),
        (FfiType::ForeignBytes, FfiType::ForeignBytes) => true,
        (FfiType::Function(x), FfiType::Function(y)) => x.same_view(y),
        (FfiType::Struct(x), FfiType::Struct(y)) => x.same_view(y),
        (FfiType::Handle(x), FfiType::Handle(y)) => x.same_view(y),
        (FfiType::RustCallStatus, FfiType::RustCallStatus) => true,
        (FfiType::Reference(x), FfiType::Reference(y)) => ffi_type_same(x, y),
        (FfiType::MutReference(x), FfiType::MutReference(y)) => ffi_type_same(x, y),
        (FfiType::VoidPointer, FfiType::VoidPointer) => true,
        _ => false,
    }
}

impl SameView for FfiType {
    fn same_view(&self, other: &Self) -> (same: bool) {
        ffi_type_same(self, other)
    }
}

impl SameView for AsyncData {
    fn same_view(&self, other: &Self) -> (same: bool) {
        self.ffi_rust_future_poll.same_view(&other.ffi_rust_future_poll)
            && self.ffi_rust_future_cancel.same_view(&other.ffi_rust_future_cancel)
            && self.ffi_rust_future_free.same_view(&other.ffi_rust_future_free)
            && self.ffi_rust_future_complete.same_view(&other.ffi_rust_future_complete)
            && self.ffi_foreign_future_complete.same_view(&other.ffi_foreign_future_complete)
            && self.ffi_foreign_future_result.same_view(&other.ffi_foreign_future_result)
    }
}

impl SameView for FfiArgument {
    fn same_view(&self, other: &Self) -> (same: bool) {
        self.name.same_view(&other.name) && self.ty.same_view(&other.ty)
    }
}

impl SameView for FfiField {
    fn same_view(&self, other: &Self) -> (same: bool) {
        self.name.same_view(&other.name) && self.ty.same_view(&other.ty)
    }
}

impl SameView for FfiFunction {
    fn same_view(&self, other: &Self) -> (same: bool) {
        self.name.same_view(&other.name) && option_same(&self.async_data, &other.async_data)
            && vec_same(&self.arguments, &other.arguments) && option_same(
            &self.return_type,
            &other.return_type,
        ) && self.has_rust_call_status_arg == other.has_rust_call_status_arg && self.kind
            == other.kind
    }
}

impl SameView for FfiFunctionType {
    fn same_view(&self, other: &Self) -> (same: bool) {
        self.name.same_view(&other.name) && vec_same(&self.arguments, &other.arguments)
            && option_same(&self.return_type, &other.return_type)
            && self.has_rust_call_status_arg == other.has_rust_call_status_arg
    }
}

impl SameView for FfiStruct {
    fn same_view(&self, other: &Self) -> (same: bool) {
        self.name.same_view(&other.name) && vec_same(&self.fields, &other.fields)
    }
}

impl SameView for FfiDefinition {
    fn same_view(&self, other: &Self) -> (same: bool) {
        match (self, other) {
            (FfiDefinition::RustFunction(x), FfiDefinition::RustFunction(y)) => x.same_view(y),
            (FfiDefinition::FunctionType(x), FfiDefinition::FunctionType(y)) => x.same_view(y),
            (FfiDefinition::Struct(x), FfiDefinition::Struct(y)) => x.same_view(y),
            _ => false,
        }
    }
}

} // verus!
