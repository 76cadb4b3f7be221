//! The declaration tree that the transformer reads and writes.
use vstd::prelude::*;

verus! {

/// The calling-convention marker that the front-end found on a method.
#[derive(Clone, Copy, Debug, PartialEq, Eq, Structural)]
pub enum Marker {
    /// Marked as callable from the JVM through the native interface.
    Jni,
    /// Marked as a call from the host into the JVM.
    JavaCall,
    /// No marker.
    Plain,
}

/// Which conversion family an exported method uses.
#[derive(Clone, Copy, Debug, PartialEq, Eq, Structural)]
pub enum CallType {
    /// Conversions may fail, and the failure is surfaced.
    Safe,
    /// Conversions are assumed to succeed; a failure panics.
    Unchecked,
}

/// The role a method plays in the generated bridge.
#[derive(Clone, Copy, Debug, PartialEq, Eq, Structural)]
pub enum Role {
    Exported,
    Imported,
    Unexported,
}

/// Which associated type of a conversion a substituted type names.
#[derive(Clone, Copy, Debug, PartialEq, Eq, Structural)]
pub enum Projection {
    /// The JNI type a parameter arrives as.
    Source,
    /// The JNI type a result leaves as.
    Target,
}

/// A nominal type: its path as written, without lifetime arguments, and
/// its lifetime arguments (names without the apostrophe).
#[derive(Debug, PartialEq, Eq)]
pub struct TypePath {
    pub name: String,
    pub lifetimes: Vec<String>,
}

#[derive(Debug, PartialEq, Eq)]
pub enum TypeExpr {
    /// A nominal type.
    Path(TypePath),
    /// `&'lifetime mut? elem`.
    Reference { lifetime: Option<String>, mutable: bool, elem: Box<TypeExpr> },
    /// The associated type of the conversion of `ty` chosen by the call type:
    /// `<ty as (Try)FromJavaValue<'env>>::Source` or `<ty as (Try)IntoJavaValue<'env>>::Target`.
    Converted { ty: Box<TypeExpr>, call_type: CallType, projection: Projection },
    /// Any other type (tuple, slice, function pointer, ...), as written.
    Other(String),
}

#[derive(Debug, PartialEq, Eq)]
pub enum GenericParam {
    Lifetime(String),
    Type(String),
}

/// An attribute other than the role and call-type markers.
#[derive(Debug, PartialEq, Eq)]
pub struct Attribute {
    pub path: String,
    pub args: String,
}

/// A parameter with a pattern name and a type.
#[derive(Debug, PartialEq, Eq)]
pub struct Param {
    pub name: String,
    pub ty: TypeExpr,
}

#[derive(Debug, PartialEq, Eq)]
pub enum FnArg {
    /// `self`, `&self`, `&'a mut self`, ...
    Receiver { reference: bool, lifetime: Option<String>, mutable: bool },
    Typed(Param),
}

/// A method of a method block.
#[derive(Debug, PartialEq, Eq)]
pub struct Method {
    pub attrs: Vec<Attribute>,
    pub public: bool,
    pub marker: Marker,
    pub call_type: Option<CallType>,
    pub name: String,
    pub generics: Vec<GenericParam>,
    pub inputs: Vec<FnArg>,
    pub output: Option<TypeExpr>,
    pub body: String,
}

/// A freestanding `extern "system"` function with an unmangled symbol.
#[derive(Debug, PartialEq, Eq)]
pub struct NativeFn {
    pub attrs: Vec<Attribute>,
    pub symbol: String,
    pub generics: Vec<GenericParam>,
    pub inputs: Vec<FnArg>,
    pub output: Option<TypeExpr>,
    pub body: String,
}

/// `impl<generics> (trait for)? self_ty { methods }`.
#[derive(Debug, PartialEq, Eq)]
pub struct ImplBlock {
    pub attrs: Vec<Attribute>,
    pub generics: Vec<GenericParam>,
    pub trait_name: Option<String>,
    pub self_ty: TypeExpr,
    pub methods: Vec<Method>,
}

/// A struct declaration; its generics and fields are kept as written.
#[derive(Debug, PartialEq, Eq)]
pub struct StructItem {
    pub attrs: Vec<Attribute>,
    pub name: String,
    pub rest: String,
}

#[derive(Debug, PartialEq, Eq)]
pub struct ModItem {
    pub attrs: Vec<Attribute>,
    pub name: String,
    pub items: Vec<Item>,
}

#[derive(Debug, PartialEq, Eq)]
pub enum Item {
    Impl(ImplBlock),
    Struct(StructItem),
    Mod(ModItem),
    Native(NativeFn),
    /// The imports that generated code needs: the conversion traits and the
    /// JNI object-handle types.
    Bindings,
    /// Any other item, as written.
    Other(String),
}

/// The Java package of a declared type, `None` where it could not be resolved.
#[derive(Debug, PartialEq, Eq)]
pub struct PackageEntry {
    pub ty_name: String,
    pub package: Option<String>,
}

/// What the front-end hands over: the module and its package map.
#[derive(Debug, PartialEq, Eq)]
pub struct JNIBridgeModule {
    pub module_decl: ModItem,
    pub package_map: Vec<PackageEntry>,
}

#[derive(Clone, Copy, Debug, PartialEq, Eq, Structural)]
pub enum Severity {
    Warning,
    Error,
}

#[derive(Clone, Copy, Debug, PartialEq, Eq, Structural)]
pub enum DiagnosticKind {
    /// The self-type of a method block has no package.
    UnresolvedPackage,
    /// An instance method's type has lifetime arguments but no `'env`.
    MissingEnvLifetime,
    /// A parameter or result type is neither nominal nor a reference to a nominal type.
    NonNominalType,
    /// Every position of the identifier namespace has been used.
    NamespaceExhausted,
}

/// A problem found during a pass, with the type and method it concerns.
#[derive(Debug, PartialEq, Eq)]
pub struct Diagnostic {
    pub severity: Severity,
    pub kind: DiagnosticKind,
    pub ty_name: String,
    pub method: Option<String>,
}

/// The severity that goes with each kind of problem.
pub open spec fn severity_of(kind: DiagnosticKind) -> Severity {
    match kind {
        DiagnosticKind::UnresolvedPackage => Severity::Warning,
        _ => Severity::Error,
    }
}

/// The text shown for a diagnostic of kind `kind` about type `ty`.
pub open spec fn message_of(kind: DiagnosticKind, ty: Seq<char>) -> Seq<char> {
    match kind {
        DiagnosticKind::UnresolvedPackage => "can't find package for type `"@ + ty + "`"@,
        DiagnosticKind::MissingEnvLifetime => "type `"@ + ty
            + "` must carry exactly one environment lifetime to support instance methods"@,
        DiagnosticKind::NonNominalType => "only named types or references to named types are permitted here"@,
        DiagnosticKind::NamespaceExhausted => "no identifier is left to name a receiver of type `"@ + ty + "`"@,
    }
}

impl Diagnostic {
    pub fn message(&self) -> (r: String)
        ensures
            r@ == message_of(self.kind, self.ty_name@),
    {
        match self.kind {
            DiagnosticKind::UnresolvedPackage => {
                let mut m = String::from_str("can't find package for type `");
                m.append(self.ty_name.as_str());
                m.append("`");
                m
            },
            DiagnosticKind::MissingEnvLifetime => {
                let mut m = String::from_str("type `");
                m.append(self.ty_name.as_str());
                m.append("` must carry exactly one environment lifetime to support instance methods");
                m
            },
            DiagnosticKind::NonNominalType => String::from_str(
                "only named types or references to named types are permitted here",
            ),
            DiagnosticKind::NamespaceExhausted => {
                let mut m = String::from_str("no identifier is left to name a receiver of type `");
                m.append(self.ty_name.as_str());
                m.append("`");
                m
            },
        }
    }

    pub fn new(kind: DiagnosticKind, ty_name: String, method: Option<String>) -> (r: Diagnostic)
        ensures
            r.kind == kind,
            r.severity == severity_of(kind),
            r.ty_name == ty_name,
            r.method == method,
    {
        let severity = match kind {
            DiagnosticKind::UnresolvedPackage => Severity::Warning,
            _ => Severity::Error,
        };
        Diagnostic { severity, kind, ty_name, method }
    }
}

} // verus!
