//! The parts of a parsed source file that the compiler looks at.
//!
//! The statements of a function body are left to type checking: here a body is only a number
//! under which its syntax tree is kept.
use vstd::prelude::*;

use crate::builders::EnumMember;
use crate::error::Span;
use crate::flags::Qualifiers;

verus! {

/// The number under which the syntax tree of a function body is kept.
pub type BodyId = usize;

/// A type as it is written: a name with arguments.
pub struct TypeName {
    pub name: String,
    pub args: Vec<TypeName>,
}

/// A type parameter as it is written, with the type that it extends.
pub struct TypeParam {
    pub name: String,
    pub extends: Option<TypeName>,
}

#[derive(Clone, Copy, PartialEq, Eq, Structural, Debug)]
pub enum AnnotationKind {
    AddMethod,
    AddField,
    WrapMethod,
    ReplaceMethod,
    ReplaceGlobal,
    If,
    RuntimeProperty,
}

/// An argument of an annotation: an identifier, or any other expression.
pub enum AnnotationArg {
    Ident(String, Span),
    Other(Span),
}

pub struct Annotation {
    pub kind: AnnotationKind,
    pub args: Vec<AnnotationArg>,
    pub span: Span,
}

/// What a field and a function declaration have in common.
pub struct Declaration {
    pub annotations: Vec<Annotation>,
    pub qualifiers: Qualifiers,
    pub name: String,
    pub span: Span,
}

pub struct ParameterSource {
    pub qualifiers: Qualifiers,
    pub name: String,
    pub type_: TypeName,
}

pub struct FunctionSource {
    pub decl: Declaration,
    pub tparams: Vec<TypeParam>,
    pub parameters: Vec<ParameterSource>,
    pub type_: Option<TypeName>,
    pub body: Option<BodyId>,
}

pub struct FieldSource {
    pub declaration: Declaration,
    pub type_: TypeName,
}

pub enum MemberSource {
    Method(FunctionSource),
    Field(FieldSource),
}

pub struct ClassSource {
    pub qualifiers: Qualifiers,
    pub name: String,
    pub tparams: Vec<TypeParam>,
    pub base: Option<TypeName>,
    pub members: Vec<MemberSource>,
    pub span: Span,
}

pub struct EnumSource {
    pub name: String,
    pub members: Vec<EnumMember>,
    pub span: Span,
}

/// A declaration at the top of a source file.
pub enum SourceEntry {
    Class(ClassSource),
    Struct(ClassSource),
    Function(FunctionSource),
    GlobalLet(FieldSource),
    Enum(EnumSource),
}

/// An import: of one item, of some items of a module, or of all of them.
pub enum Import {
    Exact(Vec<String>, Span),
    Selected(Vec<String>, Vec<String>, Span),
    All(Vec<String>, Span),
}

/// A source file. A file that names no module has an empty path.
pub struct SourceModule {
    pub path: Vec<String>,
    pub imports: Vec<Import>,
    pub entries: Vec<SourceEntry>,
}

/// What the grammar expected where a file could not be parsed, counted from the start of the file.
pub struct GrammarError {
    pub expected: Vec<String>,
    pub offset: usize,
}

/// A file that has been through the parser, and where it starts among all files.
pub struct ParsedFile {
    pub byte_offset: usize,
    pub result: Result<SourceModule, GrammarError>,
}

/// A file that could not be parsed: what was expected, and where among all files.
pub struct ParseError {
    pub expected: Vec<String>,
    pub span: Span,
}

} // verus!
