//! Errors of a compilation and the list that collects them.
use vstd::prelude::*;

use crate::dict::views;

verus! {

/// A range of positions in the source text.
#[derive(Clone, Copy, PartialEq, Eq, Structural, Debug)]
pub struct Span {
    pub low: usize,
    pub high: usize,
}

/// What the language does not support.
#[derive(Clone, Copy, PartialEq, Eq, Structural, Debug)]
pub enum Unsupported {
    NativeInNonNative,
    NonStaticStructMember,
    FinalWithoutBody,
    NativeWithBody,
    AnnotatedFuncWithNoBody,
    InvalidAnnotation,
    GlobalLetBinding,
    ExtendingFinalClass,
}

/// An error in the use of types.
pub enum TypeError {
    UnresolvedType(String),
}

pub enum TypeErrorV {
    UnresolvedType(Seq<char>),
}

impl View for TypeError {
    type V = TypeErrorV;

    open spec fn view(&self) -> TypeErrorV {
        match self {
            TypeError::UnresolvedType(name) => TypeErrorV::UnresolvedType(name@),
        }
    }
}

/// An error of a compilation, with the place in the source that it is about.
pub enum CompileError {
    TypeError(TypeError, Span),
    UnresolvedImport(Vec<String>, Span),
    UnresolvedFunction(String, Span),
    UnimplementedMethod(String, Span),
    Unsupported(Unsupported, Span),
}

pub enum CompileErrorV {
    TypeError(TypeErrorV, Span),
    UnresolvedImport(Seq<Seq<char>>, Span),
    UnresolvedFunction(Seq<char>, Span),
    UnimplementedMethod(Seq<char>, Span),
    Unsupported(Unsupported, Span),
}

impl View for CompileError {
    type V = CompileErrorV;

    open spec fn view(&self) -> CompileErrorV {
        match self {
            CompileError::TypeError(err, span) => CompileErrorV::TypeError(err@, *span),
            CompileError::UnresolvedImport(path, span) => CompileErrorV::UnresolvedImport(
                views(path@),
                *span,
            ),
            CompileError::UnresolvedFunction(name, span) => CompileErrorV::UnresolvedFunction(
                name@,
                *span,
            ),
            CompileError::UnimplementedMethod(name, span) => CompileErrorV::UnimplementedMethod(
                name@,
                *span,
            ),
            CompileError::Unsupported(what, span) => CompileErrorV::Unsupported(*what, *span),
        }
    }
}

/// A type that a name does not lead to.
pub open spec fn unresolved_type(name: Seq<char>, span: Span) -> CompileErrorV {
    CompileErrorV::TypeError(TypeErrorV::UnresolvedType(name), span)
}

/// The errors reported so far, oldest first.
pub struct ErrorReporter {
    errors: Vec<CompileError>,
}

impl View for ErrorReporter {
    type V = Seq<CompileErrorV>;

    closed spec fn view(&self) -> Seq<CompileErrorV> {
        views(self.errors@)
    }
}

impl ErrorReporter {
    pub fn new() -> (res: ErrorReporter)
        ensures
            res@ == Seq::<CompileErrorV>::empty(),
    {
        broadcast use crate::dict::group_views;

        ErrorReporter { errors: Vec::new() }
    }

    pub fn report(&mut self, err: CompileError)
        ensures
            final(self)@ == old(self)@.push(err@),
    {
        broadcast use crate::dict::group_views;

        self.errors.push(err);
    }

    /// The value of a result. An error is reported.
    pub fn unwrap_err<T>(&mut self, res: Result<T, CompileError>) -> (val: Option<T>)
        ensures
            match res {
                Ok(x) => val == Some(x) && final(self)@ == old(self)@,
                Err(err) => val is None && final(self)@ == old(self)@.push(err@),
            },
    {
        match res {
            Ok(x) => Some(x),
            Err(err) => {
                self.report(err);
                None
            },
        }
    }

    pub fn len(&self) -> (n: usize)
        ensures
            n == self@.len(),
    {
        self.errors.len()
    }

    /// All errors, oldest first.
    pub fn into_errors(self) -> (res: Vec<CompileError>)
        ensures
            views(res@) == self@,
    {
        self.errors
    }
}

} // verus!
