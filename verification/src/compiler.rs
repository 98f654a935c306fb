//! The compiler: what it collects from source modules before function bodies are checked.
use vstd::prelude::*;

use crate::dict::{views, DictV, NameDict};
use crate::error::{CompileErrorV, ErrorReporter};
use crate::flags::Qualifier;
use crate::funcs::{FuncMapV, OverloadIndex};
use crate::inheritance::{inherit_ok, is_inherited, lemma_inheritance_continues};
use crate::module_map::{ImportItemV, ModuleMap, ModulesV};
use crate::modules::{
    all_walks_ok, are_offsets_ok, compile_modules, first_error, is_collected, is_parse_error,
    known_types, lemma_modules_continue, lemma_populate_reports_nothing, modules_ok, offsets_ok,
    populated, start_names, CollectedV,
};
use crate::preprocess::continues;
use crate::queue::{all_there, outputs_of, CompilationOutputs, OutputsV};
use crate::repo::{RepoV, TypeRepo};
use crate::scope::{GlobalV, Overloads};
use crate::source::{BodyId, FunctionSource, ParameterSource, ParseError, ParsedFile, SourceModule};
use crate::types::{Parameterized, ParameterizedV, Type, TypeId, TypeV};

verus! {

/// A function body that waits to be compiled, with the type variables that its function declares.
pub struct CompileBody {
    pub name: String,
    pub index: OverloadIndex,
    pub env: NameDict<Type>,
    pub parameters: Vec<ParameterSource>,
    pub body: BodyId,
    pub is_static: bool,
}

pub struct CompileBodyV {
    pub name: Seq<char>,
    pub func: int,
    pub slot: int,
    pub env: DictV<Seq<char>, TypeV>,
    pub parameters: Seq<ParameterSource>,
    pub body: BodyId,
    pub is_static: bool,
}

impl View for CompileBody {
    type V = CompileBodyV;

    open spec fn view(&self) -> CompileBodyV {
        CompileBodyV {
            name: self.name@,
            func: self.index.func as int,
            slot: self.index.slot as int,
            env: self.env@,
            parameters: self.parameters@,
            body: self.body,
            is_static: self.is_static,
        }
    }
}

/// The body of a function, if it has one. A global function counts as static.
pub open spec fn body_of(
    func: FunctionSource,
    index: int,
    slot: int,
    env: DictV<Seq<char>, TypeV>,
    is_global: bool,
) -> Option<CompileBodyV> {
    match func.body {
        Some(body) => Some(
            CompileBodyV {
                name: func.decl.name@,
                func: index,
                slot,
                env,
                parameters: func.parameters@,
                body,
                is_static: is_global || func.decl.qualifiers@.contains(Qualifier::Static),
            },
        ),
        None => None,
    }
}

impl CompileBody {
    /// The body of a function, if it has one.
    pub fn new(
        func: FunctionSource,
        index: OverloadIndex,
        env: NameDict<Type>,
        is_global: bool,
    ) -> (res: Option<CompileBody>)
        ensures
            crate::funcs::opt_view(res) == body_of(
                func,
                index.func as int,
                index.slot as int,
                env@,
                is_global,
            ),
    {
        let is_static = is_global || func.decl.qualifiers.contain(Qualifier::Static);
        match func.body {
            Some(body) => Some(
                CompileBody {
                    name: func.decl.name,
                    index,
                    env,
                    parameters: func.parameters,
                    body,
                    is_static,
                },
            ),
            None => None,
        }
    }
}

/// How an annotated function changes a class.
#[derive(Clone, Copy, PartialEq, Eq, Structural, Debug)]
pub enum MethodInjection {
    Replace,
    Add,
    Wrap,
}

/// What a declaration leaves to be compiled: the methods of a class with its type variables, a
/// global function, or a method for a class that is declared elsewhere.
pub enum ModuleItem {
    Class(Parameterized, NameDict<Type>, Vec<CompileBody>),
    Global(CompileBody),
    AnnotatedMethod(Parameterized, CompileBody, MethodInjection),
}

pub enum ModuleItemV {
    Class(ParameterizedV, DictV<Seq<char>, TypeV>, Seq<CompileBodyV>),
    Global(CompileBodyV),
    AnnotatedMethod(ParameterizedV, CompileBodyV, MethodInjection),
}

impl View for ModuleItem {
    type V = ModuleItemV;

    open spec fn view(&self) -> ModuleItemV {
        match self {
            ModuleItem::Class(this, env, funcs) => ModuleItemV::Class(this@, env@, views(funcs@)),
            ModuleItem::Global(body) => ModuleItemV::Global(body@),
            ModuleItem::AnnotatedMethod(this, body, kind) => ModuleItemV::AnnotatedMethod(
                this@,
                body@,
                *kind,
            ),
        }
    }
}

/// A module that waits to be compiled, with the names that are known in it alone.
pub struct Module {
    pub names: NameDict<Overloads>,
    pub types: NameDict<TypeId>,
    pub items: Vec<ModuleItem>,
}

pub struct ModuleV {
    pub names: DictV<Seq<char>, Seq<GlobalV>>,
    pub types: DictV<Seq<char>, Seq<char>>,
    pub items: Seq<ModuleItemV>,
}

impl View for Module {
    type V = ModuleV;

    open spec fn view(&self) -> ModuleV {
        ModuleV { names: self.names@, types: self.types@, items: views(self.items@) }
    }
}

/// The model of a compiler.
pub struct CompilerV {
    pub repo: RepoV,
    pub intrinsics: DictV<Seq<char>, ()>,
    pub defined: Seq<Seq<char>>,
    pub modules: ModulesV,
    pub queue: Seq<ModuleV>,
    pub errors: Seq<CompileErrorV>,
}

/// Whether every function that a path leads to has a name.
pub open spec fn names_known(modules: ModulesV, globals: FuncMapV) -> bool {
    forall|path: Seq<Seq<char>>| #[trigger]
        modules.dom().contains(path) ==> (modules[path] matches ImportItemV::Func(func) ==> 0
            <= func < globals.names.len())
}

impl CompilerV {
    pub open spec fn wf(self) -> bool {
        names_known(self.modules, self.repo.globals)
    }
}

/// Collects the declarations of source modules. `intrinsics` are the names of the functions that
/// have an instruction of their own.
pub struct Compiler {
    pub repo: TypeRepo,
    pub intrinsics: NameDict<()>,
    pub defined_types: Vec<TypeId>,
    pub modules: ModuleMap,
    pub compile_queue: Vec<Module>,
    pub reporter: ErrorReporter,
}

impl View for Compiler {
    type V = CompilerV;

    open spec fn view(&self) -> CompilerV {
        CompilerV {
            repo: self.repo@,
            intrinsics: self.intrinsics@,
            defined: views(self.defined_types@),
            modules: self.modules@,
            queue: views(self.compile_queue@),
            errors: self.reporter@,
        }
    }
}

impl Compiler {
    /// A compiler that starts from these types and functions.
    pub fn new(repo: TypeRepo, intrinsics: NameDict<()>) -> (res: Compiler)
        ensures
            res@ == (CompilerV {
                repo: repo@,
                intrinsics: intrinsics@,
                defined: Seq::empty(),
                modules: Map::empty(),
                queue: Seq::empty(),
                errors: Seq::empty(),
            }),
            res@.wf(),
    {
        broadcast use crate::dict::group_views;

        Compiler {
            repo,
            intrinsics,
            defined_types: Vec::new(),
            modules: ModuleMap::new(),
            compile_queue: Vec::new(),
            reporter: ErrorReporter::new(),
        }
    }
}

/// The modules of files that could be parsed.
pub open spec fn modules_in(files: Seq<ParsedFile>) -> Seq<SourceModule> {
    Seq::new(files.len(), |i: int| files[i].result->Ok_0)
}

/// Whether modules can be compiled: no declaration changes a class that is declared after it or is
/// under a condition, overriding can be worked out, and no function that waits to be compiled is
/// lost because its class is declared again.
pub open spec fn run_ok(c: CompilerV, modules: Seq<SourceModule>) -> bool {
    let at = populated(c, modules);
    let names = start_names(c);
    &&& modules_ok(at, names, modules)
    &&& forall|done: CollectedV| #[trigger]
        is_collected(at, names, modules, done) ==> {
            &&& inherit_ok(done.compiler)
            &&& forall|after: CompilerV| #[trigger]
                is_inherited(done.compiler, after) ==> all_there(after.repo, after.queue)
        }
}

/// Whether this is what compiling modules may lead to.
pub open spec fn is_run(c: CompilerV, modules: Seq<SourceModule>, out: OutputsV) -> bool {
    exists|done: CollectedV, after: CompilerV|
        {
            &&& #[trigger] is_collected(populated(c, modules), start_names(c), modules, done)
            &&& #[trigger] is_inherited(done.compiler, after)
            &&& out == outputs_of(after, populated(c, modules).types, done.names)
        }
}

/// Whether files can be compiled: the positions of syntax errors can be counted, and where there is
/// no syntax error the modules can be compiled.
pub open spec fn files_ok(c: CompilerV, files: Seq<ParsedFile>) -> bool {
    &&& offsets_ok(files)
    &&& first_error(files) == files.len() ==> run_ok(c, modules_in(files))
}

impl Compiler {
    /// Compiles files up to the point where function bodies are checked, or gives the first syntax
    /// error. There is no result where the files cannot be compiled.
    pub fn try_run(self, files: Vec<ParsedFile>) -> (res: Result<
        Option<CompilationOutputs>,
        ParseError,
    >)
        requires
            self@.wf(),
        ensures
            match res {
                Ok(Some(out)) => first_error(files@) == files@.len() && is_run(
                    self@,
                    modules_in(files@),
                    out@,
                ),
                Ok(None) => !files_ok(self@, files@),
                Err(err) => first_error(files@) < files@.len() && is_parse_error(
                    files@[first_error(files@)],
                    err,
                ),
            },
    {
        let ghost all = files@;
        if !are_offsets_ok(&files) {
            return Ok(None);
        }
        let modules = match Self::parse_modules(files) {
            Ok(modules) => modules,
            Err(err) => {
                return Err(err);
            },
        };
        assert(modules@ =~= modules_in(all)) by {
            assert forall|i: int| 0 <= i < all.len() implies modules@[i] == modules_in(all)[i] by {
                assert(all[i].result is Ok);
            }
        }
        let mut compiler = self;
        let (types, names) = match compiler.collect(modules) {
            Some(scopes) => scopes,
            None => {
                return Ok(None);
            },
        };
        let ghost done = CollectedV { compiler: compiler@, names: names@ };
        assert(is_collected(
            populated(self@, modules_in(all)),
            start_names(self@),
            modules_in(all),
            done,
        ));
        if !compiler.process_inheritance() {
            return Ok(None);
        }
        let ghost after = compiler@;
        assert(is_inherited(done.compiler, after));
        if !compiler.is_all_there() {
            return Ok(None);
        }
        Ok(Some(compiler.process_queue(types, names)))
    }

    /// Compiles files up to the point where function bodies are checked, or gives the first syntax
    /// error.
    pub fn run(self, files: Vec<ParsedFile>) -> (res: Result<CompilationOutputs, ParseError>)
        requires
            self@.wf(),
            files_ok(self@, files@),
        ensures
            match res {
                Ok(out) => first_error(files@) == files@.len() && is_run(
                    self@,
                    modules_in(files@),
                    out@,
                ),
                Err(err) => first_error(files@) < files@.len() && is_parse_error(
                    files@[first_error(files@)],
                    err,
                ),
            },
    {
        match self.try_run(files) {
            Ok(out) => Ok(out.unwrap()),
            Err(err) => Err(err),
        }
    }
}

/// No error that has been reported is lost in a compilation.
pub proof fn law_run_loses_no_error(c: CompilerV, modules: Seq<SourceModule>, out: OutputsV)
    requires
        is_run(c, modules, out),
    ensures
        continues(c.errors, out.errors),
{
    let at = populated(c, modules);
    let names = start_names(c);
    let (done, after) = choose|done: CollectedV, after: CompilerV|
        {
            &&& #[trigger] is_collected(at, names, modules, done)
            &&& #[trigger] is_inherited(done.compiler, after)
            &&& out == outputs_of(after, at.types, done.names)
        };
    let walks = choose|walks: Seq<Seq<Seq<ImportItemV>>>|
        {
            &&& walks.len() == modules.len()
            &&& #[trigger] all_walks_ok(at.compiler.modules, modules, walks)
            &&& done == compile_modules(at, names, modules, modules.len() as int, walks)
        };
    lemma_populate_reports_nothing(c, modules, modules.len() as int, known_types(c.repo));
    lemma_modules_continue(at, names, modules, modules.len() as int, walks);
    lemma_inheritance_continues(done.compiler, after);
}

} // verus!
