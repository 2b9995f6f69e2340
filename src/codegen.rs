use vstd::prelude::*;

use crate::nodes::Node;

verus! {

broadcast use vstd::std_specs::vec::group_vec_axioms, vstd::seq::group_seq_axioms;

/// An argument of an emitted call. Every parameter and every argument has
/// the opaque pointer type, so an operand is either the address of one of the
/// module's string constants or a parameter of the function being lowered.
#[derive(Debug, Clone, Copy, PartialEq, Eq)]
pub enum Operand {
    /// The address of `Module::strings[i]`.
    Global(usize),
    /// The `i`-th parameter of the enclosing function.
    Param(usize),
}

/// A call instruction: the callee is an index into `Module::functions`.
#[derive(Debug, Clone, PartialEq, Eq)]
pub struct CallInst {
    pub callee: usize,
    pub args: Vec<Operand>,
}

/// A function of the backend module. Every parameter is an opaque pointer
/// and the return type is void. A function with `body == None` is a runtime
/// stub, resolved at link time. A defined function has exactly one basic
/// block: the calls of `body`, in order, followed by a void return.
#[derive(Debug, Clone, PartialEq, Eq)]
pub struct Function {
    pub name: String,
    pub params: Vec<String>,
    pub body: Option<Vec<CallInst>>,
}

/// The backend module of one compilation: its functions in registration
/// order, and one internal read-only constant per string literal occurrence
/// (each emitted with a terminating NUL byte).
#[derive(Debug, Clone, PartialEq, Eq)]
pub struct Module {
    pub functions: Vec<Function>,
    pub strings: Vec<String>,
}

/// Why lowering a syntax tree failed. The first error aborts the lowering.
#[derive(Debug, Clone, Copy, PartialEq, Eq)]
pub enum CodegenError {
    /// The tree handed to `Module::generate` is not a `Program`.
    MissingProgram,
    /// A statement that is neither a named function declaration nor a call.
    UnsupportedStatement,
    /// A callee that is not a single identifier (such as a property chain).
    UnsupportedCallee,
    /// A call to a name that no function registered so far carries.
    UndeclaredFunction,
    /// An identifier argument that names no parameter of the enclosing function.
    UnboundIdentifier,
    /// A string or identifier argument at a position past the callee's arity.
    TooManyArguments,
    /// A declaration whose name or a parameter is not an identifier.
    NotAnIdentifier,
}

/// A call as the contracts see it.
pub struct CallView {
    pub callee: nat,
    pub args: Seq<Operand>,
}

/// A function as the contracts see it; `body == None` marks a stub.
pub struct FunctionView {
    pub name: Seq<char>,
    pub params: Seq<Seq<char>>,
    pub body: Option<Seq<CallView>>,
}

/// A module as the contracts see it.
pub struct ModuleView {
    pub functions: Seq<FunctionView>,
    pub strings: Seq<Seq<char>>,
}

/// The texts of a list of names.
pub open spec fn names_view(v: Seq<String>) -> Seq<Seq<char>> {
    v.map_values(|s: String| s@)
}

impl View for CallInst {
    type V = CallView;

    open spec fn view(&self) -> CallView {
        CallView { callee: self.callee as nat, args: self.args@ }
    }
}

impl View for Function {
    type V = FunctionView;

    open spec fn view(&self) -> FunctionView {
        FunctionView {
            name: self.name@,
            params: names_view(self.params@),
            body: match self.body {
                Some(b) => Some(b@.map_values(|c: CallInst| c@)),
                None => None,
            },
        }
    }
}

impl View for Module {
    type V = ModuleView;

    open spec fn view(&self) -> ModuleView {
        ModuleView {
            functions: self.functions@.map_values(|f: Function| f@),
            strings: names_view(self.strings@),
        }
    }
}

/// `i` is the first position of `x` in `s`.
pub open spec fn is_first_index(s: Seq<Seq<char>>, x: Seq<char>, i: int) -> bool {
    &&& 0 <= i < s.len()
    &&& s[i] == x
    &&& forall|j: int| 0 <= j < i ==> s[j] != x
}

/// The first position of `x` in `s`, if any.
pub open spec fn first_index(s: Seq<Seq<char>>, x: Seq<char>) -> Option<int> {
    if exists|i: int| is_first_index(s, x, i) {
        Some(choose|i: int| is_first_index(s, x, i))
    } else {
        None
    }
}

/// The names of the functions, in registration order.
pub open spec fn function_names(fs: Seq<FunctionView>) -> Seq<Seq<char>> {
    fs.map_values(|f: FunctionView| f.name)
}

/// The name held by an identifier node.
pub open spec fn ident_name(n: Node) -> Option<Seq<char>> {
    match n {
        Node::Identifier { name } => Some(name@),
        _ => None,
    }
}

/// The names of a parameter list, if every entry is an identifier.
pub open spec fn param_names(ps: Seq<Node>) -> Option<Seq<Seq<char>>> {
    if forall|i: int| 0 <= i < ps.len() ==> (#[trigger] ps[i]) is Identifier {
        Some(ps.map_values(|p: Node| p->Identifier_name@))
    } else {
        None
    }
}

/// The stub registered before any lowering: `logger(message)`, no body.
pub open spec fn logger_stub() -> FunctionView {
    FunctionView { name: "logger"@, params: seq!["message"@], body: None }
}

/// Lowers the arguments of a call to a callee of the given arity, inside a
/// function whose parameters are `cur`. A string literal adds one fresh
/// constant; an identifier refers to the first parameter of that name; any
/// other argument is left out of the call.
pub open spec fn lower_args(m: ModuleView, cur: Seq<Seq<char>>, arity: nat, args: Seq<Node>) -> Result<(ModuleView, Seq<Operand>), CodegenError>
    decreases args.len(),
{
    if args.len() == 0 {
        Ok((m, seq![]))
    } else {
        match lower_args(m, cur, arity, args.drop_last()) {
            Err(e) => Err(e),
            Ok((m1, ops)) => {
                let i = args.len() - 1;
                match args.last() {
                    Node::String(s) => if i >= arity {
                        Err(CodegenError::TooManyArguments)
                    } else {
                        Ok((
                            ModuleView { strings: m1.strings.push(s@), ..m1 },
                            ops.push(Operand::Global(m1.strings.len() as usize)),
                        ))
                    },
                    Node::Identifier { name } => if i >= arity {
                        Err(CodegenError::TooManyArguments)
                    } else {
                        match first_index(cur, name@) {
                            Some(p) => Ok((m1, ops.push(Operand::Param(p as usize)))),
                            None => Err(CodegenError::UnboundIdentifier),
                        }
                    },
                    _ => Ok((m1, ops)),
                }
            },
        }
    }
}

/// Lowers one call statement: the callee is resolved among the functions
/// registered so far, by the first that carries its name.
pub open spec fn lower_call(m: ModuleView, cur: Seq<Seq<char>>, callee: Node, args: Seq<Node>) -> Result<(ModuleView, CallView), CodegenError> {
    match ident_name(callee) {
        None => Err(CodegenError::UnsupportedCallee),
        Some(name) => match first_index(function_names(m.functions), name) {
            None => Err(CodegenError::UndeclaredFunction),
            Some(f) => match lower_args(m, cur, m.functions[f].params.len(), args) {
                Err(e) => Err(e),
                Ok((m1, ops)) => Ok((m1, CallView { callee: f as nat, args: ops })),
            },
        },
    }
}

/// Registers a defined function and lowers its body. The function is in the
/// module (with an empty body) while its own body is lowered, so it can call
/// itself; its calls are put in place when the body is done.
pub open spec fn lower_decl(m: ModuleView, name: Seq<char>, params: Seq<Seq<char>>, body: Seq<Node>) -> Result<ModuleView, CodegenError>
    decreases body, 1nat,
{
    let idx = m.functions.len() as int;
    let m1 = ModuleView {
        functions: m.functions.push(FunctionView { name, params, body: Some(seq![]) }),
        ..m
    };
    match lower_stmts(m1, params, body) {
        Err(e) => Err(e),
        Ok((m2, calls)) => Ok(ModuleView {
            functions: m2.functions.update(idx, FunctionView { name, params, body: Some(calls) }),
            ..m2
        }),
    }
}

/// Lowers a function body in order; returns the module and the calls that
/// the body emits into its own block.
pub open spec fn lower_stmts(m: ModuleView, cur: Seq<Seq<char>>, stmts: Seq<Node>) -> Result<(ModuleView, Seq<CallView>), CodegenError>
    decreases stmts, 0nat,
{
    if stmts.len() == 0 {
        Ok((m, seq![]))
    } else {
        match lower_stmts(m, cur, stmts.drop_last()) {
            Err(e) => Err(e),
            Ok((m1, calls)) => match lower_stmt(m1, cur, stmts.last()) {
                Err(e) => Err(e),
                Ok((m2, Some(c))) => Ok((m2, calls.push(c))),
                Ok((m2, None)) => Ok((m2, calls)),
            },
        }
    }
}

/// Lowers one statement: a nested declaration is registered at module scope,
/// a call becomes a call instruction, anything else is rejected.
pub open spec fn lower_stmt(m: ModuleView, cur: Seq<Seq<char>>, stmt: Node) -> Result<(ModuleView, Option<CallView>), CodegenError>
    decreases stmt, 0nat,
{
    match stmt {
        Node::NamedFunction { id, parameters, body } => match (ident_name(*id), param_names(parameters@)) {
            (Some(name), Some(ps)) => match lower_decl(m, name, ps, body@) {
                Err(e) => Err(e),
                Ok(m1) => Ok((m1, None)),
            },
            _ => Err(CodegenError::NotAnIdentifier),
        },
        Node::FuncCall { callee, arguments } => match lower_call(m, cur, *callee, arguments@) {
            Err(e) => Err(e),
            Ok((m1, c)) => Ok((m1, Some(c))),
        },
        _ => Err(CodegenError::UnsupportedStatement),
    }
}

/// Lowers a program: the `logger` stub first, then an entry function `main`
/// without parameters whose body is the program's top-level instructions.
pub open spec fn lower_program(m: ModuleView, program: Node) -> Result<ModuleView, CodegenError> {
    let m1 = ModuleView { functions: m.functions.push(logger_stub()), ..m };
    match program {
        Node::Program { body } => lower_decl(m1, "main"@, seq![], body@),
        _ => Err(CodegenError::MissingProgram),
    }
}

/// The calls of a block as the contracts see them.
pub open spec fn calls_view(v: Seq<CallInst>) -> Seq<CallView> {
    v.map_values(|c: CallInst| c@)
}

pub open spec fn opt_call_view(c: Option<CallInst>) -> Option<CallView> {
    match c {
        Some(c) => Some(c@),
        None => None,
    }
}

proof fn lemma_args_error_persists(m: ModuleView, cur: Seq<Seq<char>>, arity: nat, args: Seq<Node>, k: int, e: CodegenError)
    requires
        0 <= k <= args.len(),
        lower_args(m, cur, arity, args.take(k)) == Err::<(ModuleView, Seq<Operand>), CodegenError>(e),
    ensures
        lower_args(m, cur, arity, args) == Err::<(ModuleView, Seq<Operand>), CodegenError>(e),
    decreases args.len(),
{
    if k == args.len() {
        assert(args.take(k) =~= args);
    } else {
        assert(args.drop_last().take(k) =~= args.take(k));
        lemma_args_error_persists(m, cur, arity, args.drop_last(), k, e);
    }
}

pub(crate) proof fn lemma_stmts_error_persists(m: ModuleView, cur: Seq<Seq<char>>, stmts: Seq<Node>, k: int, e: CodegenError)
    requires
        0 <= k <= stmts.len(),
        lower_stmts(m, cur, stmts.take(k)) == Err::<(ModuleView, Seq<CallView>), CodegenError>(e),
    ensures
        lower_stmts(m, cur, stmts) == Err::<(ModuleView, Seq<CallView>), CodegenError>(e),
    decreases stmts.len(),
{
    if k == stmts.len() {
        assert(stmts.take(k) =~= stmts);
    } else {
        assert(stmts.drop_last().take(k) =~= stmts.take(k));
        lemma_stmts_error_persists(m, cur, stmts.drop_last(), k, e);
    }
}

/// A copy of a list of names.
fn copy_names(v: &Vec<String>) -> (r: Vec<String>)
    ensures
        r@ == v@,
{
    let mut r: Vec<String> = Vec::new();
    let mut i: usize = 0;
    while i < v.len()
        invariant
            i <= v.len(),
            r@ == v@.take(i as int),
        decreases v.len() - i,
    {
        r.push(v[i].clone());
        i = i + 1;
        assert(r@ =~= v@.take(i as int));
    }
    assert(v@.take(v.len() as int) =~= v@);
    r
}

/// The first position of `x` in `names`, if any.
fn position_of(names: &Vec<String>, x: &String) -> (r: Option<usize>)
    ensures
        match r {
            Some(i) => first_index(names_view(names@), x@) == Some(i as int),
            None => first_index(names_view(names@), x@) is None,
        },
{
    let ghost s = names_view(names@);
    let mut i: usize = 0;
    while i < names.len()
        invariant
            i <= names.len(),
            s == names_view(names@),
            forall|j: int| 0 <= j < i ==> s[j] != x@,
        decreases names.len() - i,
    {
        if names[i] == *x {
            assert(is_first_index(s, x@, i as int));
            assert forall|k: int| is_first_index(s, x@, k) implies k == i by {
                if k < i {
                } else if k > i {
                    assert(s[i as int] == x@);
                }
            }
            return Some(i);
        }
        i = i + 1;
    }
    assert(!exists|k: int| is_first_index(s, x@, k));
    None
}

/// The names of a parameter list, or `NotAnIdentifier`.
fn names_of(ps: &Vec<Node>) -> (r: Result<Vec<String>, CodegenError>)
    ensures
        match r {
            Ok(v) => param_names(ps@) == Some(names_view(v@)),
            Err(e) => param_names(ps@) is None && e == CodegenError::NotAnIdentifier,
        },
{
    let mut r: Vec<String> = Vec::new();
    let mut i: usize = 0;
    while i < ps.len()
        invariant
            i <= ps.len(),
            r.len() == i,
            forall|j: int| 0 <= j < i ==> (#[trigger] ps@[j]) is Identifier && r@[j]@ == ps@[j]->Identifier_name@,
        decreases ps.len() - i,
    {
        match &ps[i] {
            Node::Identifier { name } => {
                r.push(name.clone());
            },
            _ => {
                return Err(CodegenError::NotAnIdentifier);
            },
        }
        i = i + 1;
    }
    assert(names_view(r@) =~= ps@.map_values(|p: Node| p->Identifier_name@));
    Ok(r)
}

impl Module {
    /// An empty module.
    pub fn new() -> (r: Module)
        ensures
            r@.functions == Seq::<FunctionView>::empty(),
            r@.strings == Seq::<Seq<char>>::empty(),
    {
        let r = Module { functions: Vec::new(), strings: Vec::new() };
        assert(r@.functions =~= Seq::<FunctionView>::empty());
        assert(r@.strings =~= Seq::<Seq<char>>::empty());
        r
    }

    /// The first registered function named `name`, if any.
    fn get_func(&self, name: &String) -> (r: Option<usize>)
        ensures
            match r {
                Some(i) => first_index(function_names(self@.functions), name@) == Some(i as int),
                None => first_index(function_names(self@.functions), name@) is None,
            },
    {
        let ghost s = function_names(self@.functions);
        let mut i: usize = 0;
        while i < self.functions.len()
            invariant
                i <= self.functions.len(),
                s == function_names(self@.functions),
                forall|j: int| 0 <= j < i ==> s[j] != name@,
            decreases self.functions.len() - i,
        {
            if self.functions[i].name == *name {
                assert(is_first_index(s, name@, i as int));
                assert forall|k: int| is_first_index(s, name@, k) implies k == i by {
                    if k > i {
                        assert(s[i as int] == name@);
                    }
                }
                return Some(i);
            }
            i = i + 1;
        }
        assert(!exists|k: int| is_first_index(s, name@, k));
        None
    }

    /// Lowers the arguments of a call to `callee` (a function index) inside
    /// a function whose parameters are `cur`, and builds the call.
    fn build_function_call(&mut self, callee: usize, arguments: &Vec<Node>, cur: &Vec<String>) -> (r: Result<CallInst, CodegenError>)
        requires
            callee < old(self).functions.len(),
        ensures
            match r {
                Ok(c) => {
                    &&& lower_args(old(self)@, names_view(cur@), old(self)@.functions[callee as int].params.len(), arguments@)
                        == Ok::<(ModuleView, Seq<Operand>), CodegenError>((final(self)@, c.args@))
                    &&& c.callee == callee
                },
                Err(e) => lower_args(old(self)@, names_view(cur@), old(self)@.functions[callee as int].params.len(), arguments@)
                    == Err::<(ModuleView, Seq<Operand>), CodegenError>(e),
            },
            final(self).functions@ == old(self).functions@,
    {
        let ghost m0 = self@;
        let ghost cv = names_view(cur@);
        let arity = self.functions[callee].params.len();
        let ghost ar = m0.functions[callee as int].params.len();
        assert(ar == arity);
        assert(arguments@.take(0) =~= Seq::<Node>::empty());
        let mut args: Vec<Operand> = Vec::new();
        let mut i: usize = 0;
        while i < arguments.len()
            invariant
                i <= arguments.len(),
                self.functions@ == old(self).functions@,
                m0 == old(self)@,
                cv == names_view(cur@),
                ar == arity,
                callee < old(self).functions.len(),
                ar == old(self)@.functions[callee as int].params.len(),
                lower_args(m0, cv, ar, arguments@.take(i as int)) == Ok::<(ModuleView, Seq<Operand>), CodegenError>((self@, args@)),
            decreases arguments.len() - i,
        {
            assert(arguments@.take(i + 1).drop_last() =~= arguments@.take(i as int));
            assert(arguments@.take(i + 1).last() == arguments@[i as int]);
            match &arguments[i] {
                Node::String(content) => {
                    if i >= arity {
                        proof {
                            lemma_args_error_persists(m0, cv, ar, arguments@, i + 1, CodegenError::TooManyArguments);
                        }
                        return Err(CodegenError::TooManyArguments);
                    }
                    let ghost prev = self@;
                    let g = self.strings.len();
                    self.strings.push(content.clone());
                    args.push(Operand::Global(g));
                    assert(self@.strings =~= prev.strings.push(content@));
                    assert(self@.functions =~= prev.functions);
                },
                Node::Identifier { name } => {
                    if i >= arity {
                        proof {
                            lemma_args_error_persists(m0, cv, ar, arguments@, i + 1, CodegenError::TooManyArguments);
                        }
                        return Err(CodegenError::TooManyArguments);
                    }
                    match position_of(cur, name) {
                        Some(p) => {
                            args.push(Operand::Param(p));
                        },
                        None => {
                            proof {
                                lemma_args_error_persists(m0, cv, ar, arguments@, i + 1, CodegenError::UnboundIdentifier);
                            }
                            return Err(CodegenError::UnboundIdentifier);
                        },
                    }
                },
                _ => {},
            }
            i = i + 1;
        }
        assert(arguments@.take(arguments.len() as int) =~= arguments@);
        Ok(CallInst { callee, args })
    }

    /// Lowers one statement of the body of a function whose parameters are
    /// `cur`.
    fn lower_statement(&mut self, stmt: &Node, cur: &Vec<String>) -> (r: Result<Option<CallInst>, CodegenError>)
        ensures
            match r {
                Ok(c) => lower_stmt(old(self)@, names_view(cur@), *stmt) == Ok::<(ModuleView, Option<CallView>), CodegenError>((final(self)@, opt_call_view(c))),
                Err(e) => lower_stmt(old(self)@, names_view(cur@), *stmt) == Err::<(ModuleView, Option<CallView>), CodegenError>(e),
            },
            r is Ok ==> final(self).functions.len() >= old(self).functions.len(),
        decreases *stmt,
    {
        match stmt {
            Node::NamedFunction { id, parameters, body } => {
                let name = match &**id {
                    Node::Identifier { name } => name.clone(),
                    _ => {
                        return Err(CodegenError::NotAnIdentifier);
                    },
                };
                let params = match names_of(parameters) {
                    Ok(ps) => ps,
                    Err(e) => {
                        return Err(e);
                    },
                };
                match self.add_func(name, params, body) {
                    Ok(()) => Ok(None),
                    Err(e) => Err(e),
                }
            },
            Node::FuncCall { callee, arguments } => {
                let f = match &**callee {
                    Node::Identifier { name } => match self.get_func(name) {
                        Some(f) => f,
                        None => {
                            return Err(CodegenError::UndeclaredFunction);
                        },
                    },
                    _ => {
                        return Err(CodegenError::UnsupportedCallee);
                    },
                };
                match self.build_function_call(f, arguments, cur) {
                    Ok(c) => Ok(Some(c)),
                    Err(e) => Err(e),
                }
            },
            _ => Err(CodegenError::UnsupportedStatement),
        }
    }

    /// Registers a defined function `name(params)` and lowers `body` into its
    /// single block, which ends with a void return.
    fn add_func(&mut self, name: String, params: Vec<String>, body: &Vec<Node>) -> (r: Result<(), CodegenError>)
        ensures
            match r {
                Ok(()) => lower_decl(old(self)@, name@, names_view(params@), body@) == Ok::<ModuleView, CodegenError>(final(self)@),
                Err(e) => lower_decl(old(self)@, name@, names_view(params@), body@) == Err::<ModuleView, CodegenError>(e),
            },
            r is Ok ==> final(self).functions.len() > old(self).functions.len(),
        decreases body@,
    {
        let ghost m0 = self@;
        let ghost pv = names_view(params@);
        let idx = self.functions.len();
        self.functions.push(Function { name: name.clone(), params: copy_names(&params), body: Some(Vec::new()) });
        let ghost m1 = self@;
        assert(m1 == ModuleView {
            functions: m0.functions.push(FunctionView { name: name@, params: pv, body: Some(seq![]) }),
            ..m0
        }) by {
            let e: Vec<CallInst> = self.functions@[idx as int].body.unwrap();
            assert(e@.map_values(|c: CallInst| c@) =~= Seq::<CallView>::empty());
            assert(self@.functions[idx as int] == FunctionView { name: name@, params: pv, body: Some(seq![]) });
            assert(m1.functions =~= m0.functions.push(FunctionView { name: name@, params: pv, body: Some(seq![]) }));
        }
        let mut calls: Vec<CallInst> = Vec::new();
        let mut i: usize = 0;
        assert(body@.take(0) =~= Seq::<Node>::empty());
        assert(calls_view(calls@) =~= Seq::<CallView>::empty());
        while i < body.len()
            invariant
                i <= body.len(),
                idx < self.functions.len(),
                idx == m0.functions.len(),
                pv == names_view(params@),
                m0 == old(self)@,
                m1 == (ModuleView {
                    functions: m0.functions.push(FunctionView { name: name@, params: pv, body: Some(seq![]) }),
                    ..m0
                }),
                lower_stmts(m1, pv, body@.take(i as int)) == Ok::<(ModuleView, Seq<CallView>), CodegenError>((self@, calls_view(calls@))),
            decreases body.len() - i,
        {
            assert(body@.take(i + 1).drop_last() =~= body@.take(i as int));
            assert(body@.take(i + 1).last() == body@[i as int]);
            match self.lower_statement(&body[i], &params) {
                Ok(Some(c)) => {
                    let ghost prev = calls_view(calls@);
                    let ghost cv = c@;
                    calls.push(c);
                    assert(calls_view(calls@) =~= prev.push(cv));
                },
                Ok(None) => {},
                Err(e) => {
                    proof {
                        lemma_stmts_error_persists(m1, pv, body@, i + 1, e);
                    }
                    return Err(e);
                },
            }
            i = i + 1;
        }
        assert(body@.take(body.len() as int) =~= body@);
        let ghost m2 = self@;
        self.functions[idx] = Function { name, params, body: Some(calls) };
        assert(self@.functions =~= m2.functions.update(idx as int, FunctionView { name: name@, params: pv, body: Some(calls_view(calls@)) }));
        Ok(())
    }

    /// Lowers a whole program: registers the `logger` stub, then an entry
    /// function `main` whose body is the program's top-level instructions.
    pub fn generate(&mut self, program: Node) -> (r: Result<(), CodegenError>)
        ensures
            match r {
                Ok(()) => lower_program(old(self)@, program) == Ok::<ModuleView, CodegenError>(final(self)@),
                Err(e) => lower_program(old(self)@, program) == Err::<ModuleView, CodegenError>(e),
            },
    {
        let ghost m0 = self@;
        let mut stub_params: Vec<String> = Vec::new();
        stub_params.push(String::from_str("message"));
        self.functions.push(Function { name: String::from_str("logger"), params: stub_params, body: None });
        assert(self@ =~= ModuleView { functions: m0.functions.push(logger_stub()), ..m0 }) by {
            assert(names_view(stub_params@) =~= seq!["message"@]);
            assert(self@.functions =~= m0.functions.push(logger_stub()));
        }
        match &program {
            Node::Program { body } => {
                let empty: Vec<String> = Vec::new();
                assert(names_view(empty@) =~= Seq::<Seq<char>>::empty());
                self.add_func(String::from_str("main"), empty, body)
            },
            _ => Err(CodegenError::MissingProgram),
        }
    }
}

} // verus!
