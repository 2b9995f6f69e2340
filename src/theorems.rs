use vstd::prelude::*;

use crate::codegen::{
    CallView, CodegenError, FunctionView, ModuleView, first_index, function_names, ident_name, is_first_index,
    lemma_stmts_error_persists, logger_stub, lower_args, lower_call, lower_decl, lower_program, lower_stmt,
    lower_stmts, param_names, Operand,
};
use crate::empty_module;
use crate::nodes::Node;
use crate::parser::{nv, nvs};

verus! {

broadcast use vstd::std_specs::vec::group_vec_axioms, vstd::seq::group_seq_axioms;

/// The module just before the body of `main` is lowered.
pub open spec fn main_entered(m: ModuleView) -> ModuleView {
    let m1 = ModuleView { functions: m.functions.push(logger_stub()), ..m };
    ModuleView {
        functions: m1.functions.push(FunctionView { name: "main"@, params: seq![], body: Some(seq![]) }),
        ..m1
    }
}

/// A name that occurs in a sequence has a first position there.
pub proof fn lemma_first_index_exists(s: Seq<Seq<char>>, x: Seq<char>)
    requires
        s.contains(x),
    ensures
        first_index(s, x) is Some,
    decreases s.len(),
{
    if s.drop_last().contains(x) {
        lemma_first_index_exists(s.drop_last(), x);
        let i = choose|i: int| is_first_index(s.drop_last(), x, i);
        assert(is_first_index(s.drop_last(), x, i));
        assert forall|j: int| 0 <= j < i implies s[j] != x by {
            assert(s.drop_last()[j] != x);
        }
        assert(is_first_index(s, x, i));
    } else {
        let i = s.len() - 1;
        assert forall|j: int| 0 <= j < i implies s[j] != x by {
            if s[j] == x {
                assert(s.drop_last()[j] == x);
            }
        }
        assert(is_first_index(s, x, i));
    }
}

/// The stub `logger` comes first in every module lowered from an empty one.
proof fn lemma_logger_is_first(fs: Seq<FunctionView>)
    requires
        fs.len() >= 1,
        fs[0] == logger_stub(),
    ensures
        first_index(function_names(fs), "logger"@) == Some(0int),
{
    assert(is_first_index(function_names(fs), "logger"@, 0));
    assert forall|k: int| is_first_index(function_names(fs), "logger"@, k) implies k == 0 by {
        if k > 0 {
            assert(function_names(fs)[0] == "logger"@);
        }
    }
}

/// A program whose top-level body holds a statement that is neither a named
/// function declaration nor a call does not lower: such a statement aborts
/// the compilation and is never skipped.
pub proof fn unsupported_statement_aborts(m: ModuleView, body: Vec<Node>, k: int)
    requires
        0 <= k < body@.len(),
        !(body@[k] is NamedFunction || body@[k] is FuncCall),
    ensures
        lower_program(m, Node::Program { body }) is Err,
{
    let m2 = main_entered(m);
    let s = body@;
    assert(s.take(k + 1).drop_last() =~= s.take(k));
    assert(s.take(k + 1).last() == s[k]);
    let m1 = ModuleView { functions: m.functions.push(logger_stub()), ..m };
    let cur = Seq::<Seq<char>>::empty();
    let pre = lower_stmts(m2, cur, s.take(k));
    if pre is Ok {
        assert(lower_stmt(pre->Ok_0.0, cur, s[k]) is Err);
    }
    let r = lower_stmts(m2, cur, s.take(k + 1));
    assert(r is Err);
    lemma_stmts_error_persists(m2, seq![], s, k + 1, r->Err_0);
    assert(lower_stmts(m2, seq![], s) is Err);
    assert(lower_decl(m1, "main"@, seq![], s) is Err);
}

/// A call lowered before the callee is registered fails: when the first
/// statement of a program calls a name that neither the module nor the
/// `logger` and `main` functions carry (such as a function declared further
/// down), the lowering reports an undeclared function.
pub proof fn call_before_declaration_fails(m: ModuleView, body: Vec<Node>, name: Seq<char>)
    requires
        body@.len() > 0,
        body@[0] matches Node::FuncCall { callee, .. } && ident_name(*callee) == Some(name),
        name != "logger"@,
        name != "main"@,
        forall|i: int| 0 <= i < m.functions.len() ==> m.functions[i].name != name,
    ensures
        lower_program(m, Node::Program { body }) == Err::<ModuleView, CodegenError>(CodegenError::UndeclaredFunction),
{
    let m2 = main_entered(m);
    let s = body@;
    let names = function_names(m2.functions);
    assert forall|i: int| 0 <= i < names.len() implies names[i] != name by {
        if i < m.functions.len() {
            assert(names[i] == m.functions[i].name);
        }
    }
    assert(!exists|i: int| is_first_index(names, name, i));
    assert(s.take(1).drop_last() =~= Seq::<Node>::empty());
    assert(s.take(1).last() == s[0]);
    let m1 = ModuleView { functions: m.functions.push(logger_stub()), ..m };
    let c = s[0];
    assert(first_index(names, name) is None);
    assert(lower_call(m2, seq![], *c->FuncCall_callee, c->FuncCall_arguments@) == Err::<(ModuleView, CallView), CodegenError>(CodegenError::UndeclaredFunction));
    assert(lower_stmt(m2, seq![], c) == Err::<(ModuleView, Option<CallView>), CodegenError>(CodegenError::UndeclaredFunction));
    assert(lower_stmts(m2, seq![], Seq::<Node>::empty()) == Ok::<(ModuleView, Seq<CallView>), CodegenError>((m2, seq![])));
    assert(lower_stmts(m2, seq![], s.take(1)) == Err::<(ModuleView, Seq<CallView>), CodegenError>(CodegenError::UndeclaredFunction));
    lemma_stmts_error_persists(m2, seq![], s, 1, CodegenError::UndeclaredFunction);
    assert(lower_decl(m1, "main"@, seq![], s) == Err::<ModuleView, CodegenError>(CodegenError::UndeclaredFunction));
}

/// A call of `logger` with one string literal.
pub open spec fn is_logger_string_call(n: Node) -> bool {
    &&& n is FuncCall
    &&& ident_name(*n->FuncCall_callee) == Some("logger"@)
    &&& n->FuncCall_arguments@.len() == 1
    &&& n->FuncCall_arguments@[0] is String
}

/// A named function whose body is one call of `logger` with one of the
/// function's own parameters.
pub open spec fn is_logging_function(n: Node) -> bool {
    &&& n is NamedFunction
    &&& *n->NamedFunction_id is Identifier
    &&& param_names(n->NamedFunction_parameters@) is Some
    &&& n->NamedFunction_body@.len() == 1
    &&& n->NamedFunction_body@[0] is FuncCall
    &&& ident_name(*n->NamedFunction_body@[0]->FuncCall_callee) == Some("logger"@)
    &&& n->NamedFunction_body@[0]->FuncCall_arguments@.len() == 1
    &&& n->NamedFunction_body@[0]->FuncCall_arguments@[0] is Identifier
    &&& param_names(n->NamedFunction_parameters@)->Some_0.contains(
        n->NamedFunction_body@[0]->FuncCall_arguments@[0]->Identifier_name@,
    )
}

/// String literals are not interned: two calls that each pass one string
/// literal to `logger` add two constants, in call order, even when the two
/// literals are equal.
pub proof fn string_literals_not_interned(body: Vec<Node>)
    requires
        body@.len() == 2,
        forall|i: int| 0 <= i < 2 ==> is_logger_string_call(#[trigger] body@[i]),
    ensures
        lower_program(empty_module(), Node::Program { body }) is Ok,
        lower_program(empty_module(), Node::Program { body })->Ok_0.strings == seq![
            body@[0]->FuncCall_arguments@[0]->String_0@,
            body@[1]->FuncCall_arguments@[0]->String_0@,
        ],
{
    let m0 = empty_module();
    let m1 = ModuleView { functions: m0.functions.push(logger_stub()), ..m0 };
    let m2 = main_entered(m0);
    let s = body@;
    let e = Seq::<Node>::empty();
    let cur = Seq::<Seq<char>>::empty();
    assert(s.drop_last().drop_last() =~= e);
    assert(s.drop_last().last() == s[0]);
    let c0 = s[0];
    let c1 = s[1];
    let a0 = c0->FuncCall_arguments@;
    let a1 = c1->FuncCall_arguments@;
    assert(a0.drop_last() =~= e);
    assert(a1.drop_last() =~= e);
    let t0 = a0[0]->String_0@;
    let t1 = a1[0]->String_0@;
    lemma_logger_is_first(m2.functions);
    assert(m2.functions[0].params.len() == 1);
    let m3 = ModuleView { strings: m2.strings.push(t0), ..m2 };
    let m4 = ModuleView { strings: m3.strings.push(t1), ..m3 };
    lemma_logger_is_first(m3.functions);
    let v0 = CallView { callee: 0, args: seq![Operand::Global(0)] };
    let v1 = CallView { callee: 0, args: seq![Operand::Global(1)] };
    assert(lower_args(m2, cur, 1, e) == Ok::<(ModuleView, Seq<Operand>), CodegenError>((m2, seq![])));
    assert(lower_args(m2, cur, 1, a0) == Ok::<(ModuleView, Seq<Operand>), CodegenError>((m3, seq![Operand::Global(0)])));
    assert(lower_call(m2, cur, *c0->FuncCall_callee, a0) == Ok::<(ModuleView, CallView), CodegenError>((m3, v0)));
    assert(lower_stmt(m2, cur, c0) == Ok::<(ModuleView, Option<CallView>), CodegenError>((m3, Some(v0))));
    assert(lower_stmts(m2, cur, e) == Ok::<(ModuleView, Seq<CallView>), CodegenError>((m2, seq![])));
    assert(lower_stmts(m2, cur, s.drop_last()) == Ok::<(ModuleView, Seq<CallView>), CodegenError>((m3, seq![v0])));
    assert(lower_args(m3, cur, 1, e) == Ok::<(ModuleView, Seq<Operand>), CodegenError>((m3, seq![])));
    assert(lower_args(m3, cur, 1, a1) == Ok::<(ModuleView, Seq<Operand>), CodegenError>((m4, seq![Operand::Global(1)])));
    assert(lower_call(m3, cur, *c1->FuncCall_callee, a1) == Ok::<(ModuleView, CallView), CodegenError>((m4, v1)));
    assert(lower_stmt(m3, cur, c1) == Ok::<(ModuleView, Option<CallView>), CodegenError>((m4, Some(v1))));
    assert(lower_stmts(m2, cur, s) == Ok::<(ModuleView, Seq<CallView>), CodegenError>((m4, seq![v0].push(v1))));
    assert(lower_decl(m1, "main"@, cur, s) is Ok);
    let r = lower_program(empty_module(), Node::Program { body });
    assert(r is Ok);
    assert(r->Ok_0.strings =~= seq![t0, t1]);
}

/// The texts of a list of string literal arguments.
pub open spec fn string_texts(args: Seq<Node>) -> Seq<Seq<char>> {
    args.map_values(|a: Node| a->String_0@)
}

/// String literal arguments, no more than the callee takes, each add one
/// constant and pass its address.
proof fn lemma_string_args(m: ModuleView, cur: Seq<Seq<char>>, arity: nat, args: Seq<Node>)
    requires
        forall|i: int| 0 <= i < args.len() ==> (#[trigger] args[i]) is String,
        args.len() <= arity,
    ensures
        lower_args(m, cur, arity, args) == Ok::<(ModuleView, Seq<Operand>), CodegenError>((
            ModuleView { strings: m.strings + string_texts(args), ..m },
            Seq::new(args.len(), |i: int| Operand::Global((m.strings.len() + i) as usize)),
        )),
    decreases args.len(),
{
    if args.len() == 0 {
        assert(m.strings + string_texts(args) =~= m.strings);
        assert(Seq::new(0, |i: int| Operand::Global((m.strings.len() + i) as usize)) =~= Seq::<Operand>::empty());
    } else {
        let a = args.drop_last();
        lemma_string_args(m, cur, arity, a);
        assert(m.strings + string_texts(args) =~= (m.strings + string_texts(a)).push(args.last()->String_0@));
        assert(Seq::new(args.len(), |i: int| Operand::Global((m.strings.len() + i) as usize)) =~= Seq::new(
            a.len(),
            |i: int| Operand::Global((m.strings.len() + i) as usize),
        ).push(Operand::Global((m.strings.len() + a.len()) as usize)));
    }
}

/// A named function whose body passes one of its parameters to `logger`,
/// called once with string literals, one per parameter: the module holds
/// exactly three functions, the `logger` stub, `main` and the declared
/// function; each defined function has one block; `main` makes one call, to
/// the declared function, with one argument per literal; the declared
/// function makes one call, to `logger`, with one argument; and there is one
/// constant per literal.
pub proof fn single_function_shape(body: Vec<Node>)
    requires
        body@.len() == 2,
        is_logging_function(body@[0]),
        ident_name(*body@[0]->NamedFunction_id) != Some("logger"@),
        ident_name(*body@[0]->NamedFunction_id) != Some("main"@),
        body@[1] is FuncCall,
        ident_name(*body@[1]->FuncCall_callee) == ident_name(*body@[0]->NamedFunction_id),
        body@[1]->FuncCall_arguments@.len() == body@[0]->NamedFunction_parameters@.len(),
        forall|i: int|
            0 <= i < body@[1]->FuncCall_arguments@.len() ==> (#[trigger] body@[1]->FuncCall_arguments@[i]) is String,
    ensures
        lower_program(empty_module(), Node::Program { body }) is Ok,
        ({
            let m = lower_program(empty_module(), Node::Program { body })->Ok_0;
            let n = body@[1]->FuncCall_arguments@.len();
            &&& m.functions.len() == 3
            &&& m.functions[0] == logger_stub()
            &&& m.functions[1].name == "main"@
            &&& m.functions[2].name == ident_name(*body@[0]->NamedFunction_id)->Some_0
            &&& forall|i: int, j: int| 0 <= i < j < 3 ==> m.functions[i].name != m.functions[j].name
            &&& m.functions[1].body is Some
            &&& m.functions[1].body->Some_0.len() == 1
            &&& m.functions[1].body->Some_0[0].callee == 2
            &&& m.functions[1].body->Some_0[0].args.len() == n
            &&& m.functions[2].body is Some
            &&& m.functions[2].body->Some_0.len() == 1
            &&& m.functions[2].body->Some_0[0].callee == 0
            &&& m.functions[2].body->Some_0[0].args.len() == 1
            &&& m.strings.len() == n
        }),
{
    let m0 = empty_module();
    let m1 = ModuleView { functions: m0.functions.push(logger_stub()), ..m0 };
    let m2 = main_entered(m0);
    let s = body@;
    let e = Seq::<Node>::empty();
    let cur = Seq::<Seq<char>>::empty();
    let d = s[0];
    let fname = ident_name(*d->NamedFunction_id)->Some_0;
    let ps = param_names(d->NamedFunction_parameters@)->Some_0;
    let fb = d->NamedFunction_body@;
    let call = fb[0];
    let args = call->FuncCall_arguments@;
    let q = args[0]->Identifier_name@;
    assert(s.drop_last().drop_last() =~= e);
    assert(s.drop_last().last() == d);
    assert(fb.drop_last() =~= e);
    assert(args.drop_last() =~= e);
    let m3 = ModuleView {
        functions: m2.functions.push(FunctionView { name: fname, params: ps, body: Some(seq![]) }),
        ..m2
    };
    lemma_logger_is_first(m3.functions);
    lemma_first_index_exists(ps, q);
    let pidx = first_index(ps, q)->Some_0;
    let v = CallView { callee: 0, args: seq![Operand::Param(pidx as usize)] };
    assert(m3.functions[0].params.len() == 1);
    assert(lower_args(m3, ps, 1, e) == Ok::<(ModuleView, Seq<Operand>), CodegenError>((m3, seq![])));
    assert(lower_args(m3, ps, 1, args) == Ok::<(ModuleView, Seq<Operand>), CodegenError>((m3, seq![Operand::Param(pidx as usize)])));
    assert(lower_call(m3, ps, *call->FuncCall_callee, args) == Ok::<(ModuleView, CallView), CodegenError>((m3, v)));
    assert(lower_stmt(m3, ps, call) == Ok::<(ModuleView, Option<CallView>), CodegenError>((m3, Some(v))));
    assert(lower_stmts(m3, ps, e) == Ok::<(ModuleView, Seq<CallView>), CodegenError>((m3, seq![])));
    assert(lower_stmts(m3, ps, fb) == Ok::<(ModuleView, Seq<CallView>), CodegenError>((m3, seq![v])));
    let m4 = ModuleView {
        functions: m3.functions.update(2, FunctionView { name: fname, params: ps, body: Some(seq![v]) }),
        ..m3
    };
    assert(lower_decl(m2, fname, ps, fb) == Ok::<ModuleView, CodegenError>(m4));
    assert(lower_stmt(m2, cur, d) == Ok::<(ModuleView, Option<CallView>), CodegenError>((m4, None)));
    assert(lower_stmts(m2, cur, e) == Ok::<(ModuleView, Seq<CallView>), CodegenError>((m2, seq![])));
    assert(lower_stmts(m2, cur, s.drop_last()) == Ok::<(ModuleView, Seq<CallView>), CodegenError>((m4, seq![])));
    // the top-level call of the declared function
    let c1 = s[1];
    let a1 = c1->FuncCall_arguments@;
    let names = function_names(m4.functions);
    assert(names[2] == fname);
    assert(is_first_index(names, fname, 2));
    assert forall|k: int| is_first_index(names, fname, k) implies k == 2 by {
        if k > 2 {
            assert(names[2] == fname);
        }
    }
    assert(ps.len() == d->NamedFunction_parameters@.len());
    assert(m4.functions[2].params.len() == a1.len());
    lemma_string_args(m4, cur, a1.len(), a1);
    let m6 = ModuleView { strings: m4.strings + string_texts(a1), ..m4 };
    let ops = Seq::new(a1.len(), |i: int| Operand::Global((m4.strings.len() + i) as usize));
    let v2 = CallView { callee: 2, args: ops };
    assert(lower_call(m4, cur, *c1->FuncCall_callee, a1) == Ok::<(ModuleView, CallView), CodegenError>((m6, v2)));
    assert(lower_stmt(m4, cur, c1) == Ok::<(ModuleView, Option<CallView>), CodegenError>((m6, Some(v2))));
    assert(lower_stmts(m2, cur, s) == Ok::<(ModuleView, Seq<CallView>), CodegenError>((m6, seq![v2])));
    let m7 = ModuleView {
        functions: m6.functions.update(1, FunctionView { name: "main"@, params: cur, body: Some(seq![v2]) }),
        ..m6
    };
    assert(lower_decl(m1, "main"@, cur, s) == Ok::<ModuleView, CodegenError>(m7));
    assert(lower_program(empty_module(), Node::Program { body }) == Ok::<ModuleView, CodegenError>(m7));
    assert(m7.functions[2].body->Some_0 =~= seq![v]);
    assert(m7.functions[1].body->Some_0 =~= seq![v2]);
    assert(m7.strings =~= string_texts(a1));
    lemma_names_differ();
}

/// `logger` is the first function and the only one without a body.
pub open spec fn only_logger_is_stub(m: ModuleView) -> bool {
    &&& m.functions.len() >= 1
    &&& m.functions[0] == logger_stub()
    &&& forall|i: int| 1 <= i < m.functions.len() ==> (#[trigger] m.functions[i]).body is Some
}

proof fn lemma_args_keep_functions(m: ModuleView, cur: Seq<Seq<char>>, arity: nat, args: Seq<Node>)
    ensures
        lower_args(m, cur, arity, args) is Ok ==> lower_args(m, cur, arity, args)->Ok_0.0.functions == m.functions,
    decreases args.len(),
{
    if args.len() > 0 {
        lemma_args_keep_functions(m, cur, arity, args.drop_last());
    }
}

proof fn lemma_decl_keeps_stub(m: ModuleView, name: Seq<char>, params: Seq<Seq<char>>, body: Seq<Node>)
    requires
        only_logger_is_stub(m),
    ensures
        lower_decl(m, name, params, body) is Ok ==> only_logger_is_stub(lower_decl(m, name, params, body)->Ok_0)
            && lower_decl(m, name, params, body)->Ok_0.functions.len() > m.functions.len(),
    decreases body, 1nat,
{
    let idx = m.functions.len() as int;
    let f = FunctionView { name, params, body: Some(seq![]) };
    let m1 = ModuleView { functions: m.functions.push(f), ..m };
    assert(only_logger_is_stub(m1)) by {
        assert forall|i: int| 1 <= i < m1.functions.len() implies (#[trigger] m1.functions[i]).body is Some by {
            if i < idx {
                assert(m1.functions[i] == m.functions[i]);
            }
        }
    }
    lemma_stmts_keep_stub(m1, params, body);
}

proof fn lemma_stmts_keep_stub(m: ModuleView, cur: Seq<Seq<char>>, stmts: Seq<Node>)
    requires
        only_logger_is_stub(m),
    ensures
        lower_stmts(m, cur, stmts) is Ok ==> only_logger_is_stub(lower_stmts(m, cur, stmts)->Ok_0.0)
            && lower_stmts(m, cur, stmts)->Ok_0.0.functions.len() >= m.functions.len(),
    decreases stmts, 0nat,
{
    if stmts.len() > 0 {
        lemma_stmts_keep_stub(m, cur, stmts.drop_last());
        let r = lower_stmts(m, cur, stmts.drop_last());
        if r is Ok {
            lemma_stmt_keeps_stub(r->Ok_0.0, cur, stmts.last());
        }
    }
}

proof fn lemma_stmt_keeps_stub(m: ModuleView, cur: Seq<Seq<char>>, stmt: Node)
    requires
        only_logger_is_stub(m),
    ensures
        lower_stmt(m, cur, stmt) is Ok ==> only_logger_is_stub(lower_stmt(m, cur, stmt)->Ok_0.0)
            && lower_stmt(m, cur, stmt)->Ok_0.0.functions.len() >= m.functions.len(),
    decreases stmt, 0nat,
{
    match stmt {
        Node::NamedFunction { id, parameters, body } => {
            if let (Some(name), Some(ps)) = (ident_name(*id), param_names(parameters@)) {
                lemma_decl_keeps_stub(m, name, ps, body@);
            }
        },
        Node::FuncCall { callee, arguments } => {
            if let Some(name) = ident_name(*callee) {
                if let Some(f) = first_index(function_names(m.functions), name) {
                    lemma_args_keep_functions(m, cur, m.functions[f].params.len(), arguments@);
                }
            }
        },
        _ => {},
    }
}

/// The lowered module declares exactly one function without a body, the
/// `logger` stub, first; every other function it holds is defined.
pub proof fn logger_is_the_only_stub(program: Node)
    ensures
        lower_program(empty_module(), program) is Ok ==> only_logger_is_stub(lower_program(empty_module(), program)->Ok_0),
{
    let m0 = empty_module();
    let m1 = ModuleView { functions: m0.functions.push(logger_stub()), ..m0 };
    if let Node::Program { body } = program {
        lemma_decl_keeps_stub(m1, "main"@, seq![], body@);
    }
}

/// The views of a list are the views of its entries.
pub proof fn lemma_nvs_index(s: Seq<Node>)
    ensures
        nvs(s).len() == s.len(),
        forall|i: int| 0 <= i < s.len() ==> nvs(s)[i] == nv(#[trigger] s[i]),
    decreases s.len(),
{
    if s.len() > 0 {
        lemma_nvs_index(s.drop_last());
        assert forall|i: int| 0 <= i < s.len() implies nvs(s)[i] == nv(#[trigger] s[i]) by {
            if i < s.len() - 1 {
                assert(s.drop_last()[i] == s[i]);
            }
        }
    }
}

proof fn lemma_nvs_equal(a: Seq<Node>, b: Seq<Node>)
    requires
        nvs(a) == nvs(b),
    ensures
        a.len() == b.len(),
        forall|i: int| 0 <= i < a.len() ==> nv(#[trigger] a[i]) == nv(b[i]),
{
    lemma_nvs_index(a);
    lemma_nvs_index(b);
    assert forall|i: int| 0 <= i < a.len() implies nv(#[trigger] a[i]) == nv(b[i]) by {
        assert(nvs(a)[i] == nvs(b)[i]);
    }
}

proof fn lemma_args_congruent(m: ModuleView, cur: Seq<Seq<char>>, arity: nat, a: Seq<Node>, b: Seq<Node>)
    requires
        nvs(a) == nvs(b),
    ensures
        lower_args(m, cur, arity, a) == lower_args(m, cur, arity, b),
    decreases a.len(),
{
    lemma_nvs_equal(a, b);
    if a.len() > 0 {
        assert(nvs(a.drop_last()) == nvs(b.drop_last())) by {
            lemma_nvs_index(a.drop_last());
            lemma_nvs_index(b.drop_last());
            assert forall|i: int| 0 <= i < a.len() - 1 implies nvs(a.drop_last())[i] == nvs(b.drop_last())[i] by {
                assert(a.drop_last()[i] == a[i]);
                assert(b.drop_last()[i] == b[i]);
            }
            assert(nvs(a.drop_last()) =~= nvs(b.drop_last()));
        }
        lemma_args_congruent(m, cur, arity, a.drop_last(), b.drop_last());
        assert(nv(a.last()) == nv(b.last()));
    }
}

proof fn lemma_param_names_congruent(a: Seq<Node>, b: Seq<Node>)
    requires
        nvs(a) == nvs(b),
    ensures
        param_names(a) == param_names(b),
{
    lemma_nvs_equal(a, b);
    assert forall|i: int| 0 <= i < a.len() implies ((#[trigger] a[i]) is Identifier <==> b[i] is Identifier) && (a[i] is Identifier
        ==> a[i]->Identifier_name@ == b[i]->Identifier_name@) by {
        assert(nv(a[i]) == nv(b[i]));
    }
    if param_names(a) is Some {
        assert(forall|i: int| 0 <= i < b.len() ==> (#[trigger] b[i]) is Identifier) by {
            assert forall|i: int| 0 <= i < b.len() implies (#[trigger] b[i]) is Identifier by {
                assert(a[i] is Identifier);
            }
        }
        assert(a.map_values(|p: Node| p->Identifier_name@) =~= b.map_values(|p: Node| p->Identifier_name@));
    } else if param_names(b) is Some {
        assert(forall|i: int| 0 <= i < a.len() ==> (#[trigger] a[i]) is Identifier) by {
            assert forall|i: int| 0 <= i < a.len() implies (#[trigger] a[i]) is Identifier by {
                assert(b[i] is Identifier);
            }
        }
    }
}

proof fn lemma_decl_congruent(m: ModuleView, name: Seq<char>, ps: Seq<Seq<char>>, a: Seq<Node>, b: Seq<Node>)
    requires
        nvs(a) == nvs(b),
    ensures
        lower_decl(m, name, ps, a) == lower_decl(m, name, ps, b),
    decreases a, 1nat,
{
    let m1 = ModuleView {
        functions: m.functions.push(FunctionView { name, params: ps, body: Some(seq![]) }),
        ..m
    };
    lemma_stmts_congruent(m1, ps, a, b);
}

proof fn lemma_stmts_congruent(m: ModuleView, cur: Seq<Seq<char>>, a: Seq<Node>, b: Seq<Node>)
    requires
        nvs(a) == nvs(b),
    ensures
        lower_stmts(m, cur, a) == lower_stmts(m, cur, b),
    decreases a, 0nat,
{
    lemma_nvs_equal(a, b);
    if a.len() > 0 {
        assert(nvs(a.drop_last()) == nvs(b.drop_last())) by {
            lemma_nvs_index(a.drop_last());
            lemma_nvs_index(b.drop_last());
            assert forall|i: int| 0 <= i < a.len() - 1 implies nvs(a.drop_last())[i] == nvs(b.drop_last())[i] by {
                assert(a.drop_last()[i] == a[i]);
                assert(b.drop_last()[i] == b[i]);
            }
            assert(nvs(a.drop_last()) =~= nvs(b.drop_last()));
        }
        lemma_stmts_congruent(m, cur, a.drop_last(), b.drop_last());
        let r = lower_stmts(m, cur, a.drop_last());
        if r is Ok {
            lemma_stmt_congruent(r->Ok_0.0, cur, a.last(), b.last());
        }
    }
}

proof fn lemma_stmt_congruent(m: ModuleView, cur: Seq<Seq<char>>, a: Node, b: Node)
    requires
        nv(a) == nv(b),
    ensures
        lower_stmt(m, cur, a) == lower_stmt(m, cur, b),
    decreases a, 0nat,
{
    match a {
        Node::NamedFunction { id, parameters, body } => {
            let id2 = b->NamedFunction_id;
            assert(nv(*id) == nv(*id2));
            assert(ident_name(*id) == ident_name(*id2));
            lemma_param_names_congruent(parameters@, b->NamedFunction_parameters@);
            if let (Some(name), Some(ps)) = (ident_name(*id), param_names(parameters@)) {
                lemma_decl_congruent(m, name, ps, body@, b->NamedFunction_body@);
            }
        },
        Node::FuncCall { callee, arguments } => {
            let c2 = b->FuncCall_callee;
            assert(nv(*callee) == nv(*c2));
            assert(ident_name(*callee) == ident_name(*c2));
            if let Some(name) = ident_name(*callee) {
                if let Some(f) = first_index(function_names(m.functions), name) {
                    lemma_args_congruent(m, cur, m.functions[f].params.len(), arguments@, b->FuncCall_arguments@);
                }
            }
        },
        _ => {},
    }
}

/// The lowering of a program depends on its view alone: two trees with the
/// same view lower alike.
pub proof fn lowering_depends_on_view(m: ModuleView, a: Node, b: Node)
    requires
        nv(a) == nv(b),
    ensures
        lower_program(m, a) == lower_program(m, b),
{
    let m1 = ModuleView { functions: m.functions.push(logger_stub()), ..m };
    if let Node::Program { body } = a {
        lemma_decl_congruent(m1, "main"@, seq![], body@, b->Program_body@);
    }
}

/// Compilation is deterministic up to the object file: every tree that the
/// source text parses to lowers to the same module, or fails with the same
/// error.
pub proof fn compilation_is_deterministic(src: Seq<char>, p: Node, q: Node)
    requires
        crate::is_parse_of(src, p),
        crate::is_parse_of(src, q),
    ensures
        lower_program(empty_module(), p) == lower_program(empty_module(), q),
{
    lowering_depends_on_view(empty_module(), p, q);
}

/// The number of call statements in a list of statements.
pub open spec fn call_count(stmts: Seq<Node>) -> nat
    decreases stmts.len(),
{
    if stmts.len() == 0 {
        0
    } else {
        call_count(stmts.drop_last()) + if stmts.last() is FuncCall {
            1nat
        } else {
            0nat
        }
    }
}

/// A function body lowers to exactly one call instruction per call
/// statement, in order; a nested declaration adds no call to it.
pub proof fn one_call_per_call_statement(m: ModuleView, cur: Seq<Seq<char>>, stmts: Seq<Node>)
    ensures
        lower_stmts(m, cur, stmts) is Ok ==> lower_stmts(m, cur, stmts)->Ok_0.1.len() == call_count(stmts),
    decreases stmts.len(),
{
    if stmts.len() > 0 {
        one_call_per_call_statement(m, cur, stmts.drop_last());
        let r = lower_stmts(m, cur, stmts.drop_last());
        if r is Ok {
            let x = lower_stmt(r->Ok_0.0, cur, stmts.last());
            assert(x is Ok ==> (x->Ok_0.1 is Some <==> stmts.last() is FuncCall));
        }
    }
}

proof fn lemma_names_differ()
    ensures
        "logger"@ != "main"@,
{
    reveal_strlit("logger");
    reveal_strlit("main");
    assert("logger"@.len() != "main"@.len());
}

} // verus!
