//! General laws of the evaluator, stated over the definitional
//! semantics and proved once for all inputs.

use vstd::prelude::*;
use crate::ast::NodeAbs;
use crate::ast::expr_form;
use crate::ast::stmt_form;
use crate::ast::stmts_form;
use crate::ast::Type;
use crate::semantics::ChaseOut;
use crate::semantics::ErrKind;
use crate::semantics::HaltAbs;
use crate::semantics::NumMap;
use crate::semantics::ResolveOut;
use crate::semantics::StateAbs;
use crate::semantics::chase;
use crate::semantics::chased;
use crate::semantics::exec_assign;
use crate::semantics::exec_branch;
use crate::semantics::exec_call;
use crate::semantics::exec_print;
use crate::semantics::exec_proc_def;
use crate::semantics::exec_stmt;
use crate::semantics::not_same_type;
use crate::semantics::resolve;
use crate::semantics::exec_seq;
use crate::semantics::run_program;
use crate::semantics::run_tops;
use crate::semantics::stepped;
use crate::table::ArithOp;
use crate::text::stripped_of;
use crate::text::unescaped;

verus! {

/// Adding two number literals yields a number: exactly the result the
/// table records for their texts, whatever the rest of the state holds.
pub proof fn lemma_add_numbers(st: StateAbs, tbl: NumMap, a: Seq<char>, b: Seq<char>)
    requires
        tbl.contains_key((ArithOp::Add, a, b)),
    ensures
        resolve(st, tbl, NodeAbs::Add(Box::new(NodeAbs::Num(a)), Box::new(NodeAbs::Num(b))))
            == ResolveOut::Val(Type::Num, tbl[(ArithOp::Add, a, b)]),
{
    reveal_with_fuel(resolve, 2);
}

/// Adding two string literals yields their texts joined, with no
/// separator.
pub proof fn lemma_add_texts(st: StateAbs, tbl: NumMap, a: Seq<char>, b: Seq<char>)
    ensures
        resolve(st, tbl, NodeAbs::Add(Box::new(NodeAbs::Str(a)), Box::new(NodeAbs::Str(b))))
            == ResolveOut::Val(
            Type::Str,
            unescaped(stripped_of(a)) + unescaped(stripped_of(b)),
        ),
{
    reveal_with_fuel(resolve, 2);
}

/// Adding a number literal and a string literal is a fatal type
/// mismatch, naming both operands.
pub proof fn lemma_add_mixed_is_mismatch(st: StateAbs, tbl: NumMap, a: Seq<char>, s: Seq<char>)
    ensures
        resolve(st, tbl, NodeAbs::Add(Box::new(NodeAbs::Num(a)), Box::new(NodeAbs::Str(s))))
            == ResolveOut::Halt(
            HaltAbs::Fail(ErrKind::TypeMismatch, not_same_type(a, unescaped(stripped_of(s)))),
        ),
{
    reveal_with_fuel(resolve, 2);
}

/// Equality compares by resolved textual value alone: whenever the two
/// sides resolve to concrete values, the originating type tags play no
/// part in the verdict.
pub proof fn lemma_eq_by_text(
    st: StateAbs,
    tbl: NumMap,
    l: NodeAbs,
    r: NodeAbs,
    lt: Type,
    lv: Seq<char>,
    rt: Type,
    rv: Seq<char>,
)
    requires
        resolve(st, tbl, l) == ResolveOut::Val(lt, lv),
        resolve(st, tbl, r) == ResolveOut::Val(rt, rv),
        !(lt is Identifier),
        !(rt is Identifier),
    ensures
        resolve(st, tbl, NodeAbs::Eq(Box::new(l), Box::new(r))) == ResolveOut::Val(
            Type::Num,
            if lv == rv {
                seq!['1']
            } else {
                seq!['0']
            },
        ),
{
}

/// Assignment has copy semantics: the target name is bound to the
/// resolved concrete snapshot, never to a live reference, and every
/// other binding is left untouched. A later change to the source
/// variable therefore cannot reach the copy.
pub proof fn lemma_assign_copies(
    st: StateAbs,
    tbl: NumMap,
    x: Seq<char>,
    value: NodeAbs,
    vt0: Type,
    vv0: Seq<char>,
    vt: Type,
    vv: Seq<char>,
    y: Seq<char>,
)
    requires
        resolve(st, tbl, value) == ResolveOut::Val(vt0, vv0),
        vt0 is Num || vt0 is Str || vt0 is Identifier,
        chased(st, vt0, vv0) == ResolveOut::Val(vt, vv),
    ensures
        ({
            let so = exec_assign(st, tbl, NodeAbs::Identifier(x), value);
            &&& so.halt is None
            &&& so.st.vars == st.vars.insert(x, (vt, vv))
            &&& !(vt is Identifier)
            &&& (y != x ==> so.st.vars.contains_key(y) == st.vars.contains_key(y))
            &&& (y != x && st.vars.contains_key(y) ==> so.st.vars[y] == st.vars[y])
        }),
{
    if vt0 is Identifier {
        lemma_chase_concrete(st.vars, vv0, st.nvars);
    }
}

/// Whatever a chase finds is concrete: its type tag is never the
/// deferred identifier one.
pub proof fn lemma_chase_concrete(vars: Map<Seq<char>, (Type, Seq<char>)>, name: Seq<char>, fuel: nat)
    ensures
        forall|t: Type, v: Seq<char>|
            chase(vars, name, fuel) == ChaseOut::Found(t, v) ==> !(t is Identifier),
    decreases fuel,
{
    if vars.contains_key(name) && vars[name].0 is Identifier && fuel > 0 {
        lemma_chase_concrete(vars, vars[name].1, (fuel - 1) as nat);
    }
}

/// Identifier chains resolve transitively: a name bound to another
/// identifier resolves to whatever that identifier resolves to.
pub proof fn lemma_chase_transitive(
    vars: Map<Seq<char>, (Type, Seq<char>)>,
    a: Seq<char>,
    b: Seq<char>,
    fuel: nat,
)
    requires
        vars.contains_key(a),
        vars[a] == (Type::Identifier, b),
        fuel > 0,
    ensures
        chase(vars, a, fuel) == chase(vars, b, (fuel - 1) as nat),
{
}

/// A conditional whose condition resolves to the number zero never
/// executes its block: the state is returned unchanged.
pub proof fn lemma_if_zero_skips(
    st: StateAbs,
    tbl: NumMap,
    cond: NodeAbs,
    body: NodeAbs,
    fuel: nat,
    ct0: Type,
    cv0: Seq<char>,
)
    requires
        resolve(st, tbl, cond) == ResolveOut::Val(ct0, cv0),
        chased(st, ct0, cv0) == ResolveOut::Val(Type::Num, seq!['0']),
    ensures
        exec_stmt(st, tbl, NodeAbs::If(Box::new(cond), Box::new(body)), fuel) == stepped(st),
{
}

/// A conditional whose condition resolves to any numeric text other
/// than zero — a negative number as much as any other — executes its
/// block.
pub proof fn lemma_if_nonzero_runs(
    st: StateAbs,
    tbl: NumMap,
    cond: NodeAbs,
    body: NodeAbs,
    fuel: nat,
    ct0: Type,
    cv0: Seq<char>,
    cv: Seq<char>,
)
    requires
        resolve(st, tbl, cond) == ResolveOut::Val(ct0, cv0),
        chased(st, ct0, cv0) == ResolveOut::Val(Type::Num, cv),
        cv != seq!['0'],
    ensures
        exec_stmt(st, tbl, NodeAbs::If(Box::new(cond), Box::new(body)), fuel) == exec_branch(
            st,
            tbl,
            body,
            fuel,
        ),
{
}

/// Redefining a procedure replaces the prior body silently, and a
/// subsequent call runs only the latest definition.
pub proof fn lemma_proc_redefinition(
    st: StateAbs,
    tbl: NumMap,
    name: Seq<char>,
    body1: NodeAbs,
    body2: NodeAbs,
    fuel: nat,
)
    requires
        body1 is Block,
        body2 is Block,
        fuel > 0,
    ensures
        ({
            let st1 = exec_proc_def(st, tbl, NodeAbs::Identifier(name), body1).st;
            let st2 = exec_proc_def(st1, tbl, NodeAbs::Identifier(name), body2).st;
            &&& st2.procs[name] == body2
            &&& exec_call(st2, tbl, NodeAbs::Identifier(name), fuel) == exec_branch(
                st2,
                tbl,
                body2,
                (fuel - 1) as nat,
            )
        }),
{
}

/// One table holds every record of another, with the same results.
pub open spec fn table_extends(tbl2: NumMap, tbl1: NumMap) -> bool {
    forall|k: (ArithOp, Seq<char>, Seq<char>)| #[trigger]
        tbl1.contains_key(k) ==> tbl2.contains_key(k) && tbl2[k] == tbl1[k]
}

/// Whether a resolution stopped for a missing numeric result.
pub open spec fn is_need(r: ResolveOut) -> bool {
    r matches ResolveOut::Halt(HaltAbs::Need(_, _, _))
}

/// Whether a step stopped for a missing numeric result.
pub open spec fn halt_is_need(h: Option<HaltAbs>) -> bool {
    h matches Some(HaltAbs::Need(_, _, _))
}

/// A resolution that did not stop for a missing numeric result is
/// unchanged when the table gains records.
pub proof fn lemma_resolve_stable(st: StateAbs, tbl1: NumMap, tbl2: NumMap, n: NodeAbs)
    requires
        table_extends(tbl2, tbl1),
    ensures
        !is_need(resolve(st, tbl1, n)) ==> resolve(st, tbl2, n) == resolve(st, tbl1, n),
    decreases n,
{
    match n {
        NodeAbs::Add(l, r) => {
            lemma_resolve_stable(st, tbl1, tbl2, *l);
            lemma_resolve_stable(st, tbl1, tbl2, *r);
        },
        NodeAbs::Sub(l, r) => {
            lemma_resolve_stable(st, tbl1, tbl2, *l);
            lemma_resolve_stable(st, tbl1, tbl2, *r);
        },
        NodeAbs::Mul(l, r) => {
            lemma_resolve_stable(st, tbl1, tbl2, *l);
            lemma_resolve_stable(st, tbl1, tbl2, *r);
        },
        NodeAbs::Div(l, r) => {
            lemma_resolve_stable(st, tbl1, tbl2, *l);
            lemma_resolve_stable(st, tbl1, tbl2, *r);
        },
        NodeAbs::Eq(l, r) => {
            lemma_resolve_stable(st, tbl1, tbl2, *l);
            lemma_resolve_stable(st, tbl1, tbl2, *r);
        },
        NodeAbs::NotEq(l, r) => {
            lemma_resolve_stable(st, tbl1, tbl2, *l);
            lemma_resolve_stable(st, tbl1, tbl2, *r);
        },
        NodeAbs::Gt(l, r) => {
            lemma_resolve_stable(st, tbl1, tbl2, *l);
            lemma_resolve_stable(st, tbl1, tbl2, *r);
        },
        NodeAbs::Lt(l, r) => {
            lemma_resolve_stable(st, tbl1, tbl2, *l);
            lemma_resolve_stable(st, tbl1, tbl2, *r);
        },
        _ => {},
    }
}

/// An assignment that did not stop for a missing numeric result is
/// unchanged when the table gains records.
proof fn lemma_assign_stable(
    st: StateAbs,
    tbl1: NumMap,
    tbl2: NumMap,
    target: NodeAbs,
    value: NodeAbs,
)
    requires
        table_extends(tbl2, tbl1),
    ensures
        !halt_is_need(exec_assign(st, tbl1, target, value).halt) ==> exec_assign(
            st,
            tbl2,
            target,
            value,
        ) == exec_assign(st, tbl1, target, value),
{
    lemma_resolve_stable(st, tbl1, tbl2, target);
    lemma_resolve_stable(st, tbl1, tbl2, value);
}

/// A print that did not stop for a missing numeric result is unchanged
/// when the table gains records.
proof fn lemma_print_stable(st: StateAbs, tbl1: NumMap, tbl2: NumMap, e: NodeAbs)
    requires
        table_extends(tbl2, tbl1),
    ensures
        !halt_is_need(exec_print(st, tbl1, e).halt) ==> exec_print(st, tbl2, e) == exec_print(
            st,
            tbl1,
            e,
        ),
{
    lemma_resolve_stable(st, tbl1, tbl2, e);
}

/// A procedure definition that did not stop for a missing numeric
/// result is unchanged when the table gains records.
proof fn lemma_proc_def_stable(
    st: StateAbs,
    tbl1: NumMap,
    tbl2: NumMap,
    name: NodeAbs,
    body: NodeAbs,
)
    requires
        table_extends(tbl2, tbl1),
    ensures
        !halt_is_need(exec_proc_def(st, tbl1, name, body).halt) ==> exec_proc_def(
            st,
            tbl2,
            name,
            body,
        ) == exec_proc_def(st, tbl1, name, body),
{
    lemma_resolve_stable(st, tbl1, tbl2, name);
    lemma_resolve_stable(st, tbl1, tbl2, body);
}

/// A statement that did not stop for a missing numeric result is
/// unchanged when the table gains records.
pub proof fn lemma_stmt_stable(st: StateAbs, tbl1: NumMap, tbl2: NumMap, n: NodeAbs, fuel: nat)
    requires
        table_extends(tbl2, tbl1),
    ensures
        !halt_is_need(exec_stmt(st, tbl1, n, fuel).halt) ==> exec_stmt(st, tbl2, n, fuel)
            == exec_stmt(st, tbl1, n, fuel),
    decreases fuel, n, 1int,
{
    match n {
        NodeAbs::Assign(target, value) => {
            lemma_assign_stable(st, tbl1, tbl2, *target, *value);
        },
        NodeAbs::Print(e) => {
            lemma_print_stable(st, tbl1, tbl2, *e);
        },
        NodeAbs::Proc(name, body) => {
            lemma_proc_def_stable(st, tbl1, tbl2, *name, *body);
        },
        NodeAbs::Call(name) => {
            lemma_call_stable(st, tbl1, tbl2, *name, fuel);
        },
        NodeAbs::If(cond, body) => {
            lemma_resolve_stable(st, tbl1, tbl2, *cond);
            lemma_branch_stable(st, tbl1, tbl2, *body, fuel);
        },
        NodeAbs::IfElse(cond, then_body, else_body) => {
            lemma_resolve_stable(st, tbl1, tbl2, *cond);
            lemma_branch_stable(st, tbl1, tbl2, *then_body, fuel);
            lemma_branch_stable(st, tbl1, tbl2, *else_body, fuel);
        },
        _ => {},
    }
}

/// A call that did not stop for a missing numeric result is unchanged
/// when the table gains records.
pub proof fn lemma_call_stable(st: StateAbs, tbl1: NumMap, tbl2: NumMap, name: NodeAbs, fuel: nat)
    requires
        table_extends(tbl2, tbl1),
    ensures
        !halt_is_need(exec_call(st, tbl1, name, fuel).halt) ==> exec_call(st, tbl2, name, fuel)
            == exec_call(st, tbl1, name, fuel),
    decreases fuel, name, 0int,
{
    lemma_resolve_stable(st, tbl1, tbl2, name);
    match resolve(st, tbl1, name) {
        ResolveOut::Val(nt, nv) => {
            if nt is Identifier && st.procs.contains_key(nv) && fuel > 0 {
                lemma_branch_stable(st, tbl1, tbl2, st.procs[nv], (fuel - 1) as nat);
            }
        },
        _ => {},
    }
}

/// A branch that did not stop for a missing numeric result is unchanged
/// when the table gains records.
pub proof fn lemma_branch_stable(st: StateAbs, tbl1: NumMap, tbl2: NumMap, body: NodeAbs, fuel: nat)
    requires
        table_extends(tbl2, tbl1),
    ensures
        !halt_is_need(exec_branch(st, tbl1, body, fuel).halt) ==> exec_branch(st, tbl2, body, fuel)
            == exec_branch(st, tbl1, body, fuel),
    decreases fuel, body, 0int,
{
    match body {
        NodeAbs::Block(items) => {
            lemma_seq_stable(st, tbl1, tbl2, items, fuel);
        },
        _ => {},
    }
}

/// A block that did not stop for a missing numeric result is unchanged
/// when the table gains records.
pub proof fn lemma_seq_stable(st: StateAbs, tbl1: NumMap, tbl2: NumMap, ns: Seq<NodeAbs>, fuel: nat)
    requires
        table_extends(tbl2, tbl1),
    ensures
        !halt_is_need(exec_seq(st, tbl1, ns, fuel).halt) ==> exec_seq(st, tbl2, ns, fuel)
            == exec_seq(st, tbl1, ns, fuel),
    decreases fuel, ns, 2int,
{
    if ns.len() > 0 {
        lemma_stmt_stable(st, tbl1, tbl2, ns[0], fuel);
        let r = exec_stmt(st, tbl1, ns[0], fuel);
        if r.halt is None {
            lemma_seq_stable(r.st, tbl1, tbl2, ns.drop_first(), fuel);
        }
    }
}

/// Top-level statements that did not stop for a missing numeric result
/// are unchanged when the table gains records.
pub proof fn lemma_tops_stable(
    st: StateAbs,
    tbl1: NumMap,
    tbl2: NumMap,
    ns: Seq<NodeAbs>,
    idx: nat,
    fuel: nat,
)
    requires
        table_extends(tbl2, tbl1),
    ensures
        !halt_is_need(run_tops(st, tbl1, ns, idx, fuel).halt) ==> run_tops(st, tbl2, ns, idx, fuel)
            == run_tops(st, tbl1, ns, idx, fuel),
    decreases ns.len(),
{
    if ns.len() > 0 {
        let st1 = StateAbs { line: idx, ..st };
        lemma_stmt_stable(st1, tbl1, tbl2, ns[0], fuel);
        let r = exec_stmt(st1, tbl1, ns[0], fuel);
        if r.halt is None {
            lemma_tops_stable(r.st, tbl1, tbl2, ns.drop_first(), idx + 1, fuel);
        }
    }
}

/// Recording more numeric results never changes a run that did not stop
/// for one: once a program completes, or fails, its whole outcome is
/// independent of whatever further results the table holds. This is
/// what lets a caller record the one missing result and simply run the
/// program again.
pub proof fn lemma_run_stable(tbl1: NumMap, tbl2: NumMap, prog: Seq<NodeAbs>, fuel: nat)
    requires
        table_extends(tbl2, tbl1),
    ensures
        !halt_is_need(run_program(tbl1, prog, fuel).halt) ==> run_program(tbl2, prog, fuel)
            == run_program(tbl1, prog, fuel),
{
    lemma_tops_stable(crate::semantics::init_state(), tbl1, tbl2, prog, 0, fuel);
}

/// The error kinds a structurally well-formed program can still raise
/// at run time; the others require a malformed tree, which the parser
/// never produces.
pub open spec fn runtime_kind(k: ErrKind) -> bool {
    ||| k is TypeMismatch
    ||| k is UndefinedIdentifier
    ||| k is CyclicReference
    ||| k is UndefinedProcedure
    ||| k is InvalidCondition
}

/// Every stored procedure body is a well-formed block.
pub open spec fn procs_wf(st: StateAbs) -> bool {
    forall|k: Seq<char>| #[trigger]
        st.procs.contains_key(k) ==> st.procs[k] is Block && stmt_form(st.procs[k])
}

/// Resolving an expression form yields a number, a text or an
/// identifier — never a block or an invalid marker — and can fail only
/// with a runtime kind.
pub proof fn lemma_resolve_expr_tag(st: StateAbs, tbl: NumMap, n: NodeAbs)
    requires
        expr_form(n),
    ensures
        ({
            let r = resolve(st, tbl, n);
            &&& (r matches ResolveOut::Val(t, v) ==> (t is Num || t is Str || t is Identifier))
            &&& (r matches ResolveOut::Halt(HaltAbs::Fail(k, m)) ==> runtime_kind(k))
        }),
    decreases n,
{
    match n {
        NodeAbs::Add(l, r) => {
            lemma_resolve_expr_tag(st, tbl, *l);
            lemma_resolve_expr_tag(st, tbl, *r);
        },
        NodeAbs::Sub(l, r) => {
            lemma_resolve_expr_tag(st, tbl, *l);
            lemma_resolve_expr_tag(st, tbl, *r);
        },
        NodeAbs::Mul(l, r) => {
            lemma_resolve_expr_tag(st, tbl, *l);
            lemma_resolve_expr_tag(st, tbl, *r);
        },
        NodeAbs::Div(l, r) => {
            lemma_resolve_expr_tag(st, tbl, *l);
            lemma_resolve_expr_tag(st, tbl, *r);
        },
        NodeAbs::Eq(l, r) => {
            lemma_resolve_expr_tag(st, tbl, *l);
            lemma_resolve_expr_tag(st, tbl, *r);
        },
        NodeAbs::NotEq(l, r) => {
            lemma_resolve_expr_tag(st, tbl, *l);
            lemma_resolve_expr_tag(st, tbl, *r);
        },
        NodeAbs::Gt(l, r) => {
            lemma_resolve_expr_tag(st, tbl, *l);
            lemma_resolve_expr_tag(st, tbl, *r);
        },
        NodeAbs::Lt(l, r) => {
            lemma_resolve_expr_tag(st, tbl, *l);
            lemma_resolve_expr_tag(st, tbl, *r);
        },
        _ => {},
    }
}

/// A well-formed statement preserves the registry's well-formedness and
/// can fail only with a runtime kind: the structural kinds — an invalid
/// assignment target or value, an unprintable resolution, a bad
/// procedure name or body — need a tree no parse produces.
pub proof fn lemma_stmt_kinds(st: StateAbs, tbl: NumMap, n: NodeAbs, fuel: nat)
    requires
        stmt_form(n),
        procs_wf(st),
    ensures
        ({
            let so = exec_stmt(st, tbl, n, fuel);
            &&& procs_wf(so.st)
            &&& (so.halt matches Some(HaltAbs::Fail(k, m)) ==> runtime_kind(k))
        }),
    decreases fuel, n, 1int,
{
    match n {
        NodeAbs::Assign(target, value) => {
            lemma_resolve_expr_tag(st, tbl, *value);
        },
        NodeAbs::Print(e) => {
            lemma_resolve_expr_tag(st, tbl, *e);
        },
        NodeAbs::Proc(name, body) => {
            let so = exec_proc_def(st, tbl, *name, *body);
            assert(procs_wf(so.st)) by {
                assert forall|k: Seq<char>| #[trigger]
                    so.st.procs.contains_key(k) implies so.st.procs[k] is Block && stmt_form(
                    so.st.procs[k],
                ) by {
                    if so.st.procs[k] != *body {
                        assert(st.procs.contains_key(k));
                    }
                }
            }
        },
        NodeAbs::Call(name) => {
            lemma_call_kinds(st, tbl, *name, fuel);
        },
        NodeAbs::If(cond, body) => {
            lemma_resolve_expr_tag(st, tbl, *cond);
            lemma_branch_kinds(st, tbl, *body, fuel);
        },
        NodeAbs::IfElse(cond, then_body, else_body) => {
            lemma_resolve_expr_tag(st, tbl, *cond);
            lemma_branch_kinds(st, tbl, *then_body, fuel);
            lemma_branch_kinds(st, tbl, *else_body, fuel);
        },
        _ => {},
    }
}

/// A call of a well-formed tree preserves the registry's
/// well-formedness and can fail only with a runtime kind.
pub proof fn lemma_call_kinds(st: StateAbs, tbl: NumMap, name: NodeAbs, fuel: nat)
    requires
        name is Identifier,
        procs_wf(st),
    ensures
        ({
            let so = exec_call(st, tbl, name, fuel);
            &&& procs_wf(so.st)
            &&& (so.halt matches Some(HaltAbs::Fail(k, m)) ==> runtime_kind(k))
        }),
    decreases fuel, name, 0int,
{
    match resolve(st, tbl, name) {
        ResolveOut::Val(nt, nv) => {
            if nt is Identifier && st.procs.contains_key(nv) && fuel > 0 {
                lemma_branch_kinds(st, tbl, st.procs[nv], (fuel - 1) as nat);
            }
        },
        _ => {},
    }
}

/// A well-formed branch preserves the registry's well-formedness and
/// can fail only with a runtime kind.
pub proof fn lemma_branch_kinds(st: StateAbs, tbl: NumMap, body: NodeAbs, fuel: nat)
    requires
        stmt_form(body),
        procs_wf(st),
    ensures
        ({
            let so = exec_branch(st, tbl, body, fuel);
            &&& procs_wf(so.st)
            &&& (so.halt matches Some(HaltAbs::Fail(k, m)) ==> runtime_kind(k))
        }),
    decreases fuel, body, 0int,
{
    match body {
        NodeAbs::Block(items) => {
            lemma_seq_kinds(st, tbl, items, fuel);
        },
        _ => {},
    }
}

/// A well-formed block preserves the registry's well-formedness and can
/// fail only with a runtime kind.
pub proof fn lemma_seq_kinds(st: StateAbs, tbl: NumMap, ns: Seq<NodeAbs>, fuel: nat)
    requires
        stmts_form(ns),
        procs_wf(st),
    ensures
        ({
            let so = exec_seq(st, tbl, ns, fuel);
            &&& procs_wf(so.st)
            &&& (so.halt matches Some(HaltAbs::Fail(k, m)) ==> runtime_kind(k))
        }),
    decreases fuel, ns, 2int,
{
    if ns.len() > 0 {
        lemma_stmt_kinds(st, tbl, ns[0], fuel);
        let r = exec_stmt(st, tbl, ns[0], fuel);
        if r.halt is None {
            lemma_seq_kinds(r.st, tbl, ns.drop_first(), fuel);
        }
    }
}

/// Well-formed top-level statements preserve the registry's
/// well-formedness and can fail only with a runtime kind.
pub proof fn lemma_tops_kinds(
    st: StateAbs,
    tbl: NumMap,
    ns: Seq<NodeAbs>,
    idx: nat,
    fuel: nat,
)
    requires
        stmts_form(ns),
        procs_wf(st),
    ensures
        ({
            let so = run_tops(st, tbl, ns, idx, fuel);
            &&& procs_wf(so.st)
            &&& (so.halt matches Some(HaltAbs::Fail(k, m)) ==> runtime_kind(k))
        }),
    decreases ns.len(),
{
    if ns.len() > 0 {
        let st1 = StateAbs { line: idx, ..st };
        lemma_stmt_kinds(st1, tbl, ns[0], fuel);
        let r = exec_stmt(st1, tbl, ns[0], fuel);
        if r.halt is None {
            lemma_tops_kinds(r.st, tbl, ns.drop_first(), idx + 1, fuel);
        }
    }
}

/// A program whose statements are all well formed — which is what the
/// parser's contract promises of everything it returns — can only fail
/// for a reason of the run itself: a type mismatch, an undefined or
/// circular name, an undefined procedure, or a non-numeric condition.
pub proof fn lemma_parsed_program_kinds(tbl: NumMap, prog: Seq<NodeAbs>, fuel: nat)
    requires
        stmts_form(prog),
    ensures
        run_program(tbl, prog, fuel).halt matches Some(HaltAbs::Fail(k, m)) ==> runtime_kind(k),
{
    lemma_tops_kinds(crate::semantics::init_state(), tbl, prog, 0, fuel);
}

/// The run is fail-fast: once a statement halts, the whole run is that
/// halt, and none of the following top-level statements executes.
pub proof fn lemma_halt_stops_run(
    st: StateAbs,
    tbl: NumMap,
    ns: Seq<NodeAbs>,
    idx: nat,
    fuel: nat,
)
    requires
        ns.len() > 0,
        exec_stmt((StateAbs { line: idx, ..st }), tbl, ns[0], fuel).halt is Some,
    ensures
        run_tops(st, tbl, ns, idx, fuel) == exec_stmt(
            (StateAbs { line: idx, ..st }),
            tbl,
            ns[0],
            fuel,
        ),
{
}

} // verus!
