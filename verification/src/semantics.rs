//! The mathematical semantics of the language: a definitional interpreter
//! over abstract syntax, abstract state, and the table of numeric results.
//! The executable evaluator is proved equal to these functions.

use vstd::prelude::*;
use crate::ast::NodeAbs;
use crate::ast::Type;
use crate::table::ArithOp;
use crate::text::stripped_of;
use crate::text::unescaped;

verus! {

/// The condition on which a run is cut short.
#[derive(Clone, Copy, PartialEq, Eq, Structural, Debug)]
pub enum ErrKind {
    TypeMismatch,
    UndefinedIdentifier,
    CyclicReference,
    InvalidAssignTarget,
    InvalidAssignValue,
    InvalidPrintValue,
    InvalidProcName,
    InvalidProcBody,
    UndefinedProcedure,
    InvalidCondition,
}

/// Why evaluation stopped before the end of the program.
pub enum HaltAbs {
    /// A numeric operation whose result the table does not hold yet.
    Need(ArithOp, Seq<char>, Seq<char>),
    /// A contract violation, with the text describing it.
    Fail(ErrKind, Seq<char>),
    /// The procedure-call budget ran out.
    Spin,
}

/// What resolving an expression yields.
pub enum ResolveOut {
    Val(Type, Seq<char>),
    Halt(HaltAbs),
}

/// What following an identifier chain yields.
pub enum ChaseOut {
    Found(Type, Seq<char>),
    Missing(Seq<char>),
    Cycle(Seq<char>),
}

/// The whole mutable context of a run: bindings, their count, the
/// procedure registry, the output so far, and the index of the current
/// top-level statement.
#[verifier::ext_equal]
pub struct StateAbs {
    pub vars: Map<Seq<char>, (Type, Seq<char>)>,
    pub nvars: nat,
    pub procs: Map<Seq<char>, NodeAbs>,
    pub out: Seq<char>,
    pub line: nat,
}

/// One step of the statement executor: the state after it, and the halt
/// it raised, if any.
#[verifier::ext_equal]
pub struct StepOut {
    pub st: StateAbs,
    pub halt: Option<HaltAbs>,
}

/// The table of numeric results, abstractly.
pub type NumMap = Map<(ArithOp, Seq<char>, Seq<char>), Seq<char>>;

/// The state of a run before its first statement.
pub open spec fn init_state() -> StateAbs {
    StateAbs {
        vars: Map::empty(),
        nvars: 0,
        procs: Map::empty(),
        out: Seq::empty(),
        line: 0,
    }
}

/// The diagnostic for a value where a number was expected.
pub open spec fn not_a_number(v: Seq<char>) -> Seq<char> {
    "`"@ + v + "` is not a number."@
}

/// The diagnostic for two operands of different types.
pub open spec fn not_same_type(l: Seq<char>, r: Seq<char>) -> Seq<char> {
    "`"@ + l + "` and `"@ + r + "` are not the same type."@
}

/// The diagnostic for a name that no variable carries.
pub open spec fn undefined_variable(n: Seq<char>) -> Seq<char> {
    "`"@ + n + "` is not a defined variable."@
}

/// The diagnostic for an identifier chain that never reaches a value.
pub open spec fn cyclic_chain(n: Seq<char>) -> Seq<char> {
    "`"@ + n + "` never resolves to a concrete value."@
}

/// The diagnostic for a value where an identifier was expected.
pub open spec fn not_an_identifier(v: Seq<char>) -> Seq<char> {
    "`"@ + v + "` is not a valid identifier."@
}

/// The diagnostic for a value that cannot be assigned.
pub open spec fn not_a_value(v: Seq<char>) -> Seq<char> {
    "`"@ + v + "` is not a valid value."@
}

/// The diagnostic for printing an unprintable resolution.
pub open spec fn not_printable(v: Seq<char>) -> Seq<char> {
    "`"@ + v + "` is not of a valid type."@
}

/// The diagnostic for a procedure body that is not a block.
pub open spec fn not_a_block(v: Seq<char>) -> Seq<char> {
    "`"@ + v + "` is not a valid block."@
}

/// The diagnostic for a call to a name that no procedure carries.
pub open spec fn undefined_procedure(n: Seq<char>) -> Seq<char> {
    "`"@ + n + "` is not a defined procedure."@
}

/// The diagnostic for a condition that is not numeric.
pub open spec fn not_a_condition(v: Seq<char>) -> Seq<char> {
    "`"@ + v + "` is not a valid condition."@
}

/// Follows an identifier chain through the bindings until a concrete
/// type is reached, for at most `fuel` redirections.
pub open spec fn chase(
    vars: Map<Seq<char>, (Type, Seq<char>)>,
    name: Seq<char>,
    fuel: nat,
) -> ChaseOut
    decreases fuel,
{
    if !vars.contains_key(name) {
        ChaseOut::Missing(name)
    } else {
        let tv = vars[name];
        if !(tv.0 is Identifier) {
            ChaseOut::Found(tv.0, tv.1)
        } else if fuel == 0 {
            ChaseOut::Cycle(name)
        } else {
            chase(vars, tv.1, (fuel - 1) as nat)
        }
    }
}

/// A resolved pair, with its identifier chased through the bindings to a
/// concrete type; the chase budget is the number of bindings, which a
/// chain without a cycle can never exceed.
pub open spec fn chased(st: StateAbs, t: Type, v: Seq<char>) -> ResolveOut {
    if t is Identifier {
        match chase(st.vars, v, st.nvars) {
            ChaseOut::Found(t2, v2) => ResolveOut::Val(t2, v2),
            ChaseOut::Missing(nm) => ResolveOut::Halt(
                HaltAbs::Fail(ErrKind::UndefinedIdentifier, undefined_variable(nm)),
            ),
            ChaseOut::Cycle(nm) => ResolveOut::Halt(
                HaltAbs::Fail(ErrKind::CyclicReference, cyclic_chain(nm)),
            ),
        }
    } else {
        ResolveOut::Val(t, v)
    }
}

/// The table's answer for one numeric operation, or the request for it.
pub open spec fn lookup_num(tbl: NumMap, op: ArithOp, lv: Seq<char>, rv: Seq<char>) -> ResolveOut {
    if tbl.contains_key((op, lv, rv)) {
        ResolveOut::Val(Type::Num, tbl[(op, lv, rv)])
    } else {
        ResolveOut::Halt(HaltAbs::Need(op, lv, rv))
    }
}

/// Addition: each chased side must be a number or a text, both of one
/// type; numbers go to the table, texts are joined.
pub open spec fn resolve_add(st: StateAbs, tbl: NumMap, lr: ResolveOut, rr: ResolveOut) -> ResolveOut {
    match lr {
        ResolveOut::Halt(h) => ResolveOut::Halt(h),
        ResolveOut::Val(lt0, lv0) => match rr {
            ResolveOut::Halt(h) => ResolveOut::Halt(h),
            ResolveOut::Val(rt0, rv0) => match chased(st, lt0, lv0) {
                ResolveOut::Halt(h) => ResolveOut::Halt(h),
                ResolveOut::Val(lt, lv) => if !(lt is Str) && !(lt is Num) {
                    ResolveOut::Halt(HaltAbs::Fail(ErrKind::TypeMismatch, not_a_number(lv)))
                } else {
                    match chased(st, rt0, rv0) {
                        ResolveOut::Halt(h) => ResolveOut::Halt(h),
                        ResolveOut::Val(rt, rv) => if !(rt is Str) && !(rt is Num) {
                            ResolveOut::Halt(
                                HaltAbs::Fail(ErrKind::TypeMismatch, not_a_number(rv)),
                            )
                        } else if lt != rt {
                            ResolveOut::Halt(
                                HaltAbs::Fail(ErrKind::TypeMismatch, not_same_type(lv, rv)),
                            )
                        } else if lt is Num {
                            lookup_num(tbl, ArithOp::Add, lv, rv)
                        } else {
                            ResolveOut::Val(Type::Str, lv + rv)
                        },
                    }
                },
            },
        },
    }
}

/// Subtraction, multiplication and division: each side is chased and
/// checked to be a number as it is reached, then the table answers.
pub open spec fn resolve_num_op(
    st: StateAbs,
    tbl: NumMap,
    op: ArithOp,
    lr: ResolveOut,
    rr: ResolveOut,
) -> ResolveOut {
    match lr {
        ResolveOut::Halt(h) => ResolveOut::Halt(h),
        ResolveOut::Val(lt0, lv0) => match rr {
            ResolveOut::Halt(h) => ResolveOut::Halt(h),
            ResolveOut::Val(rt0, rv0) => match chased(st, lt0, lv0) {
                ResolveOut::Halt(h) => ResolveOut::Halt(h),
                ResolveOut::Val(lt, lv) => if !(lt is Num) {
                    ResolveOut::Halt(HaltAbs::Fail(ErrKind::TypeMismatch, not_a_number(lv)))
                } else {
                    match chased(st, rt0, rv0) {
                        ResolveOut::Halt(h) => ResolveOut::Halt(h),
                        ResolveOut::Val(rt, rv) => if !(rt is Num) {
                            ResolveOut::Halt(
                                HaltAbs::Fail(ErrKind::TypeMismatch, not_a_number(rv)),
                            )
                        } else {
                            lookup_num(tbl, op, lv, rv)
                        },
                    }
                },
            },
        },
    }
}

/// Ordering: both sides are chased first, then each must be a number,
/// then the table answers with the truth text.
pub open spec fn resolve_order(
    st: StateAbs,
    tbl: NumMap,
    op: ArithOp,
    lr: ResolveOut,
    rr: ResolveOut,
) -> ResolveOut {
    match lr {
        ResolveOut::Halt(h) => ResolveOut::Halt(h),
        ResolveOut::Val(lt0, lv0) => match rr {
            ResolveOut::Halt(h) => ResolveOut::Halt(h),
            ResolveOut::Val(rt0, rv0) => match chased(st, lt0, lv0) {
                ResolveOut::Halt(h) => ResolveOut::Halt(h),
                ResolveOut::Val(lt, lv) => match chased(st, rt0, rv0) {
                    ResolveOut::Halt(h) => ResolveOut::Halt(h),
                    ResolveOut::Val(rt, rv) => if !(lt is Num) {
                        ResolveOut::Halt(HaltAbs::Fail(ErrKind::TypeMismatch, not_a_number(lv)))
                    } else if !(rt is Num) {
                        ResolveOut::Halt(HaltAbs::Fail(ErrKind::TypeMismatch, not_a_number(rv)))
                    } else {
                        lookup_num(tbl, op, lv, rv)
                    },
                },
            },
        },
    }
}

/// Equality and inequality: both sides are chased, then compared by
/// their resolved textual value alone, yielding the truth text.
pub open spec fn resolve_compare(
    st: StateAbs,
    want_equal: bool,
    lr: ResolveOut,
    rr: ResolveOut,
) -> ResolveOut {
    match lr {
        ResolveOut::Halt(h) => ResolveOut::Halt(h),
        ResolveOut::Val(lt0, lv0) => match rr {
            ResolveOut::Halt(h) => ResolveOut::Halt(h),
            ResolveOut::Val(rt0, rv0) => match chased(st, lt0, lv0) {
                ResolveOut::Halt(h) => ResolveOut::Halt(h),
                ResolveOut::Val(lt, lv) => match chased(st, rt0, rv0) {
                    ResolveOut::Halt(h) => ResolveOut::Halt(h),
                    ResolveOut::Val(rt, rv) => ResolveOut::Val(
                        Type::Num,
                        if (lv == rv) == want_equal {
                            seq!['1']
                        } else {
                            seq!['0']
                        },
                    ),
                },
            },
        },
    }
}

/// The value resolver: the type and textual value of an expression node.
pub open spec fn resolve(st: StateAbs, tbl: NumMap, n: NodeAbs) -> ResolveOut
    decreases n,
{
    match n {
        NodeAbs::Num(s) => ResolveOut::Val(Type::Num, s),
        NodeAbs::Str(s) => ResolveOut::Val(Type::Str, unescaped(stripped_of(s))),
        NodeAbs::Identifier(s) => ResolveOut::Val(Type::Identifier, s),
        NodeAbs::Add(l, r) => resolve_add(st, tbl, resolve(st, tbl, *l), resolve(st, tbl, *r)),
        NodeAbs::Sub(l, r) => resolve_num_op(
            st,
            tbl,
            ArithOp::Sub,
            resolve(st, tbl, *l),
            resolve(st, tbl, *r),
        ),
        NodeAbs::Mul(l, r) => resolve_num_op(
            st,
            tbl,
            ArithOp::Mul,
            resolve(st, tbl, *l),
            resolve(st, tbl, *r),
        ),
        NodeAbs::Div(l, r) => resolve_num_op(
            st,
            tbl,
            ArithOp::Div,
            resolve(st, tbl, *l),
            resolve(st, tbl, *r),
        ),
        NodeAbs::Eq(l, r) => resolve_compare(st, true, resolve(st, tbl, *l), resolve(st, tbl, *r)),
        NodeAbs::NotEq(l, r) => resolve_compare(
            st,
            false,
            resolve(st, tbl, *l),
            resolve(st, tbl, *r),
        ),
        NodeAbs::Gt(l, r) => resolve_order(
            st,
            tbl,
            ArithOp::Gt,
            resolve(st, tbl, *l),
            resolve(st, tbl, *r),
        ),
        NodeAbs::Lt(l, r) => resolve_order(
            st,
            tbl,
            ArithOp::Lt,
            resolve(st, tbl, *l),
            resolve(st, tbl, *r),
        ),
        NodeAbs::Block(_) => ResolveOut::Val(Type::Block, Seq::empty()),
        _ => ResolveOut::Val(Type::Invalid, Seq::empty()),
    }
}

/// The state after a binding is written, with copy semantics.
pub open spec fn assign_state(st: StateAbs, name: Seq<char>, t: Type, v: Seq<char>) -> StateAbs {
    StateAbs {
        vars: st.vars.insert(name, (t, v)),
        nvars: if st.vars.contains_key(name) {
            st.nvars
        } else {
            st.nvars + 1
        },
        ..st
    }
}

/// A step that stops with the given halt and leaves the state unchanged.
pub open spec fn halted(st: StateAbs, h: HaltAbs) -> StepOut {
    StepOut { st, halt: Some(h) }
}

/// A step that stops with a contract violation.
pub open spec fn failed(st: StateAbs, k: ErrKind, text: Seq<char>) -> StepOut {
    halted(st, HaltAbs::Fail(k, text))
}

/// A step that completes with the given state.
pub open spec fn stepped(st: StateAbs) -> StepOut {
    StepOut { st, halt: Option::None }
}

/// An assignment: the target must resolve to an identifier, the value
/// to something storable; the chased value is then bound with copy
/// semantics.
pub open spec fn exec_assign(st: StateAbs, tbl: NumMap, target: NodeAbs, value: NodeAbs) -> StepOut {
    match resolve(st, tbl, target) {
        ResolveOut::Halt(h) => halted(st, h),
        ResolveOut::Val(tt, tv) => if !(tt is Identifier) {
            failed(st, ErrKind::InvalidAssignTarget, not_an_identifier(tv))
        } else {
            match resolve(st, tbl, value) {
                ResolveOut::Halt(h) => halted(st, h),
                ResolveOut::Val(vt0, vv0) => if !(vt0 is Num) && !(vt0 is Str) && !(vt0
                    is Identifier) {
                    failed(st, ErrKind::InvalidAssignValue, not_a_value(vv0))
                } else {
                    match chased(st, vt0, vv0) {
                        ResolveOut::Halt(h) => halted(st, h),
                        ResolveOut::Val(vt, vv) => stepped(assign_state(st, tv, vt, vv)),
                    }
                },
            }
        },
    }
}

/// A print: the resolved, chased value's text joins the output, with no
/// implicit newline.
pub open spec fn exec_print(st: StateAbs, tbl: NumMap, e: NodeAbs) -> StepOut {
    match resolve(st, tbl, e) {
        ResolveOut::Halt(h) => halted(st, h),
        ResolveOut::Val(t0, v0) => if t0 is Invalid {
            failed(st, ErrKind::InvalidPrintValue, not_printable(v0))
        } else {
            match chased(st, t0, v0) {
                ResolveOut::Halt(h) => halted(st, h),
                ResolveOut::Val(t, v) => stepped(StateAbs { out: st.out + v, ..st }),
            }
        },
    }
}

/// A procedure definition: the name must resolve to an identifier and
/// the body to a block; the body node is stored unevaluated, silently
/// superseding any earlier definition.
pub open spec fn exec_proc_def(st: StateAbs, tbl: NumMap, name: NodeAbs, body: NodeAbs) -> StepOut {
    match resolve(st, tbl, name) {
        ResolveOut::Halt(h) => halted(st, h),
        ResolveOut::Val(nt, nv) => if !(nt is Identifier) {
            failed(st, ErrKind::InvalidProcName, not_an_identifier(nv))
        } else {
            match resolve(st, tbl, body) {
                ResolveOut::Halt(h) => halted(st, h),
                ResolveOut::Val(bt, bv) => if !(bt is Block) {
                    failed(st, ErrKind::InvalidProcBody, not_a_block(bv))
                } else {
                    stepped(StateAbs { procs: st.procs.insert(nv, body), ..st })
                },
            }
        },
    }
}

/// Runs a node taken as a branch or stored body: a block runs its
/// statements in order, anything else has no effect.
pub open spec fn exec_branch(st: StateAbs, tbl: NumMap, body: NodeAbs, fuel: nat) -> StepOut
    decreases fuel, body, 0int,
{
    match body {
        NodeAbs::Block(items) => exec_seq(st, tbl, items, fuel),
        _ => stepped(st),
    }
}

/// The statement executor: the effect of one statement node.
pub open spec fn exec_stmt(st: StateAbs, tbl: NumMap, n: NodeAbs, fuel: nat) -> StepOut
    decreases fuel, n, 1int,
{
    match n {
        NodeAbs::Assign(target, value) => exec_assign(st, tbl, *target, *value),
        NodeAbs::Print(e) => exec_print(st, tbl, *e),
        NodeAbs::Proc(name, body) => exec_proc_def(st, tbl, *name, *body),
        NodeAbs::Call(name) => exec_call(st, tbl, *name, fuel),
        NodeAbs::If(cond, body) => match resolve(st, tbl, *cond) {
            ResolveOut::Halt(h) => halted(st, h),
            ResolveOut::Val(ct0, cv0) => match chased(st, ct0, cv0) {
                ResolveOut::Halt(h) => halted(st, h),
                ResolveOut::Val(ct, cv) => if !(ct is Num) {
                    failed(st, ErrKind::InvalidCondition, not_a_condition(cv))
                } else if cv == seq!['0'] {
                    stepped(st)
                } else {
                    exec_branch(st, tbl, *body, fuel)
                },
            },
        },
        NodeAbs::IfElse(cond, then_body, else_body) => match resolve(st, tbl, *cond) {
            ResolveOut::Halt(h) => halted(st, h),
            ResolveOut::Val(ct0, cv0) => match chased(st, ct0, cv0) {
                ResolveOut::Halt(h) => halted(st, h),
                ResolveOut::Val(ct, cv) => if !(ct is Num) {
                    failed(st, ErrKind::InvalidCondition, not_a_condition(cv))
                } else if cv == seq!['0'] {
                    exec_branch(st, tbl, *else_body, fuel)
                } else {
                    exec_branch(st, tbl, *then_body, fuel)
                },
            },
        },
        _ => stepped(st),
    }
}

/// A procedure call: the name is resolved and must be an identifier
/// registered as a procedure; the stored block then runs in the caller's
/// own context, spending one unit of the call budget.
pub open spec fn exec_call(st: StateAbs, tbl: NumMap, name: NodeAbs, fuel: nat) -> StepOut
    decreases fuel, name, 0int,
{
    match resolve(st, tbl, name) {
        ResolveOut::Halt(h) => halted(st, h),
        ResolveOut::Val(nt, nv) => if !(nt is Identifier) {
            failed(st, ErrKind::InvalidProcName, not_an_identifier(nv))
        } else if !st.procs.contains_key(nv) {
            failed(st, ErrKind::UndefinedProcedure, undefined_procedure(nv))
        } else if fuel == 0 {
            halted(st, HaltAbs::Spin)
        } else {
            exec_branch(st, tbl, st.procs[nv], (fuel - 1) as nat)
        },
    }
}

/// Runs the statements of a block in order, stopping at the first halt.
pub open spec fn exec_seq(st: StateAbs, tbl: NumMap, ns: Seq<NodeAbs>, fuel: nat) -> StepOut
    decreases fuel, ns, 2int,
{
    if ns.len() == 0 {
        stepped(st)
    } else {
        let r = exec_stmt(st, tbl, ns[0], fuel);
        if r.halt is Some {
            r
        } else {
            exec_seq(r.st, tbl, ns.drop_first(), fuel)
        }
    }
}

/// Runs the top-level statements in order, recording each one's index as
/// the current line before it executes.
pub open spec fn run_tops(st: StateAbs, tbl: NumMap, ns: Seq<NodeAbs>, idx: nat, fuel: nat) -> StepOut
    decreases ns.len(),
{
    if ns.len() == 0 {
        stepped(st)
    } else {
        let r = exec_stmt(StateAbs { line: idx, ..st }, tbl, ns[0], fuel);
        if r.halt is Some {
            r
        } else {
            run_tops(r.st, tbl, ns.drop_first(), idx + 1, fuel)
        }
    }
}

/// A whole program run from the empty state.
pub open spec fn run_program(tbl: NumMap, prog: Seq<NodeAbs>, fuel: nat) -> StepOut {
    run_tops(init_state(), tbl, prog, 0, fuel)
}

/// A statement never changes which top-level line is current.
pub proof fn lemma_stmt_line(st: StateAbs, tbl: NumMap, n: NodeAbs, fuel: nat)
    ensures
        exec_stmt(st, tbl, n, fuel).st.line == st.line,
    decreases fuel, n, 1int,
{
    match n {
        NodeAbs::Call(name) => {
            lemma_call_line(st, tbl, *name, fuel);
        },
        NodeAbs::If(_cond, body) => {
            lemma_branch_line(st, tbl, *body, fuel);
        },
        NodeAbs::IfElse(_cond, then_body, else_body) => {
            lemma_branch_line(st, tbl, *then_body, fuel);
            lemma_branch_line(st, tbl, *else_body, fuel);
        },
        _ => {},
    }
}

/// A branch never changes which top-level line is current.
pub proof fn lemma_branch_line(st: StateAbs, tbl: NumMap, body: NodeAbs, fuel: nat)
    ensures
        exec_branch(st, tbl, body, fuel).st.line == st.line,
    decreases fuel, body, 0int,
{
    match body {
        NodeAbs::Block(items) => {
            lemma_seq_line(st, tbl, items, fuel);
        },
        _ => {},
    }
}

/// A procedure call never changes which top-level line is current.
pub proof fn lemma_call_line(st: StateAbs, tbl: NumMap, name: NodeAbs, fuel: nat)
    ensures
        exec_call(st, tbl, name, fuel).st.line == st.line,
    decreases fuel, name, 0int,
{
    match resolve(st, tbl, name) {
        ResolveOut::Val(nt, nv) => {
            if nt is Identifier && st.procs.contains_key(nv) && fuel > 0 {
                lemma_branch_line(st, tbl, st.procs[nv], (fuel - 1) as nat);
            }
        },
        _ => {},
    }
}

/// A block never changes which top-level line is current.
pub proof fn lemma_seq_line(st: StateAbs, tbl: NumMap, ns: Seq<NodeAbs>, fuel: nat)
    ensures
        exec_seq(st, tbl, ns, fuel).st.line == st.line,
    decreases fuel, ns, 2int,
{
    if ns.len() > 0 {
        lemma_stmt_line(st, tbl, ns[0], fuel);
        let r = exec_stmt(st, tbl, ns[0], fuel);
        if r.halt is None {
            lemma_seq_line(r.st, tbl, ns.drop_first(), fuel);
        }
    }
}

} // verus!
