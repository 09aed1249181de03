//! The executable evaluator: the value resolver and the statement
//! executor, each proved equal to the definitional semantics.

use vstd::prelude::*;
use crate::ast::Node;
use crate::ast::Type;
use crate::ast::node_abs;
use crate::ast::nodes_abs;
use crate::ast::lemma_nodes_abs;
use crate::env::Bindings;
use crate::env::ProcBodies;
use crate::env::bindings_map_of;
use crate::env::procs_map_of;
use crate::semantics::ChaseOut;
use crate::semantics::ErrKind;
use crate::semantics::HaltAbs;
use crate::semantics::ResolveOut;
use crate::semantics::StateAbs;
use crate::semantics::chase;
use crate::semantics::chased;
use crate::semantics::exec_assign;
use crate::semantics::exec_branch;
use crate::semantics::exec_call;
use crate::semantics::exec_print;
use crate::semantics::exec_proc_def;
use crate::semantics::exec_seq;
use crate::semantics::exec_stmt;
use crate::semantics::init_state;
use crate::semantics::resolve;
use crate::semantics::resolve_add;
use crate::semantics::resolve_compare;
use crate::semantics::resolve_num_op;
use crate::semantics::resolve_order;
use crate::semantics::run_program;
use crate::semantics::run_tops;
use crate::table::ArithOp;
use crate::table::NumTable;
use crate::text::strip_quotes;
use crate::text::unescape;
use vstd::string::StrSliceExecFns;
use vstd::string::StringExecFns;

verus! {

/// Why the evaluator stopped before finishing its statement.
pub enum Halt {
    /// A numeric operation whose result the table does not hold yet.
    Need(ArithOp, String, String),
    /// A contract violation, with the text describing it.
    Fail(ErrKind, String),
    /// The procedure-call budget ran out.
    Spin,
}

/// The abstraction of a halt.
pub open spec fn halt_abs(h: Halt) -> HaltAbs {
    match h {
        Halt::Need(op, a, b) => HaltAbs::Need(op, a@, b@),
        Halt::Fail(k, m) => HaltAbs::Fail(k, m@),
        Halt::Spin => HaltAbs::Spin,
    }
}

/// What following an identifier chain through the bindings yields.
pub enum ChaseRes {
    Found(Type, String),
    Missing(String),
    Cycle(String),
}

/// The abstraction of a chase result.
pub open spec fn chase_res_abs(r: ChaseRes) -> ChaseOut {
    match r {
        ChaseRes::Found(t, v) => ChaseOut::Found(t, v@),
        ChaseRes::Missing(n) => ChaseOut::Missing(n@),
        ChaseRes::Cycle(n) => ChaseOut::Cycle(n@),
    }
}

/// A diagnostic of the shape: backtick, value, closing text.
fn msg_one(v: &String, tail: &str) -> (r: String)
    ensures
        r@ == "`"@ + v@ + tail@,
{
    String::from_str("`").concat(v.as_str()).concat(tail)
}

/// A diagnostic of the shape: backtick, value, middle text, second
/// value, closing text.
fn msg_two(l: &String, mid: &str, r2: &String, tail: &str) -> (r: String)
    ensures
        r@ == "`"@ + l@ + mid@ + r2@ + tail@,
{
    String::from_str("`").concat(l.as_str()).concat(mid).concat(r2.as_str()).concat(tail)
}

/// The language's truth text.
fn truth_text(b: bool) -> (r: String)
    ensures
        b ==> r@ == seq!['1'],
        !b ==> r@ == seq!['0'],
{
    proof {
        reveal_strlit("1");
        reveal_strlit("0");
        assert("1"@ =~= seq!['1']);
        assert("0"@ =~= seq!['0']);
    }
    if b {
        String::from_str("1")
    } else {
        String::from_str("0")
    }
}

/// The shared context of a run: the program's source lines for
/// diagnostics, the index of the current top-level statement, the
/// variable bindings, the procedure registry, and the output gathered
/// so far.
pub struct Interpreter {
    source_code: Vec<String>,
    line_number: usize,
    vars: Bindings,
    procs: ProcBodies,
    output: String,
}

impl Interpreter {
    /// The mathematical state this context denotes.
    pub closed spec fn st_abs(&self) -> StateAbs {
        StateAbs {
            vars: self.vars@,
            nvars: self.vars.count(),
            procs: self.procs@,
            out: self.output@,
            line: self.line_number as nat,
        }
    }

    /// The internal well-formedness of the context.
    pub closed spec fn wf(&self) -> bool {
        self.vars.wf() && self.procs.wf()
    }

    /// The source lines kept for diagnostics.
    pub closed spec fn source_lines(&self) -> Seq<String> {
        self.source_code@
    }

    /// A fresh context with no bindings, no procedures and no output.
    pub fn new(source_code: Vec<String>) -> (it: Interpreter)
        ensures
            it.wf(),
            it.st_abs() == init_state(),
            it.source_lines() == source_code@,
    {
        let it = Interpreter {
            source_code,
            line_number: 0,
            vars: Bindings::new(),
            procs: ProcBodies::new(),
            output: String::new(),
        };
        proof {
            assert(it.st_abs() =~= init_state());
        }
        it
    }

    /// Follows an identifier chain through the bindings until a concrete
    /// type is reached; the budget is the number of bindings, which a
    /// chain without a cycle can never exceed.
    fn chase_value(&self, name: &String) -> (r: ChaseRes)
        requires
            self.wf(),
        ensures
            chase_res_abs(r) == chase(self.st_abs().vars, name@, self.st_abs().nvars),
    {
        let mut cur: String = name.clone();
        let mut budget: usize = self.vars.len();
        loop
            invariant
                self.wf(),
                budget <= self.vars.count(),
                chase(self.vars@, cur@, budget as nat) == chase(
                    self.vars@,
                    name@,
                    self.vars.count(),
                ),
            decreases budget,
        {
            match self.vars.get(&cur) {
                Option::None => {
                    return ChaseRes::Missing(cur);
                },
                Some((t, v)) => {
                    if !t.is_identifier() {
                        return ChaseRes::Found(t, v);
                    }
                    if budget == 0 {
                        return ChaseRes::Cycle(cur);
                    }
                    cur = v;
                    budget = budget - 1;
                },
            }
        }
    }

    /// A resolved pair with its identifier chased to a concrete type.
    fn chase_pair(&self, t: Type, v: String) -> (r: Result<(Type, String), Halt>)
        requires
            self.wf(),
        ensures
            match r {
                Ok(tv) => chased(self.st_abs(), t, v@) == ResolveOut::Val(tv.0, tv.1@),
                Err(h) => chased(self.st_abs(), t, v@) == ResolveOut::Halt(halt_abs(h)),
            },
    {
        if !t.is_identifier() {
            return Ok((t, v));
        }
        match self.chase_value(&v) {
            ChaseRes::Found(t2, v2) => Ok((t2, v2)),
            ChaseRes::Missing(nm) => Err(
                Halt::Fail(
                    ErrKind::UndefinedIdentifier,
                    msg_one(&nm, "` is not a defined variable."),
                ),
            ),
            ChaseRes::Cycle(nm) => Err(
                Halt::Fail(
                    ErrKind::CyclicReference,
                    msg_one(&nm, "` never resolves to a concrete value."),
                ),
            ),
        }
    }

    /// The table's answer for one numeric operation, or the request for it.
    fn lookup_num_op(
        &self,
        table: &NumTable,
        op: ArithOp,
        lv: String,
        rv: String,
    ) -> (r: Result<(Type, String), Halt>)
        ensures
            match r {
                Ok(tv) => crate::semantics::lookup_num(table@, op, lv@, rv@) == ResolveOut::Val(
                    tv.0,
                    tv.1@,
                ),
                Err(h) => crate::semantics::lookup_num(table@, op, lv@, rv@) == ResolveOut::Halt(
                    halt_abs(h),
                ),
            },
    {
        match table.lookup(op, &lv, &rv) {
            Some(res) => Ok((Type::Num, res)),
            Option::None => Err(Halt::Need(op, lv, rv)),
        }
    }

    /// Addition on two resolved operands.
    fn add_values(
        &self,
        table: &NumTable,
        lt: Type,
        lv: String,
        rt: Type,
        rv: String,
    ) -> (r: Result<(Type, String), Halt>)
        requires
            self.wf(),
        ensures
            match r {
                Ok(tv) => resolve_add(
                    self.st_abs(),
                    table@,
                    ResolveOut::Val(lt, lv@),
                    ResolveOut::Val(rt, rv@),
                ) == ResolveOut::Val(tv.0, tv.1@),
                Err(h) => resolve_add(
                    self.st_abs(),
                    table@,
                    ResolveOut::Val(lt, lv@),
                    ResolveOut::Val(rt, rv@),
                ) == ResolveOut::Halt(halt_abs(h)),
            },
    {
        let (lt2, lv2) = match self.chase_pair(lt, lv) {
            Ok(tv) => tv,
            Err(h) => {
                return Err(h);
            },
        };
        if !lt2.is_str() && !lt2.is_num() {
            return Err(Halt::Fail(ErrKind::TypeMismatch, msg_one(&lv2, "` is not a number.")));
        }
        let (rt2, rv2) = match self.chase_pair(rt, rv) {
            Ok(tv) => tv,
            Err(h) => {
                return Err(h);
            },
        };
        if !rt2.is_str() && !rt2.is_num() {
            return Err(Halt::Fail(ErrKind::TypeMismatch, msg_one(&rv2, "` is not a number.")));
        }
        if !lt2.same(&rt2) {
            return Err(
                Halt::Fail(
                    ErrKind::TypeMismatch,
                    msg_two(&lv2, "` and `", &rv2, "` are not the same type."),
                ),
            );
        }
        if lt2.is_num() {
            self.lookup_num_op(table, ArithOp::Add, lv2, rv2)
        } else {
            Ok((Type::Str, lv2.concat(rv2.as_str())))
        }
    }

    /// Subtraction, multiplication or division on two resolved operands.
    fn num_op_values(
        &self,
        table: &NumTable,
        op: ArithOp,
        lt: Type,
        lv: String,
        rt: Type,
        rv: String,
    ) -> (r: Result<(Type, String), Halt>)
        requires
            self.wf(),
        ensures
            match r {
                Ok(tv) => resolve_num_op(
                    self.st_abs(),
                    table@,
                    op,
                    ResolveOut::Val(lt, lv@),
                    ResolveOut::Val(rt, rv@),
                ) == ResolveOut::Val(tv.0, tv.1@),
                Err(h) => resolve_num_op(
                    self.st_abs(),
                    table@,
                    op,
                    ResolveOut::Val(lt, lv@),
                    ResolveOut::Val(rt, rv@),
                ) == ResolveOut::Halt(halt_abs(h)),
            },
    {
        let (lt2, lv2) = match self.chase_pair(lt, lv) {
            Ok(tv) => tv,
            Err(h) => {
                return Err(h);
            },
        };
        if !lt2.is_num() {
            return Err(Halt::Fail(ErrKind::TypeMismatch, msg_one(&lv2, "` is not a number.")));
        }
        let (rt2, rv2) = match self.chase_pair(rt, rv) {
            Ok(tv) => tv,
            Err(h) => {
                return Err(h);
            },
        };
        if !rt2.is_num() {
            return Err(Halt::Fail(ErrKind::TypeMismatch, msg_one(&rv2, "` is not a number.")));
        }
        self.lookup_num_op(table, op, lv2, rv2)
    }

    /// Ordering on two resolved operands.
    fn order_values(
        &self,
        table: &NumTable,
        op: ArithOp,
        lt: Type,
        lv: String,
        rt: Type,
        rv: String,
    ) -> (r: Result<(Type, String), Halt>)
        requires
            self.wf(),
        ensures
            match r {
                Ok(tv) => resolve_order(
                    self.st_abs(),
                    table@,
                    op,
                    ResolveOut::Val(lt, lv@),
                    ResolveOut::Val(rt, rv@),
                ) == ResolveOut::Val(tv.0, tv.1@),
                Err(h) => resolve_order(
                    self.st_abs(),
                    table@,
                    op,
                    ResolveOut::Val(lt, lv@),
                    ResolveOut::Val(rt, rv@),
                ) == ResolveOut::Halt(halt_abs(h)),
            },
    {
        let (lt2, lv2) = match self.chase_pair(lt, lv) {
            Ok(tv) => tv,
            Err(h) => {
                return Err(h);
            },
        };
        let (rt2, rv2) = match self.chase_pair(rt, rv) {
            Ok(tv) => tv,
            Err(h) => {
                return Err(h);
            },
        };
        if !lt2.is_num() {
            return Err(Halt::Fail(ErrKind::TypeMismatch, msg_one(&lv2, "` is not a number.")));
        }
        if !rt2.is_num() {
            return Err(Halt::Fail(ErrKind::TypeMismatch, msg_one(&rv2, "` is not a number.")));
        }
        self.lookup_num_op(table, op, lv2, rv2)
    }

    /// Equality or inequality on two resolved operands, by their
    /// resolved textual value alone.
    fn compare_values(
        &self,
        want_equal: bool,
        lt: Type,
        lv: String,
        rt: Type,
        rv: String,
    ) -> (r: Result<(Type, String), Halt>)
        requires
            self.wf(),
        ensures
            match r {
                Ok(tv) => resolve_compare(
                    self.st_abs(),
                    want_equal,
                    ResolveOut::Val(lt, lv@),
                    ResolveOut::Val(rt, rv@),
                ) == ResolveOut::Val(tv.0, tv.1@),
                Err(h) => resolve_compare(
                    self.st_abs(),
                    want_equal,
                    ResolveOut::Val(lt, lv@),
                    ResolveOut::Val(rt, rv@),
                ) == ResolveOut::Halt(halt_abs(h)),
            },
    {
        let (lt2, lv2) = match self.chase_pair(lt, lv) {
            Ok(tv) => tv,
            Err(h) => {
                return Err(h);
            },
        };
        let (rt2, rv2) = match self.chase_pair(rt, rv) {
            Ok(tv) => tv,
            Err(h) => {
                return Err(h);
            },
        };
        let equal = lv2 == rv2;
        Ok((Type::Num, truth_text(equal == want_equal)))
    }

    /// The value resolver: computes the type and textual value of an
    /// expression node, consulting the bindings for identifier chases
    /// and the table for numeric results.
    pub fn get_type_and_value(&self, node: &Node, table: &NumTable) -> (r: Result<
        (Type, String),
        Halt,
    >)
        requires
            self.wf(),
        ensures
            match r {
                Ok(tv) => resolve(self.st_abs(), table@, node_abs(*node)) == ResolveOut::Val(
                    tv.0,
                    tv.1@,
                ),
                Err(h) => resolve(self.st_abs(), table@, node_abs(*node)) == ResolveOut::Halt(
                    halt_abs(h),
                ),
            },
        decreases node,
    {
        match node {
            Node::Num(s) => Ok((Type::Num, s.clone())),
            Node::Str(s) => {
                let bare = strip_quotes(s.as_str());
                Ok((Type::Str, unescape(bare.as_str())))
            },
            Node::Identifier(s) => Ok((Type::Identifier, s.clone())),
            Node::Add(l, r) => {
                let (lt, lv) = match self.get_type_and_value(l, table) {
                    Ok(tv) => tv,
                    Err(h) => {
                        return Err(h);
                    },
                };
                let (rt, rv) = match self.get_type_and_value(r, table) {
                    Ok(tv) => tv,
                    Err(h) => {
                        return Err(h);
                    },
                };
                self.add_values(table, lt, lv, rt, rv)
            },
            Node::Sub(l, r) => {
                let (lt, lv) = match self.get_type_and_value(l, table) {
                    Ok(tv) => tv,
                    Err(h) => {
                        return Err(h);
                    },
                };
                let (rt, rv) = match self.get_type_and_value(r, table) {
                    Ok(tv) => tv,
                    Err(h) => {
                        return Err(h);
                    },
                };
                self.num_op_values(table, ArithOp::Sub, lt, lv, rt, rv)
            },
            Node::Mul(l, r) => {
                let (lt, lv) = match self.get_type_and_value(l, table) {
                    Ok(tv) => tv,
                    Err(h) => {
                        return Err(h);
                    },
                };
                let (rt, rv) = match self.get_type_and_value(r, table) {
                    Ok(tv) => tv,
                    Err(h) => {
                        return Err(h);
                    },
                };
                self.num_op_values(table, ArithOp::Mul, lt, lv, rt, rv)
            },
            Node::Div(l, r) => {
                let (lt, lv) = match self.get_type_and_value(l, table) {
                    Ok(tv) => tv,
                    Err(h) => {
                        return Err(h);
                    },
                };
                let (rt, rv) = match self.get_type_and_value(r, table) {
                    Ok(tv) => tv,
                    Err(h) => {
                        return Err(h);
                    },
                };
                self.num_op_values(table, ArithOp::Div, lt, lv, rt, rv)
            },
            Node::Eq(l, r) => {
                let (lt, lv) = match self.get_type_and_value(l, table) {
                    Ok(tv) => tv,
                    Err(h) => {
                        return Err(h);
                    },
                };
                let (rt, rv) = match self.get_type_and_value(r, table) {
                    Ok(tv) => tv,
                    Err(h) => {
                        return Err(h);
                    },
                };
                self.compare_values(true, lt, lv, rt, rv)
            },
            Node::NotEq(l, r) => {
                let (lt, lv) = match self.get_type_and_value(l, table) {
                    Ok(tv) => tv,
                    Err(h) => {
                        return Err(h);
                    },
                };
                let (rt, rv) = match self.get_type_and_value(r, table) {
                    Ok(tv) => tv,
                    Err(h) => {
                        return Err(h);
                    },
                };
                self.compare_values(false, lt, lv, rt, rv)
            },
            Node::Gt(l, r) => {
                let (lt, lv) = match self.get_type_and_value(l, table) {
                    Ok(tv) => tv,
                    Err(h) => {
                        return Err(h);
                    },
                };
                let (rt, rv) = match self.get_type_and_value(r, table) {
                    Ok(tv) => tv,
                    Err(h) => {
                        return Err(h);
                    },
                };
                self.order_values(table, ArithOp::Gt, lt, lv, rt, rv)
            },
            Node::Lt(l, r) => {
                let (lt, lv) = match self.get_type_and_value(l, table) {
                    Ok(tv) => tv,
                    Err(h) => {
                        return Err(h);
                    },
                };
                let (rt, rv) = match self.get_type_and_value(r, table) {
                    Ok(tv) => tv,
                    Err(h) => {
                        return Err(h);
                    },
                };
                self.order_values(table, ArithOp::Lt, lt, lv, rt, rv)
            },
            Node::Block(_) => Ok((Type::Block, String::new())),
            _ => Ok((Type::Invalid, String::new())),
        }
    }

    /// An assignment statement.
    fn do_assign(&mut self, target: &Node, value: &Node, table: &NumTable) -> (r: Result<
        (),
        Halt,
    >)
        requires
            old(self).wf(),
        ensures
            final(self).wf(),
            final(self).source_lines() == old(self).source_lines(),
            ({
                let so = exec_assign(old(self).st_abs(), table@, node_abs(*target), node_abs(*value));
                match r {
                    Ok(()) => so.halt is None && final(self).st_abs() == so.st,
                    Err(h) => so.halt == Some(halt_abs(h)) && final(self).st_abs() == so.st,
                }
            }),
    {
        let (tt, tv) = match self.get_type_and_value(target, table) {
            Ok(tv) => tv,
            Err(h) => {
                return Err(h);
            },
        };
        if !tt.is_identifier() {
            return Err(
                Halt::Fail(
                    ErrKind::InvalidAssignTarget,
                    msg_one(&tv, "` is not a valid identifier."),
                ),
            );
        }
        let (vt0, vv0) = match self.get_type_and_value(value, table) {
            Ok(tv) => tv,
            Err(h) => {
                return Err(h);
            },
        };
        if !vt0.is_num() && !vt0.is_str() && !vt0.is_identifier() {
            return Err(
                Halt::Fail(ErrKind::InvalidAssignValue, msg_one(&vv0, "` is not a valid value.")),
            );
        }
        let (vt, vv) = match self.chase_pair(vt0, vv0) {
            Ok(tv) => tv,
            Err(h) => {
                return Err(h);
            },
        };
        self.vars.set(&tv, vt, vv);
        proof {
            assert(self.st_abs() =~= exec_assign(
                old(self).st_abs(),
                table@,
                node_abs(*target),
                node_abs(*value),
            ).st);
        }
        Ok(())
    }

    /// A print statement.
    fn do_print(&mut self, e: &Node, table: &NumTable) -> (r: Result<(), Halt>)
        requires
            old(self).wf(),
        ensures
            final(self).wf(),
            final(self).source_lines() == old(self).source_lines(),
            ({
                let so = exec_print(old(self).st_abs(), table@, node_abs(*e));
                match r {
                    Ok(()) => so.halt is None && final(self).st_abs() == so.st,
                    Err(h) => so.halt == Some(halt_abs(h)) && final(self).st_abs() == so.st,
                }
            }),
    {
        let (t0, v0) = match self.get_type_and_value(e, table) {
            Ok(tv) => tv,
            Err(h) => {
                return Err(h);
            },
        };
        if t0.is_invalid() {
            return Err(
                Halt::Fail(ErrKind::InvalidPrintValue, msg_one(&v0, "` is not of a valid type.")),
            );
        }
        let (_t, v) = match self.chase_pair(t0, v0) {
            Ok(tv) => tv,
            Err(h) => {
                return Err(h);
            },
        };
        self.output.append(v.as_str());
        proof {
            assert(self.st_abs() =~= exec_print(old(self).st_abs(), table@, node_abs(*e)).st);
        }
        Ok(())
    }

    /// A procedure definition statement.
    fn do_proc_def(&mut self, name: &Node, body: &Node, table: &NumTable) -> (r: Result<
        (),
        Halt,
    >)
        requires
            old(self).wf(),
        ensures
            final(self).wf(),
            final(self).source_lines() == old(self).source_lines(),
            ({
                let so = exec_proc_def(old(self).st_abs(), table@, node_abs(*name), node_abs(*body));
                match r {
                    Ok(()) => so.halt is None && final(self).st_abs() == so.st,
                    Err(h) => so.halt == Some(halt_abs(h)) && final(self).st_abs() == so.st,
                }
            }),
    {
        let (nt, nv) = match self.get_type_and_value(name, table) {
            Ok(tv) => tv,
            Err(h) => {
                return Err(h);
            },
        };
        if !nt.is_identifier() {
            return Err(
                Halt::Fail(ErrKind::InvalidProcName, msg_one(&nv, "` is not a valid identifier.")),
            );
        }
        let (bt, bv) = match self.get_type_and_value(body, table) {
            Ok(tv) => tv,
            Err(h) => {
                return Err(h);
            },
        };
        if !bt.is_block() {
            return Err(
                Halt::Fail(ErrKind::InvalidProcBody, msg_one(&bv, "` is not a valid block.")),
            );
        }
        let stored = body.clone();
        self.procs.set(&nv, stored);
        proof {
            assert(self.st_abs() =~= exec_proc_def(
                old(self).st_abs(),
                table@,
                node_abs(*name),
                node_abs(*body),
            ).st);
        }
        Ok(())
    }

    /// Runs a node taken as a branch or stored body: a block runs its
    /// statements in order, anything else has no effect.
    fn do_branch(&mut self, body: &Node, table: &NumTable, fuel: u64) -> (r: Result<(), Halt>)
        requires
            old(self).wf(),
        ensures
            final(self).wf(),
            final(self).source_lines() == old(self).source_lines(),
            ({
                let so = exec_branch(old(self).st_abs(), table@, node_abs(*body), fuel as nat);
                match r {
                    Ok(()) => so.halt is None && final(self).st_abs() == so.st,
                    Err(h) => so.halt == Some(halt_abs(h)) && final(self).st_abs() == so.st,
                }
            }),
        decreases fuel, *body, 0int,
    {
        match body {
            Node::Block(items) => self.run_block(items, table, fuel),
            _ => Ok(()),
        }
    }

    /// The statement executor: dispatches one statement node, mutating
    /// the bindings, the registry and the output.
    #[verifier::rlimit(100)]
    pub fn interpret_node(&mut self, node: &Node, table: &NumTable, fuel: u64) -> (r: Result<
        (),
        Halt,
    >)
        requires
            old(self).wf(),
        ensures
            final(self).wf(),
            final(self).source_lines() == old(self).source_lines(),
            ({
                let so = exec_stmt(old(self).st_abs(), table@, node_abs(*node), fuel as nat);
                match r {
                    Ok(()) => so.halt is None && final(self).st_abs() == so.st,
                    Err(h) => so.halt == Some(halt_abs(h)) && final(self).st_abs() == so.st,
                }
            }),
        decreases fuel, *node, 1int,
    {
        match node {
            Node::Assign(target, value) => self.do_assign(target, value, table),
            Node::Print(e) => self.do_print(e, table),
            Node::Comment(_) => Ok(()),
            Node::Proc(name, body) => self.do_proc_def(name, body, table),
            Node::Call(name) => self.run_procedure(name, table, fuel),
            Node::If(cond, body) => {
                let (ct0, cv0) = match self.get_type_and_value(cond, table) {
                    Ok(tv) => tv,
                    Err(h) => {
                        return Err(h);
                    },
                };
                let (ct, cv) = match self.chase_pair(ct0, cv0) {
                    Ok(tv) => tv,
                    Err(h) => {
                        return Err(h);
                    },
                };
                if !ct.is_num() {
                    return Err(
                        Halt::Fail(
                            ErrKind::InvalidCondition,
                            msg_one(&cv, "` is not a valid condition."),
                        ),
                    );
                }
                let zero = truth_text(false);
                if cv == zero {
                    return Ok(());
                }
                self.do_branch(body, table, fuel)
            },
            Node::IfElse(cond, then_body, else_body) => {
                let (ct0, cv0) = match self.get_type_and_value(cond, table) {
                    Ok(tv) => tv,
                    Err(h) => {
                        return Err(h);
                    },
                };
                let (ct, cv) = match self.chase_pair(ct0, cv0) {
                    Ok(tv) => tv,
                    Err(h) => {
                        return Err(h);
                    },
                };
                if !ct.is_num() {
                    return Err(
                        Halt::Fail(
                            ErrKind::InvalidCondition,
                            msg_one(&cv, "` is not a valid condition."),
                        ),
                    );
                }
                let zero = truth_text(false);
                if cv == zero {
                    self.do_branch(else_body, table, fuel)
                } else {
                    self.do_branch(then_body, table, fuel)
                }
            },
            _ => Ok(()),
        }
    }

    /// Runs the statements of a block in order, stopping at the first
    /// halt.
    #[verifier::rlimit(100)]
    fn run_block(&mut self, items: &Vec<Node>, table: &NumTable, fuel: u64) -> (r: Result<
        (),
        Halt,
    >)
        requires
            old(self).wf(),
        ensures
            final(self).wf(),
            final(self).source_lines() == old(self).source_lines(),
            ({
                let so = exec_seq(old(self).st_abs(), table@, nodes_abs(items@), fuel as nat);
                match r {
                    Ok(()) => so.halt is None && final(self).st_abs() == so.st,
                    Err(h) => so.halt == Some(halt_abs(h)) && final(self).st_abs() == so.st,
                }
            }),
        decreases fuel, *items, 2int,
    {
        let ghost st0 = self.st_abs();
        let ghost ns = nodes_abs(items@);
        proof {
            lemma_nodes_abs(items@);
            assert(ns.skip(0) =~= ns);
        }
        let mut i: usize = 0;
        while i < items.len()
            invariant
                self.wf(),
                i <= items@.len(),
                ns == nodes_abs(items@),
                ns.len() == items@.len(),
                forall|j: int| 0 <= j < items@.len() ==> ns[j] == node_abs(items@[j]),
                self.source_lines() == old(self).source_lines(),
                st0 == old(self).st_abs(),
                exec_seq(st0, table@, ns, fuel as nat) == exec_seq(
                    self.st_abs(),
                    table@,
                    ns.skip(i as int),
                    fuel as nat,
                ),
            decreases items@.len() - i,
        {
            proof {
                assert(ns.skip(i as int)[0] == ns[i as int]);
                assert(ns.skip(i as int).drop_first() =~= ns.skip(i + 1));
            }
            let step = self.interpret_node(&items[i], table, fuel);
            match step {
                Ok(()) => {
                    i = i + 1;
                },
                Err(h) => {
                    return Err(h);
                },
            }
        }
        proof {
            assert(ns.skip(items@.len() as int) =~= Seq::<crate::ast::NodeAbs>::empty());
        }
        Ok(())
    }

    /// Runs the procedure a name denotes: the name must resolve to an
    /// identifier registered as a procedure, whose stored block then
    /// runs against the caller's own bindings and registry.
    pub fn run_procedure(&mut self, proc_name: &Node, table: &NumTable, fuel: u64) -> (r: Result<
        (),
        Halt,
    >)
        requires
            old(self).wf(),
        ensures
            final(self).wf(),
            final(self).source_lines() == old(self).source_lines(),
            ({
                let so = exec_call(old(self).st_abs(), table@, node_abs(*proc_name), fuel as nat);
                match r {
                    Ok(()) => so.halt is None && final(self).st_abs() == so.st,
                    Err(h) => so.halt == Some(halt_abs(h)) && final(self).st_abs() == so.st,
                }
            }),
        decreases fuel, *proc_name, 0int,
    {
        let (nt, nv) = match self.get_type_and_value(proc_name, table) {
            Ok(tv) => tv,
            Err(h) => {
                return Err(h);
            },
        };
        if !nt.is_identifier() {
            return Err(
                Halt::Fail(ErrKind::InvalidProcName, msg_one(&nv, "` is not a valid identifier.")),
            );
        }
        let stored = match self.procs.get(&nv) {
            Some(n) => n,
            Option::None => {
                return Err(
                    Halt::Fail(
                        ErrKind::UndefinedProcedure,
                        msg_one(&nv, "` is not a defined procedure."),
                    ),
                );
            },
        };
        if fuel == 0 {
            return Err(Halt::Spin);
        }
        self.do_branch(&stored, table, fuel - 1)
    }
}

/// How a whole run ended.
pub enum Outcome {
    /// Every statement ran: the output, and the final bindings and
    /// registry for the closing state dump.
    Done { output: String, variables: Vec<(String, Type, String)>, procedures: Vec<(String, Node)> },
    /// A numeric operation is missing from the table; record its result
    /// and run again.
    NeedNum { op: ArithOp, lhs: String, rhs: String },
    /// A contract violation: the index of the offending top-level
    /// statement, the source line at that index, the kind of violation,
    /// and its description.
    Fail { line_number: usize, line_text: String, kind: ErrKind, problem: String },
    /// The procedure-call budget ran out.
    OutOfFuel,
}

impl Interpreter {
    /// Runs a whole program against a fresh context: every top-level
    /// statement in source order, fail-fast.
    #[verifier::rlimit(100)]
    pub fn interpret(
        source_code: Vec<String>,
        code: Vec<Node>,
        table: &NumTable,
        fuel: u64,
    ) -> (r: Outcome)
        ensures
            ({
                let so = run_program(table@, nodes_abs(code@), fuel as nat);
                match r {
                    Outcome::Done { output, variables, procedures } => so.halt is None && output@
                        == so.st.out && bindings_map_of(variables@) == so.st.vars && procs_map_of(
                        procedures@,
                    ) == so.st.procs,
                    Outcome::NeedNum { op, lhs, rhs } => so.halt == Some(
                        HaltAbs::Need(op, lhs@, rhs@),
                    ),
                    Outcome::Fail { line_number, line_text, kind, problem } => so.halt == Some(
                        HaltAbs::Fail(kind, problem@),
                    ) && line_number as nat == so.st.line && line_text@ == (if (so.st.line as int)
                        < source_code@.len() {
                        source_code@[so.st.line as int]@
                    } else {
                        Seq::<char>::empty()
                    }),
                    Outcome::OutOfFuel => so.halt == Some(HaltAbs::Spin),
                }
            }),
    {
        let mut it = Interpreter::new(source_code);
        let ghost ns = nodes_abs(code@);
        proof {
            lemma_nodes_abs(code@);
            assert(ns.skip(0) =~= ns);
        }
        let mut i: usize = 0;
        while i < code.len()
            invariant
                it.wf(),
                i <= code@.len(),
                ns == nodes_abs(code@),
                ns.len() == code@.len(),
                forall|j: int| 0 <= j < code@.len() ==> ns[j] == node_abs(code@[j]),
                it.source_lines() == source_code@,
                run_program(table@, ns, fuel as nat) == run_tops(
                    it.st_abs(),
                    table@,
                    ns.skip(i as int),
                    i as nat,
                    fuel as nat,
                ),
            decreases code@.len() - i,
        {
            let ghost entry = it.st_abs();
            it.line_number = i;
            let ghost pre = it.st_abs();
            proof {
                assert(pre =~= (StateAbs { line: i as nat, ..entry }));
                assert(ns.skip(i as int)[0] == ns[i as int]);
                assert(ns.skip(i as int).drop_first() =~= ns.skip(i + 1));
                crate::semantics::lemma_stmt_line(pre, table@, ns[i as int], fuel as nat);
            }
            let step = it.interpret_node(&code[i], table, fuel);
            match step {
                Ok(()) => {
                    i = i + 1;
                },
                Err(h) => {
                    let line_text = if it.line_number < it.source_code.len() {
                        it.source_code[it.line_number].clone()
                    } else {
                        String::new()
                    };
                    match h {
                        Halt::Need(op, lhs, rhs) => {
                            return Outcome::NeedNum { op, lhs, rhs };
                        },
                        Halt::Fail(kind, problem) => {
                            return Outcome::Fail {
                                line_number: it.line_number,
                                line_text,
                                kind,
                                problem,
                            };
                        },
                        Halt::Spin => {
                            return Outcome::OutOfFuel;
                        },
                    }
                },
            }
        }
        proof {
            assert(ns.skip(code@.len() as int) =~= Seq::<crate::ast::NodeAbs>::empty());
        }
        let variables = it.vars.snapshot();
        let procedures = it.procs.snapshot();
        Outcome::Done { output: it.output, variables, procedures }
    }
}

} // verus!
