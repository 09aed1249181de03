//! The table of numeric results. Arithmetic and ordering on numbers is
//! host floating-point work that this library does not perform itself:
//! the evaluator consults this table, and when an entry is missing it
//! hands the request back to its caller, who computes the result and
//! records it here before running the program again.

use vstd::prelude::*;

verus! {

/// A binary operation on two numeric texts.
#[derive(Clone, Copy, PartialEq, Eq, Structural, Debug)]
pub enum ArithOp {
    Add,
    Sub,
    Mul,
    Div,
    Gt,
    Lt,
}

/// The key under which one recorded result is filed.
pub open spec fn num_key(e: (ArithOp, String, String, String)) -> (ArithOp, Seq<char>, Seq<char>) {
    (e.0, e.1@, e.2@)
}

/// The mapping that a sequence of recorded results denotes; a later
/// record for the same key supersedes an earlier one.
pub open spec fn num_map_of(s: Seq<(ArithOp, String, String, String)>) -> Map<
    (ArithOp, Seq<char>, Seq<char>),
    Seq<char>,
>
    decreases s.len(),
{
    if s.len() == 0 {
        Map::empty()
    } else {
        num_map_of(s.drop_last()).insert(num_key(s.last()), s.last().3@)
    }
}

/// A record whose key no later record repeats gives the mapping's value.
proof fn lemma_num_map_last(s: Seq<(ArithOp, String, String, String)>, i: int)
    requires
        0 <= i < s.len(),
        forall|j: int| i < j < s.len() ==> num_key(s[j]) != num_key(s[i]),
    ensures
        num_map_of(s).contains_key(num_key(s[i])),
        num_map_of(s)[num_key(s[i])] == s[i].3@,
    decreases s.len(),
{
    if i < s.len() - 1 {
        lemma_num_map_last(s.drop_last(), i);
    }
}

/// A key no record carries is absent from the mapping.
proof fn lemma_num_map_absent(
    s: Seq<(ArithOp, String, String, String)>,
    k: (ArithOp, Seq<char>, Seq<char>),
)
    requires
        forall|i: int| 0 <= i < s.len() ==> num_key(s[i]) != k,
    ensures
        !num_map_of(s).contains_key(k),
    decreases s.len(),
{
    if s.len() > 0 {
        lemma_num_map_absent(s.drop_last(), k);
    }
}

/// Recorded numeric results, seen abstractly as a partial map from an
/// operation and two operand texts to the result text.
pub struct NumTable {
    entries: Vec<(ArithOp, String, String, String)>,
}

impl View for NumTable {
    type V = Map<(ArithOp, Seq<char>, Seq<char>), Seq<char>>;

    closed spec fn view(&self) -> Map<(ArithOp, Seq<char>, Seq<char>), Seq<char>> {
        num_map_of(self.entries@)
    }
}

impl NumTable {
    /// An empty table.
    pub fn new() -> (t: NumTable)
        ensures
            t@ == Map::<(ArithOp, Seq<char>, Seq<char>), Seq<char>>::empty(),
    {
        NumTable { entries: Vec::new() }
    }

    /// Records the result of one operation, superseding any earlier
    /// record for the same operands.
    pub fn insert(&mut self, op: ArithOp, lhs: String, rhs: String, result: String)
        ensures
            final(self)@ == old(self)@.insert((op, lhs@, rhs@), result@),
    {
        let ghost prev = self.entries@;
        self.entries.push((op, lhs, rhs, result));
        proof {
            assert(self.entries@.drop_last() =~= prev);
        }
    }

    /// The recorded result for one operation, if any.
    pub fn lookup(&self, op: ArithOp, lhs: &String, rhs: &String) -> (r: Option<String>)
        ensures
            match r {
                Some(v) => self@.contains_key((op, lhs@, rhs@)) && v@ == self@[(op, lhs@, rhs@)],
                Option::None => !self@.contains_key((op, lhs@, rhs@)),
            },
    {
        let ghost k = (op, lhs@, rhs@);
        let mut j: usize = self.entries.len();
        while j > 0
            invariant
                k == (op, lhs@, rhs@),
                j <= self.entries@.len(),
                forall|idx: int| j <= idx < self.entries@.len() ==> num_key(self.entries@[idx]) != k,
            decreases j,
        {
            j = j - 1;
            let e = &self.entries[j];
            let same_op = e.0 == op;
            let same_lhs = e.1 == *lhs;
            let same_rhs = e.2 == *rhs;
            if same_op && same_lhs && same_rhs {
                proof {
                    assert(num_key(self.entries@[j as int]) =~= k);
                    lemma_num_map_last(self.entries@, j as int);
                }
                return Some(e.3.clone());
            }
            proof {
                assert(num_key(self.entries@[j as int]) != k);
            }
        }
        proof {
            lemma_num_map_absent(self.entries@, k);
        }
        Option::None
    }
}

} // verus!
