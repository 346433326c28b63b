//! Prerequisite version ranges such as `">= 1.2, != 1.5"`.
//!
//! A bare version `V` means "at least `V`"; `0` means "any version"; the operators
//! `<`, `<=`, `>`, `>=`, `==`, `!=` may prefix a version; clauses separated by commas
//! all hold together.
use vstd::prelude::*;
use crate::text::{
    chars_eq_str, chars_of, join, piece, split_chars, split_on, starts_with, starts_with_chars,
    string_of, text, trim, trim_chars,
};

verus! {

/// A comparison operator in a version range.
#[derive(Debug, Clone, Copy, PartialEq, Eq, Structural)]
pub enum Op {
    /// `<`
    Less,
    /// `<=`
    LessEqual,
    /// `>`
    Greater,
    /// `>=`
    GreaterEqual,
    /// `==`
    Equal,
    /// `!=`
    NotEqual,
}

/// A single clause of a version range, such as `>= 1.2`.
#[derive(Debug, Clone, PartialEq, Eq)]
pub struct Constraint {
    /// The comparison operator.
    pub op: Op,
    /// The version literal, kept verbatim.
    pub version: String,
}

/// How an operator is written.
pub open spec fn op_symbol(op: Op) -> Seq<char> {
    match op {
        Op::Less => "<"@,
        Op::LessEqual => "<="@,
        Op::Greater => ">"@,
        Op::GreaterEqual => ">="@,
        Op::Equal => "=="@,
        Op::NotEqual => "!="@,
    }
}

/// A clause with an operator: kept when a version follows the operator.
pub open spec fn with_version(op: Op, rest: Seq<char>) -> Option<(Op, Seq<char>)> {
    if trim(rest).len() > 0 {
        Some((op, trim(rest)))
    } else {
        None
    }
}

/// What one comma-separated clause means: the operator and version it states, or
/// nothing for an empty clause, the "any version" marker `0`, or an operator with no
/// version. Two-character operators are recognised before one-character ones.
pub open spec fn clause_meaning(c: Seq<char>) -> Option<(Op, Seq<char>)> {
    let t = trim(c);
    if t.len() == 0 {
        None
    } else if starts_with(t, "<="@) {
        with_version(Op::LessEqual, t.skip(2))
    } else if starts_with(t, ">="@) {
        with_version(Op::GreaterEqual, t.skip(2))
    } else if starts_with(t, "=="@) {
        with_version(Op::Equal, t.skip(2))
    } else if starts_with(t, "!="@) {
        with_version(Op::NotEqual, t.skip(2))
    } else if starts_with(t, "<"@) {
        with_version(Op::Less, t.skip(1))
    } else if starts_with(t, ">"@) {
        with_version(Op::Greater, t.skip(1))
    } else if t == "0"@ {
        None
    } else {
        Some((Op::GreaterEqual, t))
    }
}

/// The constraints that a list of clauses states, in order.
pub open spec fn clauses_meaning(cs: Seq<Seq<char>>) -> Seq<(Op, Seq<char>)>
    decreases cs.len(),
{
    if cs.len() == 0 {
        Seq::empty()
    } else {
        match clause_meaning(cs.last()) {
            Some(c) => clauses_meaning(cs.drop_last()).push(c),
            None => clauses_meaning(cs.drop_last()),
        }
    }
}

/// The constraints that a range states, in order.
pub open spec fn range_meaning(range: Seq<char>) -> Seq<(Op, Seq<char>)> {
    clauses_meaning(split_on(range, ','))
}

impl Op {
    /// How the operator is written, e.g. `>=`.
    pub fn to_string(&self) -> (r: String)
        ensures
            r@ == op_symbol(*self),
    {
        match self {
            Op::Less => text("<"),
            Op::LessEqual => text("<="),
            Op::Greater => text(">"),
            Op::GreaterEqual => text(">="),
            Op::Equal => text("=="),
            Op::NotEqual => text("!="),
        }
    }
}

impl Constraint {
    /// The clause as text: the operator, a space, and the version.
    pub fn to_string(&self) -> (r: String)
        ensures
            r@ == op_symbol(self.op) + " "@ + self.version@,
    {
        let s = self.op.to_string();
        let s = join(s.as_str(), " ");
        join(s.as_str(), self.version.as_str())
    }
}

fn clause_with_version(op: Op, t: &[char], from: usize) -> (r: Option<Constraint>)
    requires
        from <= t.len(),
    ensures
        match with_version(op, t@.skip(from as int)) {
            Some((o, v)) => r matches Some(c) && c.op == o && c.version@ == v,
            None => r is None,
        },
{
    let rest = piece(t, from, t.len());
    assert(rest@ == t@.skip(from as int));
    let v = trim_chars(rest.as_slice());
    if v.len() > 0 {
        Some(Constraint { op, version: string_of(v.as_slice()) })
    } else {
        None
    }
}

fn clause(c: &[char]) -> (r: Option<Constraint>)
    ensures
        match clause_meaning(c@) {
            Some((o, v)) => r matches Some(k) && k.op == o && k.version@ == v,
            None => r is None,
        },
{
    proof {
        reveal_strlit("<=");
        reveal_strlit(">=");
        reveal_strlit("==");
        reveal_strlit("!=");
        reveal_strlit("<");
        reveal_strlit(">");
    }
    let t = trim_chars(c);
    let ts = t.as_slice();
    if t.len() == 0 {
        None
    } else if starts_with_chars(ts, chars_of("<=").as_slice()) {
        clause_with_version(Op::LessEqual, ts, 2)
    } else if starts_with_chars(ts, chars_of(">=").as_slice()) {
        clause_with_version(Op::GreaterEqual, ts, 2)
    } else if starts_with_chars(ts, chars_of("==").as_slice()) {
        clause_with_version(Op::Equal, ts, 2)
    } else if starts_with_chars(ts, chars_of("!=").as_slice()) {
        clause_with_version(Op::NotEqual, ts, 2)
    } else if starts_with_chars(ts, chars_of("<").as_slice()) {
        clause_with_version(Op::Less, ts, 1)
    } else if starts_with_chars(ts, chars_of(">").as_slice()) {
        clause_with_version(Op::Greater, ts, 1)
    } else if chars_eq_str(ts, "0") {
        None
    } else {
        Some(Constraint { op: Op::GreaterEqual, version: string_of(ts) })
    }
}

/// Parse a version-range string into its constraints.
///
/// A bare version becomes a single [`Op::GreaterEqual`] constraint. The special value
/// `0` ("any version") yields no constraint. Clauses that are empty, or that have an
/// operator and no version, are skipped.
pub fn parse(range: &str) -> (r: Vec<Constraint>)
    ensures
        r@.len() == range_meaning(range@).len(),
        forall|i: int|
            0 <= i < r@.len() ==> (#[trigger] r@[i]).op == range_meaning(range@)[i].0
                && r@[i].version@ == range_meaning(range@)[i].1,
{
    let cs = chars_of(range);
    let clauses = split_chars(cs.as_slice(), ',');
    let ghost pieces = split_on(range@, ',');
    let mut out: Vec<Constraint> = Vec::new();
    let mut i: usize = 0;
    while i < clauses.len()
        invariant
            i <= clauses@.len() == pieces.len(),
            forall|k: int| 0 <= k < clauses@.len() ==> (#[trigger] clauses@[k])@ == pieces[k],
            out@.len() == clauses_meaning(pieces.take(i as int)).len(),
            forall|k: int|
                0 <= k < out@.len() ==> (#[trigger] out@[k]).op == clauses_meaning(pieces.take(i as int))[k].0
                    && out@[k].version@ == clauses_meaning(pieces.take(i as int))[k].1,
        decreases clauses.len() - i,
    {
        assert(pieces.take(i + 1).drop_last() == pieces.take(i as int));
        assert(pieces.take(i + 1).last() == pieces[i as int]);
        match clause(clauses[i].as_slice()) {
            Some(c) => {
                out.push(c);
            },
            None => {},
        }
        i = i + 1;
    }
    assert(pieces.take(clauses.len() as int) == pieces);
    out
}

} // verus!
