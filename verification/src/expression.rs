//! The legacy filter expression language: a small boolean/comparison DSL
//! evaluated against a feature's property bag, read from an ordered array
//! form `[keyword, ...args]`.
//!
//! Numeric property values carry IEEE-754 binary64 bit patterns; ordering
//! and equality on them are the exact relations of [`crate::binary64`].
//! A membership test on a non-string property value is an unsupported
//! operation and surfaces as a hard error rather than a silent result.

use vstd::prelude::*;
use crate::binary64;
use crate::strutil::seq_lt;
use crate::strutil::str_eq;
use crate::strutil::str_lt;

verus! {

/// A comparison operator of the filter language.
#[derive(Clone, Copy, Debug, PartialEq, Eq, Structural)]
pub enum ExpressionComparisonOp {
    Eq,
    Neq,
    Gt,
    Geq,
    Lt,
    Leq,
}

/// A literal value: a feature property value or a filter operand.
///
/// `Float` holds the bit pattern of an IEEE-754 binary64 value.
#[derive(Clone, Debug)]
pub enum ComparisonLiteral {
    Float(u64),
    Integer(i64),
    Bool(bool),
    String(String),
}

/// The mathematical view of a literal.
pub ghost enum LitV {
    Float(u64),
    Integer(int),
    Bool(bool),
    Str(Seq<char>),
}

impl View for ComparisonLiteral {
    type V = LitV;

    open spec fn view(&self) -> LitV {
        match self {
            ComparisonLiteral::Float(b) => LitV::Float(*b),
            ComparisonLiteral::Integer(i) => LitV::Integer(*i as int),
            ComparisonLiteral::Bool(b) => LitV::Bool(*b),
            ComparisonLiteral::String(s) => LitV::Str(s@),
        }
    }
}

/// Equality of two literals: tagged, with IEEE equality on the float tag
/// (`NaN != NaN`, `-0 == +0`) and exact equality elsewhere; literals of
/// different tags are never equal.
pub open spec fn lit_eq(a: LitV, b: LitV) -> bool {
    match (a, b) {
        (LitV::Float(x), LitV::Float(y)) => binary64::double_eq(x, y),
        (LitV::Integer(x), LitV::Integer(y)) => x == y,
        (LitV::Bool(x), LitV::Bool(y)) => x == y,
        (LitV::Str(x), LitV::Str(y)) => x == y,
        _ => false,
    }
}

/// Strict numeric/string order on two literals: exact numeric order across
/// the integer and float tags, lexicographic order on strings, and false
/// for every other pairing (booleans order with nothing).
pub open spec fn lit_lt(a: LitV, b: LitV) -> bool {
    match (a, b) {
        (LitV::Integer(x), LitV::Integer(y)) => x < y,
        (LitV::Integer(x), LitV::Float(y)) => binary64::int_double_lt(x, y),
        (LitV::Float(x), LitV::Integer(y)) => binary64::int_double_gt(y, x),
        (LitV::Float(x), LitV::Float(y)) => binary64::double_lt(x, y),
        (LitV::Str(x), LitV::Str(y)) => seq_lt(x, y),
        _ => false,
    }
}

/// See [`lit_lt`]; the non-strict order pairs numeric order with numeric
/// equality and string order with string equality.
pub open spec fn lit_le(a: LitV, b: LitV) -> bool {
    match (a, b) {
        (LitV::Integer(x), LitV::Integer(y)) => x <= y,
        (LitV::Integer(x), LitV::Float(y)) => binary64::int_double_lt(x, y)
            || binary64::int_double_eq(x, y),
        (LitV::Float(x), LitV::Integer(y)) => binary64::int_double_gt(y, x)
            || binary64::int_double_eq(y, x),
        (LitV::Float(x), LitV::Float(y)) => binary64::double_lt(x, y)
            || binary64::double_eq(x, y),
        (LitV::Str(x), LitV::Str(y)) => seq_lt(x, y) || x == y,
        _ => false,
    }
}

/// What a comparison operator means on two literal values.
pub open spec fn compare_spec(op: ExpressionComparisonOp, a: LitV, b: LitV) -> bool {
    match op {
        ExpressionComparisonOp::Eq => lit_eq(a, b),
        ExpressionComparisonOp::Neq => !lit_eq(a, b),
        ExpressionComparisonOp::Gt => lit_lt(b, a),
        ExpressionComparisonOp::Geq => lit_le(b, a),
        ExpressionComparisonOp::Lt => lit_lt(a, b),
        ExpressionComparisonOp::Leq => lit_le(a, b),
    }
}

/// Compares two literals for equality.
pub fn lit_eq_exec(a: &ComparisonLiteral, b: &ComparisonLiteral) -> (r: bool)
    ensures
        r == lit_eq(a@, b@),
{
    match (a, b) {
        (ComparisonLiteral::Float(x), ComparisonLiteral::Float(y)) => binary64::eq_bits(*x, *y),
        (ComparisonLiteral::Integer(x), ComparisonLiteral::Integer(y)) => x == y,
        (ComparisonLiteral::Bool(x), ComparisonLiteral::Bool(y)) => x == y,
        (ComparisonLiteral::String(x), ComparisonLiteral::String(y)) => str_eq(x.as_str(), y.as_str()),
        _ => false,
    }
}

/// Compares two literals in the strict order of [`lit_lt`].
pub fn lit_lt_exec(a: &ComparisonLiteral, b: &ComparisonLiteral) -> (r: bool)
    ensures
        r == lit_lt(a@, b@),
{
    match (a, b) {
        (ComparisonLiteral::Integer(x), ComparisonLiteral::Integer(y)) => x < y,
        (ComparisonLiteral::Integer(x), ComparisonLiteral::Float(y)) => {
            matches!(binary64::cmp_int_bits(*x, *y), binary64::NumOrder::Less)
        },
        (ComparisonLiteral::Float(x), ComparisonLiteral::Integer(y)) => {
            matches!(binary64::cmp_int_bits(*y, *x), binary64::NumOrder::Greater)
        },
        (ComparisonLiteral::Float(x), ComparisonLiteral::Float(y)) => binary64::lt_bits(*x, *y),
        (ComparisonLiteral::String(x), ComparisonLiteral::String(y)) => {
            str_lt(x.as_str(), y.as_str())
        },
        _ => false,
    }
}

/// Compares two literals in the non-strict order of [`lit_le`].
pub fn lit_le_exec(a: &ComparisonLiteral, b: &ComparisonLiteral) -> (r: bool)
    ensures
        r == lit_le(a@, b@),
{
    match (a, b) {
        (ComparisonLiteral::Integer(x), ComparisonLiteral::Integer(y)) => x <= y,
        (ComparisonLiteral::Integer(x), ComparisonLiteral::Float(y)) => {
            match binary64::cmp_int_bits(*x, *y) {
                binary64::NumOrder::Less => true,
                binary64::NumOrder::Equal => true,
                _ => false,
            }
        },
        (ComparisonLiteral::Float(x), ComparisonLiteral::Integer(y)) => {
            match binary64::cmp_int_bits(*y, *x) {
                binary64::NumOrder::Greater => true,
                binary64::NumOrder::Equal => true,
                _ => false,
            }
        },
        (ComparisonLiteral::Float(x), ComparisonLiteral::Float(y)) => {
            binary64::lt_bits(*x, *y) || binary64::eq_bits(*x, *y)
        },
        (ComparisonLiteral::String(x), ComparisonLiteral::String(y)) => {
            str_lt(x.as_str(), y.as_str()) || str_eq(x.as_str(), y.as_str())
        },
        _ => false,
    }
}

impl ExpressionComparisonOp {
    /// Applies the operator to two literal values.
    pub fn compare(&self, a: &ComparisonLiteral, b: &ComparisonLiteral) -> (r: bool)
        ensures
            r == compare_spec(*self, a@, b@),
    {
        match self {
            ExpressionComparisonOp::Eq => lit_eq_exec(a, b),
            ExpressionComparisonOp::Neq => !lit_eq_exec(a, b),
            ExpressionComparisonOp::Gt => lit_lt_exec(b, a),
            ExpressionComparisonOp::Geq => lit_le_exec(b, a),
            ExpressionComparisonOp::Lt => lit_lt_exec(a, b),
            ExpressionComparisonOp::Leq => lit_le_exec(a, b),
        }
    }

    /// The operator a keyword token denotes, if any.
    pub open spec fn from_token(s: Seq<char>) -> Option<ExpressionComparisonOp> {
        if s == "=="@ {
            Some(ExpressionComparisonOp::Eq)
        } else if s == "!="@ {
            Some(ExpressionComparisonOp::Neq)
        } else if s == ">"@ {
            Some(ExpressionComparisonOp::Gt)
        } else if s == ">="@ {
            Some(ExpressionComparisonOp::Geq)
        } else if s == "<"@ {
            Some(ExpressionComparisonOp::Lt)
        } else if s == "<="@ {
            Some(ExpressionComparisonOp::Leq)
        } else {
            None
        }
    }

    /// Parses a comparison keyword.
    pub fn try_from(value: &str) -> (r: Option<ExpressionComparisonOp>)
        ensures
            r == Self::from_token(value@),
    {
        if str_eq(value, "==") {
            Some(ExpressionComparisonOp::Eq)
        } else if str_eq(value, "!=") {
            Some(ExpressionComparisonOp::Neq)
        } else if str_eq(value, ">") {
            Some(ExpressionComparisonOp::Gt)
        } else if str_eq(value, ">=") {
            Some(ExpressionComparisonOp::Geq)
        } else if str_eq(value, "<") {
            Some(ExpressionComparisonOp::Lt)
        } else if str_eq(value, "<=") {
            Some(ExpressionComparisonOp::Leq)
        } else {
            None
        }
    }
}

/// A feature's property bag: a mapping from property name to literal value.
///
/// Stored as an association vector with unique keys; the view is the
/// corresponding mathematical map.
#[derive(Clone, Debug)]
pub struct Properties {
    entries: Vec<(String, ComparisonLiteral)>,
}

impl View for Properties {
    type V = Map<Seq<char>, LitV>;

    closed spec fn view(&self) -> Map<Seq<char>, LitV> {
        entries_map(self.entries@)
    }
}

/// The map an entry sequence denotes; a later entry overrides an earlier
/// one with the same key.
spec fn entries_map(s: Seq<(String, ComparisonLiteral)>) -> Map<Seq<char>, LitV>
    decreases s.len(),
{
    if s.len() == 0 {
        Map::empty()
    } else {
        entries_map(s.drop_last()).insert(s.last().0@, s.last().1@)
    }
}

/// With unique keys, each entry is present in the denoted map.
proof fn lemma_entries_map_index(s: Seq<(String, ComparisonLiteral)>, i: int)
    requires
        0 <= i < s.len(),
        forall|p: int, q: int| 0 <= p < q < s.len() ==> s[p].0@ != s[q].0@,
    ensures
        entries_map(s).contains_key(s[i].0@),
        entries_map(s)[s[i].0@] == s[i].1@,
    decreases s.len(),
{
    if i == s.len() - 1 {
    } else {
        assert(s.drop_last()[i] == s[i]);
        lemma_entries_map_index(s.drop_last(), i);
        assert(s[i].0@ != s.last().0@);
    }
}

/// A key matching no entry is absent from the denoted map.
proof fn lemma_entries_map_absent(s: Seq<(String, ComparisonLiteral)>, k: Seq<char>)
    requires
        forall|i: int| 0 <= i < s.len() ==> s[i].0@ != k,
    ensures
        !entries_map(s).contains_key(k),
    decreases s.len(),
{
    if s.len() > 0 {
        assert(forall|i: int| 0 <= i < s.drop_last().len() ==> s.drop_last()[i] == s[i]);
        lemma_entries_map_absent(s.drop_last(), k);
    }
}

impl Properties {
    /// Keys are unique, so lookups are unambiguous.
    pub closed spec fn wf(&self) -> bool {
        forall|p: int, q: int| 0 <= p < q < self.entries@.len()
            ==> self.entries@[p].0@ != self.entries@[q].0@
    }

    /// An empty property bag.
    pub fn new() -> (r: Properties)
        ensures
            r.wf(),
            r@ == Map::<Seq<char>, LitV>::empty(),
    {
        Properties { entries: Vec::new() }
    }

    /// Removes every property.
    pub fn clear(&mut self)
        ensures
            final(self).wf(),
            final(self)@ == Map::<Seq<char>, LitV>::empty(),
    {
        self.entries.clear();
    }

    /// Inserts a property value, replacing any previous value of the key.
    pub fn insert(&mut self, key: String, value: ComparisonLiteral)
        requires
            old(self).wf(),
        ensures
            final(self).wf(),
            final(self)@ == old(self)@.insert(key@, value@),
    {
        let ghost key_view = key@;
        let n = self.entries.len();
        let mut i: usize = 0;
        while i < n
            invariant
                old(self).wf(),
                self == old(self),
                n == self.entries@.len(),
                i <= n,
                forall|j: int| 0 <= j < i ==> self.entries@[j].0@ != key@,
            decreases n - i,
    {
            if str_eq(self.entries[i].0.as_str(), key.as_str()) {
                self.entries.set(i, (key, value));
                proof {
                    lemma_set_entry(old(self).entries@, self.entries@, i as int);
                }
                return;
            }
            i = i + 1;
        }
        self.entries.push((key, value));
        proof {
            assert(self.entries@.drop_last() =~= old(self).entries@);
        }
    }

    /// Looks the key up.
    pub fn get(&self, key: &str) -> (r: Option<&ComparisonLiteral>)
        requires
            self.wf(),
        ensures
            match r {
                Some(v) => self@.contains_key(key@) && self@[key@] == v@,
                None => !self@.contains_key(key@),
            },
    {
        let n = self.entries.len();
        let mut i: usize = 0;
        while i < n
            invariant
                self.wf(),
                n == self.entries@.len(),
                i <= n,
                forall|j: int| 0 <= j < i ==> self.entries@[j].0@ != key@,
            decreases n - i,
        {
            if str_eq(self.entries[i].0.as_str(), key) {
                proof {
                    lemma_entries_map_index(self.entries@, i as int);
                }
                return Some(&self.entries[i].1);
            }
            i = i + 1;
        }
        proof {
            lemma_entries_map_absent(self.entries@, key@);
        }
        None
    }

    /// True when the key is present.
    pub fn contains_key(&self, key: &str) -> (r: bool)
        requires
            self.wf(),
        ensures
            r == self@.contains_key(key@),
    {
        self.get(key).is_some()
    }
}

/// Replacing entry `i` with one of the same key denotes the map with that
/// key re-bound.
proof fn lemma_set_entry(
    old_s: Seq<(String, ComparisonLiteral)>,
    new_s: Seq<(String, ComparisonLiteral)>,
    i: int,
)
    requires
        0 <= i < old_s.len(),
        new_s.len() == old_s.len(),
        forall|j: int| 0 <= j < old_s.len() && j != i ==> new_s[j] == old_s[j],
        new_s[i].0@ == old_s[i].0@,
        forall|p: int, q: int| 0 <= p < q < old_s.len() ==> old_s[p].0@ != old_s[q].0@,
    ensures
        entries_map(new_s) == entries_map(old_s).insert(new_s[i].0@, new_s[i].1@),
    decreases old_s.len(),
{
    if i == old_s.len() - 1 {
        assert(new_s.drop_last() =~= old_s.drop_last());
        assert(entries_map(new_s)
            =~= entries_map(old_s).insert(new_s[i].0@, new_s[i].1@));
    } else {
        assert(forall|j: int| 0 <= j < old_s.len() - 1 && j != i
            ==> new_s.drop_last()[j] == old_s.drop_last()[j]);
        assert(new_s.drop_last()[i] == new_s[i]);
        assert(old_s.drop_last()[i] == old_s[i]);
        lemma_set_entry(old_s.drop_last(), new_s.drop_last(), i);
        assert(new_s.last() == old_s.last());
        assert(old_s[i].0@ != old_s.last().0@);
        assert(entries_map(new_s)
            =~= entries_map(old_s).insert(new_s[i].0@, new_s[i].1@));
    }
}

/// An error from evaluating a filter.
#[derive(Clone, Copy, Debug, PartialEq, Eq, Structural)]
pub enum FilterError {
    /// A membership test met a non-string property value.
    UnsupportedOperation,
}

/// A legacy filter expression: a tree of existence tests, comparisons,
/// membership tests and boolean combinators.
#[derive(Debug)]
pub enum LegacyFilterExpression {
    // Existential
    Has(String),
    NotHas(String),
    // Comparison
    Comparison(ExpressionComparisonOp, String, ComparisonLiteral),
    // Membership
    In(String, Vec<String>),
    NotIn(String, Vec<String>),
    // Combining
    All(Vec<LegacyFilterExpression>),
    Any(Vec<LegacyFilterExpression>),
    NoneOf(Vec<LegacyFilterExpression>),
}

/// True when some string of the list reads as `s`.
pub open spec fn str_list_contains(l: Seq<String>, s: Seq<char>) -> bool {
    exists|i: int| 0 <= i < l.len() && l[i]@ == s
}

/// What evaluating a filter against a property map yields: `Some(b)` for a
/// verdict, `None` when an unsupported operation is met first.  Combinators
/// evaluate their children in order and stop at the first decisive child,
/// so an unsupported operation in a later child is never reached.
pub open spec fn eval_filter(e: &LegacyFilterExpression, m: Map<Seq<char>, LitV>) -> Option<bool>
    decreases e,
{
    match e {
        LegacyFilterExpression::Has(key) => Some(m.contains_key(key@)),
        LegacyFilterExpression::NotHas(key) => Some(!m.contains_key(key@)),
        LegacyFilterExpression::Comparison(op, key, lit) => if m.contains_key(key@) {
            Some(compare_spec(*op, m[key@], lit@))
        } else {
            Some(false)
        },
        LegacyFilterExpression::In(key, preds) => if !m.contains_key(key@) {
            Some(false)
        } else {
            match m[key@] {
                LitV::Str(sv) => Some(str_list_contains(preds@, sv)),
                _ => None,
            }
        },
        LegacyFilterExpression::NotIn(key, preds) => if !m.contains_key(key@) {
            Some(false)
        } else {
            match m[key@] {
                LitV::Str(sv) => Some(!str_list_contains(preds@, sv)),
                _ => None,
            }
        },
        LegacyFilterExpression::All(cs) => eval_all(cs@, m),
        LegacyFilterExpression::Any(cs) => eval_any(cs@, m),
        LegacyFilterExpression::NoneOf(cs) => eval_none(cs@, m),
    }
}

/// Conjunction over children, left to right; vacuously true.
pub open spec fn eval_all(cs: Seq<LegacyFilterExpression>, m: Map<Seq<char>, LitV>) -> Option<bool>
    decreases cs, 0int,
{
    if cs.len() == 0 {
        Some(true)
    } else {
        match eval_filter(&cs[0], m) {
            Option::None => Option::None,
            Some(false) => Some(false),
            Some(true) => eval_all(cs.drop_first(), m),
        }
    }
}

/// Disjunction over children, left to right; vacuously false.
pub open spec fn eval_any(cs: Seq<LegacyFilterExpression>, m: Map<Seq<char>, LitV>) -> Option<bool>
    decreases cs, 0int,
{
    if cs.len() == 0 {
        Some(false)
    } else {
        match eval_filter(&cs[0], m) {
            Option::None => Option::None,
            Some(true) => Some(true),
            Some(false) => eval_any(cs.drop_first(), m),
        }
    }
}

/// True when no child matches, left to right.
pub open spec fn eval_none(cs: Seq<LegacyFilterExpression>, m: Map<Seq<char>, LitV>) -> Option<bool>
    decreases cs, 0int,
{
    if cs.len() == 0 {
        Some(true)
    } else {
        match eval_filter(&cs[0], m) {
            Option::None => Option::None,
            Some(true) => Some(false),
            Some(false) => eval_none(cs.drop_first(), m),
        }
    }
}

/// Looks a string up in a string list.
pub fn contains_string(preds: &Vec<String>, s: &String) -> (r: bool)
    ensures
        r == str_list_contains(preds@, s@),
{
    let n = preds.len();
    let mut i: usize = 0;
    while i < n
        invariant
            n == preds@.len(),
            i <= n,
            forall|j: int| 0 <= j < i ==> preds@[j]@ != s@,
        decreases n - i,
    {
        if str_eq(preds[i].as_str(), s.as_str()) {
            return true;
        }
        i = i + 1;
    }
    false
}

impl LegacyFilterExpression {
    /// Evaluates the filter against a property bag.  Total but for the
    /// membership tests: `In`/`NotIn` on a non-string property value is an
    /// unsupported operation and yields the error.
    #[verifier::loop_isolation(false)]
    pub fn evaluate(&self, properties: &Properties) -> (r: Result<bool, FilterError>)
        requires
            properties.wf(),
        ensures
            r == match eval_filter(self, properties@) {
                Some(b) => Result::<bool, FilterError>::Ok(b),
                Option::None => Result::<bool, FilterError>::Err(FilterError::UnsupportedOperation),
            },
        decreases self,
    {
        broadcast use vstd::seq::axiom_seq_index_decreases;

        match self {
            LegacyFilterExpression::Has(key) => Ok(properties.contains_key(key.as_str())),
            LegacyFilterExpression::NotHas(key) => Ok(!properties.contains_key(key.as_str())),
            LegacyFilterExpression::Comparison(op, key, lit) => match properties.get(key.as_str()) {
                Some(v) => Ok(op.compare(v, lit)),
                Option::None => Ok(false),
            },
            LegacyFilterExpression::In(key, preds) => match properties.get(key.as_str()) {
                Some(v) => match v {
                    ComparisonLiteral::String(sv) => Ok(contains_string(preds, sv)),
                    _ => Err(FilterError::UnsupportedOperation),
                },
                Option::None => Ok(false),
            },
            LegacyFilterExpression::NotIn(key, preds) => match properties.get(key.as_str()) {
                Some(v) => match v {
                    ComparisonLiteral::String(sv) => Ok(!contains_string(preds, sv)),
                    _ => Err(FilterError::UnsupportedOperation),
                },
                Option::None => Ok(false),
            },
            LegacyFilterExpression::All(cs) => {
                let n = cs.len();
                proof {
                    assert(cs@.skip(0) =~= cs@);
                }
                let mut i: usize = 0;
                while i < n
                    invariant
                        properties.wf(),
                        n == cs@.len(),
                        i <= n,
                        eval_all(cs@, properties@) == eval_all(cs@.skip(i as int), properties@),
                        forall|c: &LegacyFilterExpression| cs@.contains(*c)
                            ==> decreases_to!(self => c),
                    decreases n - i,
                {
                    proof {
                        assert(cs@.skip(i as int)[0] == cs@[i as int]);
                        assert(cs@.skip(i as int).drop_first() =~= cs@.skip(i + 1));
                        assert(cs@.contains(cs@[i as int]));
                    }
                    match cs[i].evaluate(properties) {
                        Err(e) => {
                            return Err(e);
                        },
                        Ok(false) => {
                            return Ok(false);
                        },
                        Ok(true) => {},
                    }
                    i = i + 1;
                }
                proof {
                    assert(cs@.skip(n as int).len() == 0);
                }
                Ok(true)
            },
            LegacyFilterExpression::Any(cs) => {
                let n = cs.len();
                proof {
                    assert(cs@.skip(0) =~= cs@);
                }
                let mut i: usize = 0;
                while i < n
                    invariant
                        properties.wf(),
                        n == cs@.len(),
                        i <= n,
                        eval_any(cs@, properties@) == eval_any(cs@.skip(i as int), properties@),
                        forall|c: &LegacyFilterExpression| cs@.contains(*c)
                            ==> decreases_to!(self => c),
                    decreases n - i,
                {
                    proof {
                        assert(cs@.skip(i as int)[0] == cs@[i as int]);
                        assert(cs@.skip(i as int).drop_first() =~= cs@.skip(i + 1));
                        assert(cs@.contains(cs@[i as int]));
                    }
                    match cs[i].evaluate(properties) {
                        Err(e) => {
                            return Err(e);
                        },
                        Ok(true) => {
                            return Ok(true);
                        },
                        Ok(false) => {},
                    }
                    i = i + 1;
                }
                proof {
                    assert(cs@.skip(n as int).len() == 0);
                }
                Ok(false)
            },
            LegacyFilterExpression::NoneOf(cs) => {
                let n = cs.len();
                proof {
                    assert(cs@.skip(0) =~= cs@);
                }
                let mut i: usize = 0;
                while i < n
                    invariant
                        properties.wf(),
                        n == cs@.len(),
                        i <= n,
                        eval_none(cs@, properties@) == eval_none(cs@.skip(i as int), properties@),
                        forall|c: &LegacyFilterExpression| cs@.contains(*c)
                            ==> decreases_to!(self => c),
                    decreases n - i,
                {
                    proof {
                        assert(cs@.skip(i as int)[0] == cs@[i as int]);
                        assert(cs@.skip(i as int).drop_first() =~= cs@.skip(i + 1));
                        assert(cs@.contains(cs@[i as int]));
                    }
                    match cs[i].evaluate(properties) {
                        Err(e) => {
                            return Err(e);
                        },
                        Ok(true) => {
                            return Ok(false);
                        },
                        Ok(false) => {},
                    }
                    i = i + 1;
                }
                proof {
                    assert(cs@.skip(n as int).len() == 0);
                }
                Ok(true)
            },
        }
    }
}

/// A parsed style document value, as the filter parser reads it: a string,
/// a number (float bit pattern or integer), a boolean, or a nested array.
#[derive(Debug)]
pub enum StyleValue {
    String(String),
    Float(u64),
    Integer(i64),
    Bool(bool),
    Array(Vec<StyleValue>),
}

/// The mathematical view of a style value.
pub ghost enum StyleV {
    Str(Seq<char>),
    Float(u64),
    Integer(int),
    Bool(bool),
    Arr(Seq<StyleV>),
}

/// The mathematical view of a filter expression.
pub ghost enum FilterV {
    Has(Seq<char>),
    NotHas(Seq<char>),
    Comparison(ExpressionComparisonOp, Seq<char>, LitV),
    In(Seq<char>, Seq<Seq<char>>),
    NotIn(Seq<char>, Seq<Seq<char>>),
    All(Seq<FilterV>),
    Any(Seq<FilterV>),
    NoneOf(Seq<FilterV>),
}

/// The view of a style value.
pub open spec fn style_view(v: &StyleValue) -> StyleV
    decreases v, 1int,
{
    match v {
        StyleValue::String(x) => StyleV::Str(x@),
        StyleValue::Float(b) => StyleV::Float(*b),
        StyleValue::Integer(i) => StyleV::Integer(*i as int),
        StyleValue::Bool(b) => StyleV::Bool(*b),
        StyleValue::Array(items) => StyleV::Arr(style_views(items@)),
    }
}

/// The views of a sequence of style values.
pub open spec fn style_views(s: Seq<StyleValue>) -> Seq<StyleV>
    decreases s, 0int,
{
    if s.len() == 0 {
        Seq::empty()
    } else {
        seq![style_view(&s[0])] + style_views(s.drop_first())
    }
}

/// The view of a filter expression.
pub open spec fn filter_view(e: &LegacyFilterExpression) -> FilterV
    decreases e, 1int,
{
    match e {
        LegacyFilterExpression::Has(k) => FilterV::Has(k@),
        LegacyFilterExpression::NotHas(k) => FilterV::NotHas(k@),
        LegacyFilterExpression::Comparison(op, k, lit) => FilterV::Comparison(*op, k@, lit@),
        LegacyFilterExpression::In(k, preds) => FilterV::In(
            k@,
            preds@.map_values(|p: String| p@),
        ),
        LegacyFilterExpression::NotIn(k, preds) => FilterV::NotIn(
            k@,
            preds@.map_values(|p: String| p@),
        ),
        LegacyFilterExpression::All(cs) => FilterV::All(filter_views(cs@)),
        LegacyFilterExpression::Any(cs) => FilterV::Any(filter_views(cs@)),
        LegacyFilterExpression::NoneOf(cs) => FilterV::NoneOf(filter_views(cs@)),
    }
}

/// The views of a sequence of filter expressions.
pub open spec fn filter_views(s: Seq<LegacyFilterExpression>) -> Seq<FilterV>
    decreases s, 0int,
{
    if s.len() == 0 {
        Seq::empty()
    } else {
        seq![filter_view(&s[0])] + filter_views(s.drop_first())
    }
}

/// An error from reading a filter out of its array form.
#[derive(Clone, Copy, Debug, PartialEq, Eq, Structural)]
pub enum FilterParseError {
    /// The value the filter was read from is not an array.
    NotAnArray,
    /// The filter array is empty.
    EmptyFilter,
    /// The keyword selects no filter variant.
    InvalidKeyword,
    /// The variant needs a property name and none (or a non-string) is there.
    MissingProperty,
    /// The comparison needs a literal operand and none is there.
    MissingLiteral,
    /// The comparison operand is not a literal.
    InvalidLiteral,
    /// A membership predicate is not a string.
    InvalidPredicate,
}

/// The literal a style value denotes, if any.
pub open spec fn literal_of(v: StyleV) -> Option<LitV> {
    match v {
        StyleV::Str(x) => Some(LitV::Str(x)),
        StyleV::Float(b) => Some(LitV::Float(b)),
        StyleV::Integer(i) => Some(LitV::Integer(i)),
        StyleV::Bool(b) => Some(LitV::Bool(b)),
        StyleV::Arr(_) => Option::None,
    }
}

/// What parsing a style value as a filter yields: the first element of the
/// array selects the variant; the later elements are its arguments.
pub open spec fn parse_filter_v(v: StyleV) -> Result<FilterV, FilterParseError>
    decreases v, 1int,
{
    match v {
        StyleV::Arr(items) => if items.len() == 0 {
            Err(FilterParseError::EmptyFilter)
        } else {
            match items[0] {
                StyleV::Str(k) => if k == "has"@ || k == "!has"@ {
                    match parse_property(items) {
                        Ok(p) => Ok(if k == "has"@ { FilterV::Has(p) } else { FilterV::NotHas(p) }),
                        Err(e) => Err(e),
                    }
                } else if ExpressionComparisonOp::from_token(k) is Some {
                    let op = ExpressionComparisonOp::from_token(k)->0;
                    match parse_property(items) {
                        Ok(p) => if items.len() < 3 {
                            Err(FilterParseError::MissingLiteral)
                        } else {
                            match literal_of(items[2]) {
                                Some(lit) => Ok(FilterV::Comparison(op, p, lit)),
                                Option::None => Err(FilterParseError::InvalidLiteral),
                            }
                        },
                        Err(e) => Err(e),
                    }
                } else if k == "in"@ || k == "!in"@ {
                    match parse_property(items) {
                        Ok(p) => match parse_predicates(items.skip(2)) {
                            Ok(preds) => Ok(if k == "in"@ {
                                FilterV::In(p, preds)
                            } else {
                                FilterV::NotIn(p, preds)
                            }),
                            Err(e) => Err(e),
                        },
                        Err(e) => Err(e),
                    }
                } else if k == "all"@ || k == "any"@ || k == "none"@ {
                    match parse_children(items.skip(1)) {
                        Ok(cs) => Ok(if k == "all"@ {
                            FilterV::All(cs)
                        } else if k == "any"@ {
                            FilterV::Any(cs)
                        } else {
                            FilterV::NoneOf(cs)
                        }),
                        Err(e) => Err(e),
                    }
                } else {
                    Err(FilterParseError::InvalidKeyword)
                },
                _ => Err(FilterParseError::InvalidKeyword),
            }
        },
        _ => Err(FilterParseError::NotAnArray),
    }
}

/// The property-name argument of a filter array: its second element, which
/// must be a string.
pub open spec fn parse_property(items: Seq<StyleV>) -> Result<Seq<char>, FilterParseError> {
    if items.len() < 2 {
        Err(FilterParseError::MissingProperty)
    } else {
        match items[1] {
            StyleV::Str(p) => Ok(p),
            _ => Err(FilterParseError::MissingProperty),
        }
    }
}

/// The membership predicates: every remaining element must be a string.
pub open spec fn parse_predicates(items: Seq<StyleV>) -> Result<Seq<Seq<char>>, FilterParseError>
    decreases items.len(),
{
    if items.len() == 0 {
        Ok(Seq::empty())
    } else {
        match items[0] {
            StyleV::Str(p) => match parse_predicates(items.drop_first()) {
                Ok(rest) => Ok(seq![p] + rest),
                Err(e) => Err(e),
            },
            _ => Err(FilterParseError::InvalidPredicate),
        }
    }
}

/// The children of a combinator: every remaining element parsed as a
/// filter, stopping at the first failure.
pub open spec fn parse_children(items: Seq<StyleV>) -> Result<Seq<FilterV>, FilterParseError>
    decreases items, 0int,
{
    if items.len() == 0 {
        Ok(Seq::empty())
    } else {
        match parse_filter_v(items[0]) {
            Ok(c) => match parse_children(items.drop_first()) {
                Ok(rest) => Ok(seq![c] + rest),
                Err(e) => Err(e),
            },
            Err(e) => Err(e),
        }
    }
}

/// Element-wise reading of [`style_views`].
proof fn lemma_style_views_index(s: Seq<StyleValue>, i: int)
    requires
        0 <= i < s.len(),
    ensures
        style_views(s).len() == s.len(),
        style_views(s)[i] == style_view(&s[i]),
    decreases s.len(),
{
    lemma_style_views_len(s);
    if i > 0 {
        lemma_style_views_index(s.drop_first(), i - 1);
    }
}

/// [`style_views`] keeps the length.
proof fn lemma_style_views_len(s: Seq<StyleValue>)
    ensures
        style_views(s).len() == s.len(),
    decreases s.len(),
{
    if s.len() > 0 {
        lemma_style_views_len(s.drop_first());
    }
}

/// Prepends a prefix to the payload of a successful parse.
spec fn prepend_preds(
    pre: Seq<Seq<char>>,
    r: Result<Seq<Seq<char>>, FilterParseError>,
) -> Result<Seq<Seq<char>>, FilterParseError> {
    match r {
        Ok(rest) => Ok(pre + rest),
        Err(e) => Err(e),
    }
}

/// Prepends a prefix to the payload of a successful parse.
spec fn prepend_children(
    pre: Seq<FilterV>,
    r: Result<Seq<FilterV>, FilterParseError>,
) -> Result<Seq<FilterV>, FilterParseError> {
    match r {
        Ok(rest) => Ok(pre + rest),
        Err(e) => Err(e),
    }
}

/// The filter variant a keyword selects.
#[derive(Clone, Copy, Debug, PartialEq, Eq, Structural)]
pub enum FilterKeyword {
    KwHas,
    KwNotHas,
    KwCompare(ExpressionComparisonOp),
    KwIn,
    KwNotIn,
    KwAll,
    KwAny,
    KwNone,
    KwUnknown,
}

/// The filter keyword a token denotes, tried in the order the parser
/// tries them.
pub open spec fn keyword_of(k: Seq<char>) -> FilterKeyword {
    if k == "has"@ {
        FilterKeyword::KwHas
    } else if k == "!has"@ {
        FilterKeyword::KwNotHas
    } else if ExpressionComparisonOp::from_token(k) is Some {
        FilterKeyword::KwCompare(ExpressionComparisonOp::from_token(k)->0)
    } else if k == "in"@ {
        FilterKeyword::KwIn
    } else if k == "!in"@ {
        FilterKeyword::KwNotIn
    } else if k == "all"@ {
        FilterKeyword::KwAll
    } else if k == "any"@ {
        FilterKeyword::KwAny
    } else if k == "none"@ {
        FilterKeyword::KwNone
    } else {
        FilterKeyword::KwUnknown
    }
}

/// Classifies a keyword token.
fn classify_keyword(k: &str) -> (r: FilterKeyword)
    ensures
        r == keyword_of(k@),
{
    proof {
        reveal_strlit("has");
        reveal_strlit("!has");
        reveal_strlit("in");
        reveal_strlit("!in");
        reveal_strlit("all");
        reveal_strlit("any");
        reveal_strlit("none");
        reveal_strlit("==");
        reveal_strlit("!=");
        reveal_strlit(">");
        reveal_strlit(">=");
        reveal_strlit("<");
        reveal_strlit("<=");
    }
    if str_eq(k, "has") {
        FilterKeyword::KwHas
    } else if str_eq(k, "!has") {
        FilterKeyword::KwNotHas
    } else if let Some(op) = ExpressionComparisonOp::try_from(k) {
        FilterKeyword::KwCompare(op)
    } else if str_eq(k, "in") {
        FilterKeyword::KwIn
    } else if str_eq(k, "!in") {
        FilterKeyword::KwNotIn
    } else if str_eq(k, "all") {
        FilterKeyword::KwAll
    } else if str_eq(k, "any") {
        FilterKeyword::KwAny
    } else if str_eq(k, "none") {
        FilterKeyword::KwNone
    } else {
        FilterKeyword::KwUnknown
    }
}

impl LegacyFilterExpression {
    /// Reads a filter from its array form.  The first element selects the
    /// variant; an unknown keyword, a missing argument or an ill-typed
    /// argument is a parse error, exactly as [`parse_filter_v`] lays down.
    #[verifier::loop_isolation(false)]
    #[verifier::rlimit(30)]
    pub fn parse(v: StyleValue) -> (r: Result<LegacyFilterExpression, FilterParseError>)
        ensures
            match r {
                Ok(e) => parse_filter_v(style_view(&v)) == Ok::<FilterV, FilterParseError>(
                    filter_view(&e),
                ),
                Err(err) => parse_filter_v(style_view(&v)) == Err::<FilterV, FilterParseError>(err),
            },
        decreases v,
    {
        broadcast use vstd::std_specs::vec::group_vec_axioms;
        broadcast use vstd::seq::axiom_seq_index_decreases;
        broadcast use vstd::seq::axiom_seq_subrange_decreases;

        let mut items = match v {
            StyleValue::Array(items) => items,
            StyleValue::String(x) => {
                return Err(FilterParseError::NotAnArray);
            },
            StyleValue::Float(x) => {
                return Err(FilterParseError::NotAnArray);
            },
            StyleValue::Integer(x) => {
                return Err(FilterParseError::NotAnArray);
            },
            StyleValue::Bool(x) => {
                return Err(FilterParseError::NotAnArray);
            },
        };
        let ghost orig = items@;
        let ghost s0 = style_views(orig);
        proof {
            lemma_style_views_len(orig);
        }
        if items.len() == 0 {
            return Err(FilterParseError::EmptyFilter);
        }
        proof {
            lemma_style_views_index(orig, 0);
        }
        let kind = match &items[0] {
            StyleValue::String(k) => classify_keyword(k.as_str()),
            _ => {
                return Err(FilterParseError::InvalidKeyword);
            },
        };
        match kind {
            FilterKeyword::KwHas | FilterKeyword::KwNotHas => {
                if items.len() < 2 {
                    return Err(FilterParseError::MissingProperty);
                }
                proof {
                    lemma_style_views_index(orig, 1);
                }
                let p = items.remove(1);
                match p {
                    StyleValue::String(ps) => {
                        if matches!(kind, FilterKeyword::KwHas) {
                            Ok(LegacyFilterExpression::Has(ps))
                        } else {
                            Ok(LegacyFilterExpression::NotHas(ps))
                        }
                    },
                    _ => Err(FilterParseError::MissingProperty),
                }
            },
            FilterKeyword::KwCompare(op) => {
                if items.len() < 2 {
                    return Err(FilterParseError::MissingProperty);
                }
                proof {
                    lemma_style_views_index(orig, 1);
                }
                let p = items.remove(1);
                let ps = match p {
                    StyleValue::String(ps) => ps,
                    _ => {
                        return Err(FilterParseError::MissingProperty);
                    },
                };
                if items.len() < 2 {
                    return Err(FilterParseError::MissingLiteral);
                }
                proof {
                    lemma_style_views_index(orig, 2);
                    assert(items@[1] == orig[2]);
                }
                let litval = items.remove(1);
                let lit = match litval {
                    StyleValue::String(x) => ComparisonLiteral::String(x),
                    StyleValue::Float(b) => ComparisonLiteral::Float(b),
                    StyleValue::Integer(i) => ComparisonLiteral::Integer(i),
                    StyleValue::Bool(b) => ComparisonLiteral::Bool(b),
                    StyleValue::Array(_) => {
                        return Err(FilterParseError::InvalidLiteral);
                    },
                };
                Ok(LegacyFilterExpression::Comparison(op, ps, lit))
            },
            FilterKeyword::KwIn | FilterKeyword::KwNotIn => {
                if items.len() < 2 {
                    return Err(FilterParseError::MissingProperty);
                }
                proof {
                    lemma_style_views_index(orig, 1);
                }
                let p = items.remove(1);
                let ps = match p {
                    StyleValue::String(ps) => ps,
                    _ => {
                        return Err(FilterParseError::MissingProperty);
                    },
                };
                let mut preds: Vec<String> = Vec::new();
                let ghost j: int = 0;
                proof {
                    assert(s0.skip(2).skip(0) =~= s0.skip(2));
                    assert(preds@.map_values(|q: String| q@) =~= Seq::<Seq<char>>::empty());
                }
                while items.len() > 1
                    invariant
                        items@ == seq![orig[0]] + orig.skip(2 + j),
                        0 <= j <= orig.len() - 2,
                        prepend_preds(
                            preds@.map_values(|q: String| q@),
                            parse_predicates(s0.skip(2 + j)),
                        ) == parse_predicates(s0.skip(2)),
                    decreases items@.len(),
                {
                    proof {
                        lemma_style_views_index(orig, 2 + j);
                        assert(s0.skip(2 + j)[0] == s0[2 + j]);
                        assert(s0.skip(2 + j).drop_first() =~= s0.skip(2 + j + 1));
                        assert(items@[1] == orig[2 + j]);
                    }
                    let e = items.remove(1);
                    let ghost old_preds = preds@;
                    match e {
                        StyleValue::String(x) => {
                            preds.push(x);
                        },
                        _ => {
                            return Err(FilterParseError::InvalidPredicate);
                        },
                    }
                    proof {
                        j = j + 1;
                        assert(items@ =~= seq![orig[0]] + orig.skip(2 + j));
                        assert(preds@.map_values(|q: String| q@)
                            =~= old_preds.map_values(|q: String| q@) + seq![preds@.last()@]);
                        if parse_predicates(s0.skip(2 + j)) is Ok {
                            assert(preds@.map_values(|q: String| q@)
                                + parse_predicates(s0.skip(2 + j))->Ok_0
                                =~= old_preds.map_values(|q: String| q@)
                                + parse_predicates(s0.skip(2 + j - 1))->Ok_0);
                        }
                    }
                }
                proof {
                    assert(s0.skip(2 + j).len() == 0);
                    assert(preds@.map_values(|q: String| q@) + Seq::<Seq<char>>::empty()
                        =~= preds@.map_values(|q: String| q@));
                }
                if matches!(kind, FilterKeyword::KwIn) {
                    Ok(LegacyFilterExpression::In(ps, preds))
                } else {
                    Ok(LegacyFilterExpression::NotIn(ps, preds))
                }
            },
            FilterKeyword::KwAll | FilterKeyword::KwAny | FilterKeyword::KwNone => {
                let mut children: Vec<LegacyFilterExpression> = Vec::new();
                let ghost j: int = 0;
                proof {
                    assert(s0.skip(1).skip(0) =~= s0.skip(1));
                    assert(filter_views(children@) =~= Seq::<FilterV>::empty());
                }
                while items.len() > 1
                    invariant
                        items@ == seq![orig[0]] + orig.skip(1 + j),
                        0 <= j <= orig.len() - 1,
                        prepend_children(
                            filter_views(children@),
                            parse_children(s0.skip(1 + j)),
                        ) == parse_children(s0.skip(1)),
                    decreases items@.len(),
                {
                    proof {
                        lemma_style_views_index(orig, 1 + j);
                        assert(s0.skip(1 + j)[0] == s0[1 + j]);
                        assert(s0.skip(1 + j).drop_first() =~= s0.skip(1 + j + 1));
                        assert(items@[1] == orig[1 + j]);
                    }
                    let e = items.remove(1);
                    proof {
                        assert(decreases_to!(v => e));
                    }
                    let c = match Self::parse(e) {
                        Ok(c) => c,
                        Err(err) => {
                            return Err(err);
                        },
                    };
                    let ghost old_children = children@;
                    children.push(c);
                    proof {
                        j = j + 1;
                        assert(items@ =~= seq![orig[0]] + orig.skip(1 + j));
                        lemma_filter_views_push(old_children, c);
                        if parse_children(s0.skip(1 + j)) is Ok {
                            assert(filter_views(children@)
                                + parse_children(s0.skip(1 + j))->Ok_0
                                =~= filter_views(old_children)
                                + parse_children(s0.skip(1 + j - 1))->Ok_0);
                        }
                    }
                }
                proof {
                    assert(s0.skip(1 + j).len() == 0);
                    assert(filter_views(children@) + Seq::<FilterV>::empty()
                        =~= filter_views(children@));
                }
                match kind {
                    FilterKeyword::KwAll => Ok(LegacyFilterExpression::All(children)),
                    FilterKeyword::KwAny => Ok(LegacyFilterExpression::Any(children)),
                    _ => Ok(LegacyFilterExpression::NoneOf(children)),
                }
            },
            FilterKeyword::KwUnknown => Err(FilterParseError::InvalidKeyword),
        }
    }
}

/// Appending one expression appends its view.
proof fn lemma_filter_views_push(s: Seq<LegacyFilterExpression>, c: LegacyFilterExpression)
    ensures
        filter_views(s.push(c)) == filter_views(s) + seq![filter_view(&c)],
    decreases s.len(),
{
    reveal_with_fuel(filter_views, 3);
    if s.len() == 0 {
        assert(s.push(c)[0] == c);
        assert(s.push(c).drop_first() =~= Seq::<LegacyFilterExpression>::empty());
        assert(filter_views(s.push(c)) =~= filter_views(s) + seq![filter_view(&c)]);
    } else {
        assert(s.push(c)[0] == s[0]);
        assert(s.push(c).drop_first() =~= s.drop_first().push(c));
        lemma_filter_views_push(s.drop_first(), c);
        assert(filter_views(s.push(c)) =~= filter_views(s) + seq![filter_view(&c)]);
    }
}

} // verus!
