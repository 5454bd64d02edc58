//! Expression evaluation and dependency extraction.
//!
//! Evaluation is a pure function of the expression tree and a binding
//! map from axis keys to integers. Division is truncating integer
//! division; division by zero is reported as `DivisionByZero`, and any
//! intermediate result that leaves the `i32` range is reported as
//! `Overflow` (the arithmetic never wraps or aborts).

use vstd::prelude::*;

use crate::config::Axis;
use crate::expr::{AxisExpression, ExprModel, Operator};

verus! {

/// The identity pair (device name, axis): the unit of identity for
/// dependency lookup and binding maps.
#[derive(Debug, PartialEq, Eq, Hash)]
pub struct AxisKey {
    pub device: String,
    pub axis: Axis,
}

/// Mathematical model of an `AxisKey`: the device name's character
/// sequence paired with the axis.
pub type KeyModel = (Seq<char>, Axis);

impl View for AxisKey {
    type V = KeyModel;

    open spec fn view(&self) -> KeyModel {
        (self.device@, self.axis)
    }
}

impl Clone for AxisKey {
    fn clone(&self) -> (r: Self)
        ensures
            r@ == self@,
    {
        AxisKey { device: self.device.clone(), axis: self.axis }
    }
}

impl AxisKey {
    /// Equality of the two identity pairs, stated over the models.
    pub fn key_eq(&self, other: &AxisKey) -> (r: bool)
        ensures
            r == (self@ == other@),
    {
        self.device == other.device && self.axis == other.axis
    }
}

/// The models of a sequence of keys.
pub open spec fn keys_model(s: Seq<AxisKey>) -> Seq<KeyModel> {
    s.map_values(|k: AxisKey| k@)
}

/// A binding from axis keys to current integer values, modelled as a
/// finite map. Replaces a hash map keyed by (device name, axis); a
/// later insert for the same key overrides an earlier one.
pub struct Bindings {
    entries: Vec<(AxisKey, i32)>,
}

/// The map denoted by an entry list: later entries override earlier ones.
pub open spec fn entries_model(s: Seq<(AxisKey, i32)>) -> Map<KeyModel, int>
    decreases s.len(),
{
    if s.len() == 0 {
        Map::empty()
    } else {
        entries_model(s.drop_last()).insert(s.last().0@, s.last().1 as int)
    }
}

impl View for Bindings {
    type V = Map<KeyModel, int>;

    closed spec fn view(&self) -> Map<KeyModel, int> {
        entries_model(self.entries@)
    }
}

/// Looking a key up in an entry list ignores a suffix in which the key
/// does not occur.
proof fn lemma_entries_model_take(s: Seq<(AxisKey, i32)>, i: int, k: KeyModel)
    requires
        0 <= i <= s.len(),
        forall|j: int| i <= j < s.len() ==> #[trigger] s[j].0@ != k,
    ensures
        entries_model(s).contains_key(k) == entries_model(s.take(i)).contains_key(k),
        entries_model(s).contains_key(k) ==> entries_model(s)[k] == entries_model(s.take(i))[k],
    decreases s.len() - i,
{
    if i == s.len() {
        assert(s.take(i) =~= s);
    } else {
        let t = s.drop_last();
        assert(s.last().0@ != k);
        lemma_entries_model_take(t, i, k);
        assert(t.take(i) =~= s.take(i));
    }
}

impl Bindings {
    /// An empty binding.
    pub fn new() -> (r: Bindings)
        ensures
            r@ == Map::<KeyModel, int>::empty(),
    {
        Bindings { entries: Vec::new() }
    }

    /// Binds `key` to `value`, overriding any earlier binding for it.
    pub fn insert(&mut self, key: AxisKey, value: i32)
        ensures
            final(self)@ == old(self)@.insert(key@, value as int),
    {
        let ghost before = self.entries@;
        self.entries.push((key, value));
        proof {
            assert(self.entries@.drop_last() =~= before);
        }
    }

    /// The value bound to `key`, if any.
    pub fn get(&self, key: &AxisKey) -> (r: Option<i32>)
        ensures
            match r {
                Some(v) => self@.contains_key(key@) && self@[key@] == v as int,
                None => !self@.contains_key(key@),
            },
    {
        let mut i: usize = self.entries.len();
        while i > 0
            invariant
                i <= self.entries.len(),
                forall|j: int|
                    i <= j < self.entries@.len() ==> #[trigger] self.entries@[j].0@ != key@,
            decreases i,
        {
            i = i - 1;
            if self.entries[i].0.key_eq(key) {
                proof {
                    lemma_entries_model_take(self.entries@, i + 1, key@);
                    assert(self.entries@.take(i + 1).drop_last() =~= self.entries@.take(i as int));
                    assert(self.entries@.take(i + 1).last() == self.entries@[i as int]);
                }
                return Some(self.entries[i].1);
            }
        }
        proof {
            lemma_entries_model_take(self.entries@, 0, key@);
            assert(self.entries@.take(0) =~= Seq::<(AxisKey, i32)>::empty());
        }
        None
    }

    /// Whether `key` is bound.
    pub fn contains(&self, key: &AxisKey) -> (r: bool)
        ensures
            r == self@.contains_key(key@),
    {
        self.get(key).is_some()
    }
}

/// A failure during expression evaluation.
#[derive(Debug, PartialEq, Eq)]
pub enum EvalError {
    /// The expression reads an axis for which no value is bound.
    MissingBinding(AxisKey),
    /// The right operand of a division evaluated to zero.
    DivisionByZero,
    /// An intermediate result left the `i32` range.
    Overflow,
}

/// Mathematical model of an `EvalError`.
pub enum EvalErrorModel {
    MissingBinding(KeyModel),
    DivisionByZero,
    Overflow,
}

impl View for EvalError {
    type V = EvalErrorModel;

    open spec fn view(&self) -> EvalErrorModel {
        match self {
            EvalError::MissingBinding(k) => EvalErrorModel::MissingBinding(k@),
            EvalError::DivisionByZero => EvalErrorModel::DivisionByZero,
            EvalError::Overflow => EvalErrorModel::Overflow,
        }
    }
}

/// Whether `x` fits in an `i32`.
pub open spec fn i32_fits(x: int) -> bool {
    i32::MIN <= x <= i32::MAX
}

/// Truncating (round-toward-zero) integer division, as `/` computes it
/// on Rust's signed integers.
pub open spec fn spec_trunc_div(x: int, d: int) -> int
    recommends
        d != 0,
{
    if x == 0 {
        0
    } else if x > 0 && d > 0 {
        x / d
    } else if x < 0 && d < 0 {
        (x * -1) / (d * -1)
    } else if x < 0 {
        ((x * -1) / d) * -1
    } else {
        (x / (d * -1)) * -1
    }
}

/// One binary operation over unbounded integers, with the `i32` range
/// checked on the result.
pub open spec fn spec_apply(op: Operator, lv: int, rv: int) -> Result<int, EvalErrorModel> {
    match op {
        Operator::Add => if i32_fits(lv + rv) {
            Ok(lv + rv)
        } else {
            Err(EvalErrorModel::Overflow)
        },
        Operator::Sub => if i32_fits(lv - rv) {
            Ok(lv - rv)
        } else {
            Err(EvalErrorModel::Overflow)
        },
        Operator::Mul => if i32_fits(lv * rv) {
            Ok(lv * rv)
        } else {
            Err(EvalErrorModel::Overflow)
        },
        Operator::Div => if rv == 0 {
            Err(EvalErrorModel::DivisionByZero)
        } else if i32_fits(spec_trunc_div(lv, rv)) {
            Ok(spec_trunc_div(lv, rv))
        } else {
            Err(EvalErrorModel::Overflow)
        },
    }
}

/// The value of an expression under a binding map: a literal is itself,
/// an axis reference is looked up (missing ones fail), and a binary node
/// evaluates its left operand before its right one.
pub open spec fn spec_eval(e: ExprModel, m: Map<KeyModel, int>) -> Result<int, EvalErrorModel>
    decreases e,
{
    match e {
        ExprModel::Literal(v) => Ok(v),
        ExprModel::AxisReference(d, a) => if m.contains_key((d, a)) {
            Ok(m[(d, a)])
        } else {
            Err(EvalErrorModel::MissingBinding((d, a)))
        },
        ExprModel::BiOp(op, l, r) => match spec_eval(*l, m) {
            Err(e1) => Err(e1),
            Ok(lv) => match spec_eval(*r, m) {
                Err(e2) => Err(e2),
                Ok(rv) => spec_apply(op, lv, rv),
            },
        },
    }
}

/// The model of an evaluation result.
pub open spec fn eval_result_model(r: Result<i32, EvalError>) -> Result<int, EvalErrorModel> {
    match r {
        Ok(v) => Ok(v as int),
        Err(e) => Err(e@),
    }
}

/// Raw left-to-right, depth-first sequence of the axis references an
/// expression reads, duplicates included.
pub open spec fn raw_deps(e: ExprModel) -> Seq<KeyModel>
    decreases e,
{
    match e {
        ExprModel::AxisReference(d, a) => seq![(d, a)],
        ExprModel::Literal(_) => Seq::empty(),
        ExprModel::BiOp(_, l, r) => raw_deps(*l) + raw_deps(*r),
    }
}

/// `s` with duplicates removed, keeping the first occurrence of each
/// element.
pub open spec fn dedup_first(s: Seq<KeyModel>) -> Seq<KeyModel>
    decreases s.len(),
{
    if s.len() == 0 {
        Seq::empty()
    } else {
        let p = dedup_first(s.drop_last());
        if s.drop_last().contains(s.last()) {
            p
        } else {
            p.push(s.last())
        }
    }
}

/// The distinct axis references an expression reads, in discovery order.
pub open spec fn spec_dependencies(e: ExprModel) -> Seq<KeyModel> {
    dedup_first(raw_deps(e))
}

/// Deduplication neither loses nor invents elements.
pub proof fn lemma_dedup_first_contains(s: Seq<KeyModel>, k: KeyModel)
    ensures
        dedup_first(s).contains(k) == s.contains(k),
    decreases s.len(),
{
    if s.len() > 0 {
        let t = s.drop_last();
        lemma_dedup_first_contains(t, k);
        assert(s =~= t.push(s.last()));
        if s.contains(k) {
            let i = choose|i: int| 0 <= i < s.len() && s[i] == k;
            if i < t.len() {
                assert(t[i] == k);
            } else {
                assert(s.last() == k);
            }
            if t.contains(s.last()) {
                assert(t.contains(k));
                assert(dedup_first(s).contains(k));
            } else {
                if k == s.last() {
                    assert(dedup_first(s).last() == k);
                } else {
                    assert(dedup_first(t).contains(k));
                    let j = choose|j: int| 0 <= j < dedup_first(t).len() && dedup_first(t)[j] == k;
                    assert(dedup_first(s)[j] == k);
                }
            }
        } else {
            if dedup_first(s).contains(k) {
                let j = choose|j: int|
                    0 <= j < dedup_first(s).len() && dedup_first(s)[j] == k;
                if t.contains(s.last()) {
                    assert(dedup_first(t)[j] == k);
                    assert(t.contains(k));
                    assert(s[choose|i: int| 0 <= i < t.len() && t[i] == k] == k);
                } else {
                    if j < dedup_first(t).len() {
                        assert(dedup_first(t)[j] == k);
                        assert(t.contains(k));
                        assert(s[choose|i: int| 0 <= i < t.len() && t[i] == k] == k);
                    } else {
                        assert(k == s.last());
                        assert(s[s.len() - 1] == k);
                    }
                }
                assert(false);
            }
        }
    }
}

/// Deduplication leaves no element twice.
pub proof fn lemma_dedup_first_no_duplicates(s: Seq<KeyModel>)
    ensures
        forall|i: int, j: int|
            0 <= i < j < dedup_first(s).len() ==> dedup_first(s)[i] != dedup_first(s)[j],
    decreases s.len(),
{
    if s.len() > 0 {
        let t = s.drop_last();
        lemma_dedup_first_no_duplicates(t);
        if !t.contains(s.last()) {
            lemma_dedup_first_contains(t, s.last());
            assert(!dedup_first(t).contains(s.last()));
            assert forall|i: int, j: int|
                0 <= i < j < dedup_first(s).len() implies dedup_first(s)[i] != dedup_first(
                s,
            )[j] by {
                if j < dedup_first(t).len() {
                } else {
                    assert(dedup_first(s)[j] == s.last());
                    if dedup_first(s)[i] == s.last() {
                        assert(dedup_first(t)[i] == s.last());
                        assert(dedup_first(t).contains(s.last()));
                    }
                }
            }
        }
    }
}

/// Whether any key in `v` has the model `k@`.
pub(crate) fn keys_contain(v: &Vec<AxisKey>, k: &AxisKey) -> (r: bool)
    ensures
        r == keys_model(v@).contains(k@),
{
    let mut i: usize = 0;
    while i < v.len()
        invariant
            i <= v.len(),
            forall|j: int| 0 <= j < i ==> keys_model(v@)[j] != k@,
        decreases v.len() - i,
    {
        if v[i].key_eq(k) {
            proof {
                assert(keys_model(v@)[i as int] == k@);
            }
            return true;
        }
        i = i + 1;
    }
    false
}

impl AxisExpression {
    /// Evaluates the expression under `values`. The result is a pure
    /// function of the expression tree and the binding map: the same
    /// tree and the same bindings always give the same result.
    pub fn eval(&self, values: &Bindings) -> (r: Result<i32, EvalError>)
        ensures
            eval_result_model(r) == spec_eval(self@, values@),
        decreases self,
    {
        match self {
            AxisExpression::Literal(v) => Ok(*v),
            AxisExpression::AxisReference(dev, axis) => {
                let key = AxisKey { device: dev.clone(), axis: *axis };
                match values.get(&key) {
                    Some(v) => Ok(v),
                    None => Err(EvalError::MissingBinding(key)),
                }
            },
            AxisExpression::BiOp(op, left, right) => {
                let lv = match left.eval(values) {
                    Ok(v) => v,
                    Err(e) => {
                        return Err(e);
                    },
                };
                let rv = match right.eval(values) {
                    Ok(v) => v,
                    Err(e) => {
                        return Err(e);
                    },
                };
                match op {
                    Operator::Add => match lv.checked_add(rv) {
                        Some(v) => Ok(v),
                        None => Err(EvalError::Overflow),
                    },
                    Operator::Sub => match lv.checked_sub(rv) {
                        Some(v) => Ok(v),
                        None => Err(EvalError::Overflow),
                    },
                    Operator::Mul => match lv.checked_mul(rv) {
                        Some(v) => Ok(v),
                        None => Err(EvalError::Overflow),
                    },
                    Operator::Div => {
                        if rv == 0 {
                            Err(EvalError::DivisionByZero)
                        } else {
                            match lv.checked_div(rv) {
                                Some(v) => Ok(v),
                                None => Err(EvalError::Overflow),
                            }
                        }
                    },
                }
            },
        }
    }

    /// Raw dependency walk: every axis reference, left to right, depth
    /// first, duplicates included.
    fn raw_dependencies(&self) -> (r: Vec<AxisKey>)
        ensures
            keys_model(r@) == raw_deps(self@),
        decreases self,
    {
        match self {
            AxisExpression::AxisReference(dev, axis) => {
                let r = vec![AxisKey { device: dev.clone(), axis: *axis }];
                proof {
                    assert(keys_model(r@) =~= raw_deps(self@));
                }
                r
            },
            AxisExpression::Literal(_) => {
                let r: Vec<AxisKey> = Vec::new();
                proof {
                    assert(keys_model(r@) =~= raw_deps(self@));
                }
                r
            },
            AxisExpression::BiOp(_, left, right) => {
                let mut l = left.raw_dependencies();
                let mut rt = right.raw_dependencies();
                let ghost lv = l@;
                let ghost rv = rt@;
                l.append(&mut rt);
                proof {
                    assert(keys_model(l@) =~= keys_model(lv) + keys_model(rv));
                }
                l
            },
        }
    }

    /// The distinct axis references this expression reads: discovery
    /// order is left to right, depth first, and duplicates are removed
    /// keeping the first occurrence.
    pub fn dependencies(&self) -> (r: Vec<AxisKey>)
        ensures
            keys_model(r@) == spec_dependencies(self@),
    {
        let raw = self.raw_dependencies();
        let mut out: Vec<AxisKey> = Vec::new();
        let mut i: usize = 0;
        proof {
            assert(keys_model(raw@).take(0) =~= Seq::<KeyModel>::empty());
        }
        while i < raw.len()
            invariant
                i <= raw.len(),
                keys_model(raw@) == raw_deps(self@),
                keys_model(out@) == dedup_first(keys_model(raw@).take(i as int)),
            decreases raw.len() - i,
        {
            let ghost pre = keys_model(raw@).take(i as int);
            let ghost cur = keys_model(raw@).take(i + 1);
            proof {
                assert(cur.drop_last() =~= pre);
                assert(cur.last() == keys_model(raw@)[i as int]);
                lemma_dedup_first_contains(pre, raw@[i as int]@);
            }
            if !keys_contain(&out, &raw[i]) {
                let ghost before = out@;
                out.push(raw[i].clone());
                proof {
                    assert(keys_model(out@) =~= keys_model(before).push(raw@[i as int]@));
                }
            }
            i = i + 1;
        }
        proof {
            assert(keys_model(raw@).take(raw@.len() as int) =~= keys_model(raw@));
        }
        out
    }
}


/// The dependency list of an expression holds each axis reference once,
/// and holds exactly the references the expression reads.
pub proof fn lemma_dependencies_distinct(e: ExprModel)
    ensures
        forall|i: int, j: int|
            0 <= i < j < spec_dependencies(e).len() ==> spec_dependencies(e)[i]
                != spec_dependencies(e)[j],
        forall|k: KeyModel| spec_dependencies(e).contains(k) == raw_deps(e).contains(k),
{
    lemma_dedup_first_no_duplicates(raw_deps(e));
    assert forall|k: KeyModel|
        spec_dependencies(e).contains(k) == raw_deps(e).contains(k) by {
        lemma_dedup_first_contains(raw_deps(e), k);
    }
}

} // verus!
