//! The vector filler.
//!
//! `fill` interprets a [`LayoutPlan`] against one record: every slot's rule
//! is executed over exactly its own sub-range `[offset, offset + width)` of a
//! zero-initialized cell buffer. `slot_content` states, cell by cell, what
//! each primitive rule leaves behind, and `fill` is proved to produce it;
//! delegated slots are handed to the caller's sub-encoders, which can touch
//! nothing outside their own range.

use vstd::prelude::*;

use crate::encoders::Featurizer;
use crate::hash::bucket;
use crate::hash::spec_bucket;
use crate::plan::EncodeRule;
use crate::plan::LayoutPlan;
use crate::plan::Slot;
use crate::plan::lemma_slot_in_bounds;
use crate::plan::lemma_slots_disjoint;
use crate::plan::rule_wf;
use crate::plan::rule_width;
use crate::plan::width_sum;
use crate::schema::Cell;
use crate::schema::Record;
use crate::schema::Scalar;
use crate::schema::Value;

verus! {

/// The destination buffer's length does not match the plan's dimension.
#[derive(Clone, Copy, Debug, PartialEq, Eq, Structural)]
pub struct BufferSizeError;

/// A run of untouched cells.
pub open spec fn zeros(w: int) -> Seq<Cell> {
    Seq::new(w as nat, |j: int| Cell::Zero)
}

/// What an absent optional numeric or boolean value leaves in its one cell:
/// the declared default, or zero when none was declared.
pub open spec fn default_content(s: Slot) -> Seq<Cell> {
    match s.default_value {
        Some(d) => seq![Cell::Num(d)],
        None => seq![Cell::Zero],
    }
}

/// One-hot contents: one at the variant's index, zero everywhere else.
pub open spec fn one_hot_content(n: int, i: int) -> Seq<Cell> {
    Seq::new(n as nat, |j: int| if j == i {
        Cell::Num(Scalar::Int(1))
    } else {
        Cell::Zero
    })
}

/// Hashing one text: a count of one in the text's bucket, zero elsewhere.
pub open spec fn hash_one_content(t: Seq<char>, w: int) -> Seq<Cell> {
    Seq::new(w as nat, |j: int| if j == spec_bucket(t, w) {
        Cell::Count(1)
    } else {
        Cell::Zero
    })
}

/// One hashing-trick increment: counting never overwrites, it adds.
pub open spec fn inc_cell(c: Cell) -> Cell {
    match c {
        Cell::Zero => Cell::Count(1),
        Cell::Count(n) => Cell::Count(if n == u64::MAX {
            n
        } else {
            (n + 1) as u64
        }),
        Cell::Num(s) => Cell::Num(s),
    }
}

/// The count a cell holds.
pub open spec fn cell_count(c: Cell) -> int {
    match c {
        Cell::Zero => 0,
        Cell::Count(n) => n as int,
        Cell::Num(_) => 0,
    }
}

/// Hashing a whole collection: each element increments its own bucket.
pub open spec fn accumulate(ts: Seq<String>, w: int) -> Seq<Cell>
    decreases ts.len(),
{
    if ts.len() == 0 {
        zeros(w)
    } else {
        let prev = accumulate(ts.drop_last(), w);
        let b = spec_bucket(ts.last()@, w);
        prev.update(b, inc_cell(prev[b]))
    }
}

/// How many elements of `ts` fall into bucket `b`.
pub open spec fn bucket_multiplicity(ts: Seq<String>, w: int, b: int) -> int
    decreases ts.len(),
{
    if ts.len() == 0 {
        0
    } else {
        bucket_multiplicity(ts.drop_last(), w, b) + if spec_bucket(ts.last()@, w) == b {
            1int
        } else {
            0int
        }
    }
}

/// True when `v` is a value the slot's rule can encode: the right shape of
/// value when present, and absent only for an optional field.
pub open spec fn value_ok(v: Option<Value>, s: Slot) -> bool {
    match v {
        None => s.optional,
        Some(val) => match s.rule {
            EncodeRule::CopyNumeric => val is Number,
            EncodeRule::CopyBoolean => val is Boolean,
            EncodeRule::HashAccumulate(_) => val is Text,
            EncodeRule::HashAccumulateCollection(_) => val is Texts,
            EncodeRule::OneHot(n) => val matches Value::Variant(ix) && ix < n,
            EncodeRule::DelegateToEncoder(_, _) => true,
        },
    }
}

/// True when every slot of the plan can encode its field's value in `values`.
pub open spec fn record_conforms(values: Seq<Option<Value>>, p: LayoutPlan) -> bool {
    &&& values.len() == p.n_fields
    &&& forall|k: int|
        0 <= k < p.slots@.len() ==> value_ok(
            values[(#[trigger] p.slots@[k]).field as int],
            p.slots@[k],
        )
}

/// What one primitive slot's range holds after filling a zero-initialized
/// buffer. (A delegated slot's contents belong to its sub-encoder and are
/// not described here.)
pub open spec fn slot_content(s: Slot, v: Option<Value>) -> Seq<Cell> {
    match s.rule {
        EncodeRule::CopyNumeric => match v {
            Some(Value::Number(x)) => seq![Cell::Num(x)],
            None => default_content(s),
            _ => seq![Cell::Zero],
        },
        EncodeRule::CopyBoolean => match v {
            Some(Value::Boolean(b)) => if b {
                seq![Cell::Num(Scalar::Int(1))]
            } else {
                seq![Cell::Zero]
            },
            None => default_content(s),
            _ => seq![Cell::Zero],
        },
        EncodeRule::HashAccumulate(w) => match v {
            Some(Value::Text(t)) => hash_one_content(t@, w as int),
            _ => zeros(w as int),
        },
        EncodeRule::HashAccumulateCollection(w) => match v {
            Some(Value::Texts(ts)) => accumulate(ts@, w as int),
            _ => zeros(w as int),
        },
        EncodeRule::OneHot(n) => match v {
            Some(Value::Variant(ix)) => one_hot_content(n as int, ix as int),
            _ => zeros(n as int),
        },
        EncodeRule::DelegateToEncoder(_, w) => zeros(w as int),
    }
}

/// True when `buf` is a buffer the plan filled for `values`: it has exactly
/// the plan's dimension, and every primitive slot's range holds exactly that
/// slot's content for its field's value.
pub open spec fn filled(p: LayoutPlan, values: Seq<Option<Value>>, buf: Seq<Cell>) -> bool {
    &&& buf.len() == p.total_dim
    &&& forall|k: int|
        0 <= k < p.slots@.len() && !((#[trigger] p.slots@[k]).rule is DelegateToEncoder)
            ==> buf.subrange(
            p.slots@[k].offset as int,
            p.slots@[k].offset + p.slots@[k].width,
        ) == slot_content(p.slots@[k], values[p.slots@[k].field as int])
}

/// Accumulated cells are only ever zeros or counts, and no bucket counts
/// more than the collection holds elements.
proof fn lemma_accumulate_shape(ts: Seq<String>, w: int, j: int)
    requires
        w >= 1,
        0 <= j < w,
    ensures
        accumulate(ts, w).len() == w,
        accumulate(ts, w)[j] is Zero || accumulate(ts, w)[j] is Count,
        cell_count(accumulate(ts, w)[j]) <= ts.len(),
    decreases ts.len(),
{
    if ts.len() > 0 {
        lemma_accumulate_shape(ts.drop_last(), w, j);
        let b = spec_bucket(ts.last()@, w);
        if b != j {
            lemma_accumulate_shape(ts.drop_last(), w, b);
        }
    }
}

/// Each bucket of an accumulated collection holds exactly the number of
/// elements that hash into it.
proof fn lemma_accumulate_counts(ts: Seq<String>, w: int, b: int)
    requires
        w >= 1,
        0 <= b < w,
        ts.len() <= u64::MAX,
    ensures
        0 <= bucket_multiplicity(ts, w, b) <= ts.len(),
        bucket_multiplicity(ts, w, b) == 0 ==> accumulate(ts, w)[b] == Cell::Zero,
        bucket_multiplicity(ts, w, b) > 0 ==> accumulate(ts, w)[b] == Cell::Count(
            bucket_multiplicity(ts, w, b) as u64,
        ),
    decreases ts.len(),
{
    if ts.len() > 0 {
        lemma_accumulate_counts(ts.drop_last(), w, b);
        lemma_accumulate_shape(ts.drop_last(), w, b);
        let prev = accumulate(ts.drop_last(), w);
        let bl = spec_bucket(ts.last()@, w);
        if bl == b {
            assert(accumulate(ts, w)[b] == inc_cell(prev[b]));
        } else {
            assert(accumulate(ts, w)[b] == prev[b]);
        }
    }
}

/// A bucket's multiplicity is never negative.
proof fn lemma_multiplicity_nonneg(ts: Seq<String>, w: int, b: int)
    ensures
        bucket_multiplicity(ts, w, b) >= 0,
    decreases ts.len(),
{
    if ts.len() > 0 {
        lemma_multiplicity_nonneg(ts.drop_last(), w, b);
    }
}

/// An element's own bucket counts it at least once.
proof fn lemma_multiplicity_of_member(ts: Seq<String>, w: int, p: int)
    requires
        w >= 1,
        0 <= p < ts.len(),
    ensures
        bucket_multiplicity(ts, w, spec_bucket(ts[p]@, w)) >= 1,
    decreases ts.len(),
{
    if p < ts.len() - 1 {
        lemma_multiplicity_of_member(ts.drop_last(), w, p);
        assert(ts.drop_last()[p] == ts[p]);
    } else {
        lemma_multiplicity_nonneg(ts.drop_last(), w, spec_bucket(ts[p]@, w));
        assert(ts.last() == ts[p]);
    }
}

/// Hashing-trick accumulation is additive: a collection holding the same
/// token at two positions leaves a count of at least two in that token's
/// bucket — an increment, never an overwrite.
pub proof fn lemma_hash_accumulation_additive(ts: Seq<String>, w: int, a: int, b: int)
    requires
        w >= 1,
        0 <= a < b < ts.len(),
        ts.len() <= u64::MAX,
        ts[a]@ == ts[b]@,
    ensures
        0 <= spec_bucket(ts[a]@, w) < w,
        (accumulate(ts, w)[spec_bucket(ts[a]@, w)] matches Cell::Count(n) && n >= 2),
    decreases ts.len(),
{
    let bk = spec_bucket(ts[a]@, w);
    if b == ts.len() - 1 {
        lemma_multiplicity_of_member(ts.drop_last(), w, a);
        assert(ts.drop_last()[a] == ts[a]);
        assert(bucket_multiplicity(ts, w, bk) >= 2);
    } else {
        lemma_hash_accumulation_additive(ts.drop_last(), w, a, b);
        assert(ts.drop_last()[a] == ts[a]);
        assert(ts.drop_last()[b] == ts[b]);
        lemma_accumulate_counts(ts.drop_last(), w, bk);
        assert(bucket_multiplicity(ts, w, bk) >= bucket_multiplicity(ts.drop_last(), w, bk));
        assert(bucket_multiplicity(ts.drop_last(), w, bk) >= 2);
    }
    lemma_accumulate_counts(ts, w, bk);
}

/// An absent optional numeric or boolean field with a declared default `d`
/// leaves exactly `d` in its slot.
pub proof fn lemma_absent_writes_default(s: Slot, d: Scalar)
    requires
        s.rule == EncodeRule::CopyNumeric || s.rule == EncodeRule::CopyBoolean,
        s.default_value == Some(d),
    ensures
        slot_content(s, None) == seq![Cell::Num(d)],
{
}

/// An absent optional numeric or boolean field with no declared default
/// leaves its slot at zero.
pub proof fn lemma_absent_leaves_zero(s: Slot)
    requires
        s.rule == EncodeRule::CopyNumeric || s.rule == EncodeRule::CopyBoolean,
        s.default_value is None,
    ensures
        slot_content(s, None) == seq![Cell::Zero],
{
}

/// A one-hot slot holds exactly one one — at the variant's declaration-order
/// index — and zeros everywhere else.
pub proof fn lemma_one_hot_exactly_one(n: int, i: int)
    requires
        0 <= i < n,
    ensures
        one_hot_content(n, i).len() == n,
        one_hot_content(n, i)[i] == Cell::Num(Scalar::Int(1)),
        forall|j: int| 0 <= j < n && j != i ==> one_hot_content(n, i)[j] == Cell::Zero,
{
}

/// True when the slot's rule can encode the value `v` holds.
fn value_ok_exec(v: &Option<Value>, s: &Slot) -> (b: bool)
    ensures
        b == value_ok(*v, *s),
{
    match v {
        None => s.optional,
        Some(val) => match &s.rule {
            EncodeRule::CopyNumeric => matches!(val, Value::Number(_)),
            EncodeRule::CopyBoolean => matches!(val, Value::Boolean(_)),
            EncodeRule::HashAccumulate(_) => matches!(val, Value::Text(_)),
            EncodeRule::HashAccumulateCollection(_) => matches!(val, Value::Texts(_)),
            EncodeRule::OneHot(n) => match val {
                Value::Variant(ix) => *ix < *n,
                _ => false,
            },
            EncodeRule::DelegateToEncoder(_, _) => true,
        },
    }
}

/// True when the record fits the plan: one entry per schema field, each one
/// a value its slot's rule can encode. `fill` and `featurize` require this.
pub fn check_record(plan: &LayoutPlan, record: &Record) -> (b: bool)
    requires
        plan.wf(),
    ensures
        b == record_conforms(record.values@, *plan),
{
    if record.values.len() != plan.n_fields {
        return false;
    }
    let ns: usize = plan.slots.len();
    let mut k: usize = 0;
    while k < ns
        invariant
            k <= ns,
            ns == plan.slots@.len(),
            plan.wf(),
            record.values@.len() == plan.n_fields,
            forall|m: int|
                0 <= m < k ==> value_ok(
                    record.values@[(#[trigger] plan.slots@[m]).field as int],
                    plan.slots@[m],
                ),
        decreases ns - k,
    {
        let s = &plan.slots[k];
        if !value_ok_exec(&record.values[s.field], s) {
            return false;
        }
        k = k + 1;
    }
    true
}

/// Copies the cells `[off, off + w)` out of the buffer.
fn copy_range(buffer: &Vec<Cell>, off: usize, w: usize) -> (sub: Vec<Cell>)
    requires
        off + w <= buffer@.len(),
    ensures
        sub@ == buffer@.subrange(off as int, off + w),
{
    let blen: usize = buffer.len();
    let mut sub: Vec<Cell> = Vec::new();
    let mut j: usize = 0;
    while j < w
        invariant
            j <= w,
            off + w <= blen,
            blen == buffer@.len(),
            sub@.len() == j,
            forall|m: int| 0 <= m < j ==> sub@[m] == buffer@[off + m],
        decreases w - j,
    {
        sub.push(buffer[off + j]);
        j = j + 1;
    }
    proof {
        assert(sub@ =~= buffer@.subrange(off as int, off + w));
    }
    sub
}

/// Writes `sub` back over the cells `[off, off + sub.len())`.
fn paste_range(buffer: &mut Vec<Cell>, off: usize, sub: &Vec<Cell>)
    requires
        off + sub@.len() <= old(buffer)@.len(),
    ensures
        final(buffer)@.len() == old(buffer)@.len(),
        forall|j: int|
            0 <= j < old(buffer)@.len() && !(off <= j < off + sub@.len()) ==> final(buffer)@[j]
                == old(buffer)@[j],
        final(buffer)@.subrange(off as int, off + sub@.len()) == sub@,
{
    let w: usize = sub.len();
    let blen: usize = buffer.len();
    let mut j: usize = 0;
    while j < w
        invariant
            j <= w,
            w == sub@.len(),
            off + w <= blen,
            blen == old(buffer)@.len(),
            buffer@.len() == old(buffer)@.len(),
            forall|m: int| 0 <= m < j ==> buffer@[off + m] == sub@[m],
            forall|m: int|
                0 <= m < buffer@.len() && !(off <= m < off + j) ==> buffer@[m] == old(buffer)@[m],
        decreases w - j,
    {
        buffer[off + j] = sub[j];
        j = j + 1;
    }
    proof {
        assert(buffer@.subrange(off as int, off + sub@.len()) =~= sub@);
    }
}

/// Executes one slot's rule over exactly the slot's own range, which must
/// still hold its zero-initialized cells.
fn fill_slot<F: Featurizer>(slot: &Slot, v: &Option<Value>, buffer: &mut Vec<Cell>, subs: &F)
    requires
        slot.offset + slot.width <= old(buffer)@.len(),
        slot.width as int == rule_width(slot.rule),
        rule_wf(slot.rule),
        value_ok(*v, *slot),
        forall|j: int| slot.offset <= j < slot.offset + slot.width ==> old(buffer)@[j] == Cell::Zero,
    ensures
        final(buffer)@.len() == old(buffer)@.len(),
        forall|j: int|
            0 <= j < old(buffer)@.len() && !(slot.offset <= j < slot.offset + slot.width)
                ==> final(buffer)@[j] == old(buffer)@[j],
        !(slot.rule is DelegateToEncoder) ==> final(buffer)@.subrange(
            slot.offset as int,
            slot.offset + slot.width,
        ) == slot_content(*slot, *v),
{
    let blen: usize = buffer.len();
    proof {
        assert(slot.offset + slot.width <= blen);
    }
    match &slot.rule {
        EncodeRule::CopyNumeric => {
            match v {
                Some(Value::Number(x)) => {
                    buffer[slot.offset] = Cell::Num(*x);
                },
                None => {
                    match slot.default_value {
                        Some(d) => {
                            buffer[slot.offset] = Cell::Num(d);
                        },
                        None => {},
                    }
                },
                Some(_) => {
                    proof {
                        assert(false);
                    }
                },
            }
            proof {
                assert(buffer@.subrange(slot.offset as int, slot.offset + slot.width)
                    =~= slot_content(*slot, *v));
            }
        },
        EncodeRule::CopyBoolean => {
            match v {
                Some(Value::Boolean(bv)) => {
                    if *bv {
                        buffer[slot.offset] = Cell::Num(Scalar::Int(1));
                    }
                },
                None => {
                    match slot.default_value {
                        Some(d) => {
                            buffer[slot.offset] = Cell::Num(d);
                        },
                        None => {},
                    }
                },
                Some(_) => {
                    proof {
                        assert(false);
                    }
                },
            }
            proof {
                assert(buffer@.subrange(slot.offset as int, slot.offset + slot.width)
                    =~= slot_content(*slot, *v));
            }
        },
        EncodeRule::HashAccumulate(w0) => {
            let w: usize = *w0;
            match v {
                Some(Value::Text(t)) => {
                    let b: usize = bucket(t.as_str(), w);
                    buffer[slot.offset + b] = Cell::Count(1);
                },
                None => {},
                Some(_) => {
                    proof {
                        assert(false);
                    }
                },
            }
            proof {
                assert(buffer@.subrange(slot.offset as int, slot.offset + slot.width)
                    =~= slot_content(*slot, *v));
            }
        },
        EncodeRule::HashAccumulateCollection(w0) => {
            let w: usize = *w0;
            match v {
                Some(Value::Texts(ts)) => {
                    let m: usize = ts.len();
                    let mut q: usize = 0;
                    while q < m
                        invariant
                            q <= m,
                            m == ts@.len(),
                            w >= 1,
                            slot.offset + w <= blen,
                            blen == old(buffer)@.len(),
                            buffer@.len() == old(buffer)@.len(),
                            buffer@.subrange(slot.offset as int, slot.offset + w) == accumulate(
                                ts@.take(q as int),
                                w as int,
                            ),
                            forall|j: int|
                                0 <= j < buffer@.len() && !(slot.offset <= j < slot.offset + w)
                                    ==> buffer@[j] == old(buffer)@[j],
                        decreases m - q,
                    {
                        let t = &ts[q];
                        let b: usize = bucket(t.as_str(), w);
                        let idx: usize = slot.offset + b;
                        proof {
                            lemma_accumulate_shape(ts@.take(q as int), w as int, b as int);
                        }
                        let cur: Cell = buffer[idx];
                        let nc: Cell = match cur {
                            Cell::Zero => Cell::Count(1),
                            Cell::Count(c) => Cell::Count(c + 1),
                            Cell::Num(_) => {
                                proof {
                                    assert(false);
                                }
                                Cell::Zero
                            },
                        };
                        buffer[idx] = nc;
                        proof {
                            assert(ts@.take(q + 1).drop_last() =~= ts@.take(q as int));
                            assert(ts@.take(q + 1).last() == ts@[q as int]);
                            assert(buffer@.subrange(slot.offset as int, slot.offset + w)
                                =~= accumulate(ts@.take(q + 1), w as int));
                        }
                        q = q + 1;
                    }
                    proof {
                        assert(ts@.take(m as int) =~= ts@);
                    }
                },
                None => {},
                Some(_) => {
                    proof {
                        assert(false);
                    }
                },
            }
            proof {
                assert(buffer@.subrange(slot.offset as int, slot.offset + slot.width)
                    =~= slot_content(*slot, *v));
            }
        },
        EncodeRule::OneHot(n) => {
            match v {
                Some(Value::Variant(ix)) => {
                    buffer[slot.offset + *ix] = Cell::Num(Scalar::Int(1));
                },
                None => {},
                Some(_) => {
                    proof {
                        assert(false);
                    }
                },
            }
            proof {
                assert(buffer@.subrange(slot.offset as int, slot.offset + slot.width)
                    =~= slot_content(*slot, *v));
            }
        },
        EncodeRule::DelegateToEncoder(nm, _) => {
            let mut sub: Vec<Cell> = copy_range(buffer, slot.offset, slot.width);
            match v {
                Some(val) => {
                    subs.fill_slice(nm.as_str(), val, &mut sub);
                },
                None => {
                    subs.default(nm.as_str(), &mut sub);
                },
            }
            paste_range(buffer, slot.offset, &sub);
        },
    }
}

/// Fills a zero-initialized buffer of exactly the plan's dimension from one
/// record: every slot's rule runs over its own range and nothing else. A
/// buffer of any other length is rejected before any cell is written.
pub fn fill<F: Featurizer>(
    plan: &LayoutPlan,
    record: &Record,
    buffer: &mut Vec<Cell>,
    subs: &F,
) -> (r: Result<(), BufferSizeError>)
    requires
        plan.wf(),
        record_conforms(record.values@, *plan),
        forall|j: int| 0 <= j < old(buffer)@.len() ==> old(buffer)@[j] == Cell::Zero,
    ensures
        final(buffer)@.len() == old(buffer)@.len(),
        r is Ok <==> old(buffer)@.len() == plan.total_dim,
        r is Err ==> final(buffer)@ == old(buffer)@,
        r is Ok ==> filled(*plan, record.values@, final(buffer)@),
{
    if buffer.len() != plan.total_dim {
        return Err(BufferSizeError);
    }
    let ns: usize = plan.slots.len();
    let mut k: usize = 0;
    while k < ns
        invariant
            k <= ns,
            ns == plan.slots@.len(),
            plan.wf(),
            record_conforms(record.values@, *plan),
            buffer@.len() == plan.total_dim,
            old(buffer)@.len() == plan.total_dim,
            forall|m: int|
                0 <= m < k && !((#[trigger] plan.slots@[m]).rule is DelegateToEncoder)
                    ==> buffer@.subrange(
                    plan.slots@[m].offset as int,
                    plan.slots@[m].offset + plan.slots@[m].width,
                ) == slot_content(plan.slots@[m], record.values@[plan.slots@[m].field as int]),
            forall|j: int|
                width_sum(plan.slots@, k as int) <= j < buffer@.len() ==> buffer@[j] == Cell::Zero,
        decreases ns - k,
    {
        let s = &plan.slots[k];
        proof {
            lemma_slot_in_bounds(*plan, k as int);
        }
        let ghost pre = buffer@;
        fill_slot(s, &record.values[s.field], buffer, subs);
        proof {
            assert forall|m: int|
                0 <= m < k + 1 && !((#[trigger] plan.slots@[m]).rule is DelegateToEncoder)
                    implies buffer@.subrange(
                plan.slots@[m].offset as int,
                plan.slots@[m].offset + plan.slots@[m].width,
            ) == slot_content(plan.slots@[m], record.values@[plan.slots@[m].field as int]) by {
                if m < k {
                    lemma_slots_disjoint(*plan, m, k as int);
                    assert(buffer@.subrange(
                        plan.slots@[m].offset as int,
                        plan.slots@[m].offset + plan.slots@[m].width,
                    ) =~= pre.subrange(
                        plan.slots@[m].offset as int,
                        plan.slots@[m].offset + plan.slots@[m].width,
                    ));
                }
            }
        }
        k = k + 1;
    }
    Ok(())
}

/// Allocates a zero buffer of exactly the plan's dimension, fills it from
/// the record, and returns it.
pub fn featurize<F: Featurizer>(plan: &LayoutPlan, record: &Record, subs: &F) -> (r: Vec<Cell>)
    requires
        plan.wf(),
        record_conforms(record.values@, *plan),
    ensures
        filled(*plan, record.values@, r@),
{
    let mut buffer: Vec<Cell> = Vec::new();
    let mut q: usize = 0;
    while q < plan.total_dim
        invariant
            q <= plan.total_dim,
            buffer@.len() == q,
            forall|j: int| 0 <= j < q ==> buffer@[j] == Cell::Zero,
        decreases plan.total_dim - q,
    {
        buffer.push(Cell::Zero);
        q = q + 1;
    }
    match fill(plan, record, &mut buffer, subs) {
        Ok(()) => buffer,
        Err(_) => {
            proof {
                assert(false);
            }
            buffer
        },
    }
}

/// Applies the plan's default policy to an already-filled buffer: each
/// delegated slot's range is handed to its sub-encoder's `default`; every
/// primitive slot's range — where absent values already wrote their defaults
/// or kept their zeros — is left exactly as it was.
pub fn fill_default<F: Featurizer>(
    plan: &LayoutPlan,
    buffer: &mut Vec<Cell>,
    subs: &F,
) -> (r: Result<(), BufferSizeError>)
    requires
        plan.wf(),
    ensures
        final(buffer)@.len() == old(buffer)@.len(),
        r is Ok <==> old(buffer)@.len() == plan.total_dim,
        r is Err ==> final(buffer)@ == old(buffer)@,
        r is Ok ==> forall|k: int|
            0 <= k < plan.slots@.len() && !((#[trigger] plan.slots@[k]).rule is DelegateToEncoder)
                ==> final(buffer)@.subrange(
                plan.slots@[k].offset as int,
                plan.slots@[k].offset + plan.slots@[k].width,
            ) == old(buffer)@.subrange(
                plan.slots@[k].offset as int,
                plan.slots@[k].offset + plan.slots@[k].width,
            ),
{
    if buffer.len() != plan.total_dim {
        return Err(BufferSizeError);
    }
    let ns: usize = plan.slots.len();
    let mut k: usize = 0;
    while k < ns
        invariant
            k <= ns,
            ns == plan.slots@.len(),
            plan.wf(),
            buffer@.len() == plan.total_dim,
            old(buffer)@.len() == plan.total_dim,
            forall|j: int|
                width_sum(plan.slots@, k as int) <= j < buffer@.len() ==> buffer@[j]
                    == old(buffer)@[j],
            forall|m: int|
                0 <= m < k && !((#[trigger] plan.slots@[m]).rule is DelegateToEncoder)
                    ==> buffer@.subrange(
                    plan.slots@[m].offset as int,
                    plan.slots@[m].offset + plan.slots@[m].width,
                ) == old(buffer)@.subrange(
                    plan.slots@[m].offset as int,
                    plan.slots@[m].offset + plan.slots@[m].width,
                ),
        decreases ns - k,
    {
        let s = &plan.slots[k];
        proof {
            lemma_slot_in_bounds(*plan, k as int);
        }
        let ghost pre = buffer@;
        match &s.rule {
            EncodeRule::DelegateToEncoder(nm, _) => {
                let mut sub: Vec<Cell> = copy_range(buffer, s.offset, s.width);
                subs.default(nm.as_str(), &mut sub);
                paste_range(buffer, s.offset, &sub);
            },
            _ => {},
        }
        proof {
            assert forall|m: int|
                0 <= m < k + 1 && !((#[trigger] plan.slots@[m]).rule is DelegateToEncoder)
                    implies buffer@.subrange(
                plan.slots@[m].offset as int,
                plan.slots@[m].offset + plan.slots@[m].width,
            ) == old(buffer)@.subrange(
                plan.slots@[m].offset as int,
                plan.slots@[m].offset + plan.slots@[m].width,
            ) by {
                if m < k {
                    lemma_slots_disjoint(*plan, m, k as int);
                    assert(buffer@.subrange(
                        plan.slots@[m].offset as int,
                        plan.slots@[m].offset + plan.slots@[m].width,
                    ) =~= pre.subrange(
                        plan.slots@[m].offset as int,
                        plan.slots@[m].offset + plan.slots@[m].width,
                    ));
                } else {
                    lemma_slot_in_bounds(*plan, m);
                    assert(buffer@.subrange(
                        plan.slots@[m].offset as int,
                        plan.slots@[m].offset + plan.slots@[m].width,
                    ) =~= old(buffer)@.subrange(
                        plan.slots@[m].offset as int,
                        plan.slots@[m].offset + plan.slots@[m].width,
                    ));
                }
            }
        }
        k = k + 1;
    }
    Ok(())
}

} // verus!
