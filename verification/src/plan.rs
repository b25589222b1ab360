//! The layout planner.
//!
//! `resolve_plan` compiles a schema into a [`LayoutPlan`]: a total dimension
//! and one [`Slot`] per active field, laid out contiguously in declaration
//! order. The plan is a pure function of the schema — `spec_scan` and
//! `slots_prefix` state that function, and every resolution is proved to
//! match it — so two resolutions of one schema always agree.

use vstd::prelude::*;

use crate::schema::FieldDecl;
use crate::schema::FieldKind;
use crate::schema::Scalar;
use crate::schema::Schema;
use crate::schema::SchemaError;

verus! {

/// The hashing width used for text fields that declare none.
pub const TEXT_WIDTH_FALLBACK: usize = 37;

/// True when `c` is an ASCII letter.
pub open spec fn is_alpha_char(c: char) -> bool {
    (65 <= c as u32 && c as u32 <= 90) || (97 <= c as u32 && c as u32 <= 122)
}

/// True when `c` is an ASCII digit.
pub open spec fn is_digit_char(c: char) -> bool {
    48 <= c as u32 && c as u32 <= 57
}

/// The numeric value of an ASCII digit.
pub open spec fn digit_value(c: char) -> int {
    c as u32 - 48
}

/// Where the run of ASCII letters starting at `i` ends.
pub open spec fn alpha_end(s: Seq<char>, i: int) -> int
    decreases s.len() - i
        when i <= s.len()
{
    if i < s.len() && is_alpha_char(s[i]) {
        alpha_end(s, i + 1)
    } else {
        i
    }
}

/// Where the run of ASCII digits starting at `i` ends.
pub open spec fn digit_end(s: Seq<char>, i: int) -> int
    decreases s.len() - i
        when i <= s.len()
{
    if i < s.len() && is_digit_char(s[i]) {
        digit_end(s, i + 1)
    } else {
        i
    }
}

/// The number spelled by the digits `s[a..j)`, most significant first.
pub open spec fn digits_val(s: Seq<char>, a: int, j: int) -> int
    decreases j - a,
{
    if j <= a {
        0
    } else {
        digits_val(s, a, j - 1) * 10 + digit_value(s[j - 1])
    }
}

/// The width a custom encoder's name declares: the value of the digit run
/// that follows the name's leading letters. `None` when that run is empty or
/// spells a number too large for a width.
pub open spec fn spec_encoder_width(s: Seq<char>) -> Option<int> {
    let a = alpha_end(s, 0);
    let d = digit_end(s, a);
    if d == a {
        None
    } else if digits_val(s, a, d) > u16::MAX as int {
        None
    } else {
        Some(digits_val(s, a, d))
    }
}

/// True when the character at `i` is an ASCII letter.
fn alpha_at(s: &str, i: usize) -> (b: bool)
    requires
        i < s@.len(),
    ensures
        b == is_alpha_char(s@[i as int]),
{
    let cu: u32 = s.get_char(i) as u32;
    (65 <= cu && cu <= 90) || (97 <= cu && cu <= 122)
}

/// True when the character at `i` is an ASCII digit.
fn digit_at(s: &str, i: usize) -> (b: bool)
    requires
        i < s@.len(),
    ensures
        b == is_digit_char(s@[i as int]),
{
    let cu: u32 = s.get_char(i) as u32;
    48 <= cu && cu <= 57
}

/// Reads the width a custom encoder's name declares.
pub fn encoder_width(name: &str) -> (r: Option<u16>)
    ensures
        match r {
            Some(w) => spec_encoder_width(name@) == Some(w as int),
            None => spec_encoder_width(name@) is None,
        },
{
    let n: usize = name.unicode_len();
    let mut i: usize = 0;
    while i < n && alpha_at(name, i)
        invariant
            i <= n,
            n == name@.len(),
            alpha_end(name@, 0) == alpha_end(name@, i as int),
        decreases n - i,
    {
        i = i + 1;
    }
    let a: usize = i;
    let mut j: usize = a;
    while j < n && digit_at(name, j)
        invariant
            a <= j <= n,
            n == name@.len(),
            digit_end(name@, a as int) == digit_end(name@, j as int),
            forall|m: int| a <= m < j ==> is_digit_char(name@[m]),
        decreases n - j,
    {
        j = j + 1;
    }
    if j == a {
        return None;
    }
    let mut v: u32 = 0;
    let mut over: bool = false;
    let mut k: usize = a;
    while k < j
        invariant
            a <= k <= j <= n,
            n == name@.len(),
            forall|m: int| a <= m < j ==> is_digit_char(name@[m]),
            !over ==> v as int == digits_val(name@, a as int, k as int) && v <= 65535,
            over ==> digits_val(name@, a as int, k as int) > 65535,
        decreases j - k,
    {
        let cu: u32 = name.get_char(k) as u32;
        let d: u32 = cu - 48;
        if !over {
            let nv: u32 = v * 10 + d;
            if nv > 65535 {
                over = true;
            } else {
                v = nv;
            }
        }
        k = k + 1;
    }
    if over {
        None
    } else {
        Some(v as u16)
    }
}

/// The resolved, executable behaviour of one field.
#[derive(Debug, PartialEq, Eq)]
pub enum EncodeRule {
    /// Width 1: write the numeric value at the slot's offset.
    CopyNumeric,
    /// Width 1: write one for true, leave zero for false.
    CopyBoolean,
    /// Hash one text into the given number of buckets and count it.
    HashAccumulate(usize),
    /// Hash every element of a collection into the given number of buckets.
    HashAccumulateCollection(usize),
    /// One-hot over the given number of variants.
    OneHot(usize),
    /// Hand the slot's range to the named sub-encoder of the given width.
    DelegateToEncoder(String, usize),
}

/// The width a rule occupies.
pub open spec fn rule_width(r: EncodeRule) -> int {
    match r {
        EncodeRule::CopyNumeric => 1,
        EncodeRule::CopyBoolean => 1,
        EncodeRule::HashAccumulate(w) => w as int,
        EncodeRule::HashAccumulateCollection(w) => w as int,
        EncodeRule::OneHot(n) => n as int,
        EncodeRule::DelegateToEncoder(_, w) => w as int,
    }
}

/// The side conditions a planned rule always satisfies.
pub open spec fn rule_wf(r: EncodeRule) -> bool {
    match r {
        EncodeRule::HashAccumulate(w) => w >= 1,
        EncodeRule::HashAccumulateCollection(w) => w >= 1,
        EncodeRule::OneHot(n) => n >= 1,
        _ => true,
    }
}

/// One field's reserved sub-range of the output buffer.
#[derive(Debug)]
pub struct Slot {
    /// The index of the field in the schema, and in every record.
    pub field: usize,
    /// The field's name.
    pub name: String,
    /// Where the slot's range begins.
    pub offset: usize,
    /// How many cells the slot spans.
    pub width: usize,
    /// How the field is encoded.
    pub rule: EncodeRule,
    /// Whether the field's value may be absent.
    pub optional: bool,
    /// What an absent numeric or boolean value writes, if declared.
    pub default_value: Option<Scalar>,
}

/// The sum of the widths of the first `k` slots.
pub open spec fn width_sum(slots: Seq<Slot>, k: int) -> int
    decreases k,
{
    if k <= 0 {
        0
    } else {
        width_sum(slots, k - 1) + slots[k - 1].width
    }
}

/// A compiled layout: the total dimension and the ordered slots.
#[derive(Debug)]
pub struct LayoutPlan {
    /// The exact length of every buffer this plan fills.
    pub total_dim: usize,
    /// How many fields the schema declared; records carry one entry each.
    pub n_fields: usize,
    /// The slots of the active fields, in declaration order.
    pub slots: Vec<Slot>,
}

impl LayoutPlan {
    /// Well-formedness: slots are contiguous from zero, their widths agree
    /// with their rules, and they total exactly `total_dim`.
    pub open spec fn wf(&self) -> bool {
        &&& forall|k: int|
            0 <= k < self.slots@.len() ==> (#[trigger] self.slots@[k]).offset as int == width_sum(
                self.slots@,
                k,
            )
        &&& self.total_dim as int == width_sum(self.slots@, self.slots@.len() as int)
        &&& forall|k: int|
            0 <= k < self.slots@.len() ==> (#[trigger] self.slots@[k]).width as int == rule_width(
                self.slots@[k].rule,
            )
        &&& forall|k: int| 0 <= k < self.slots@.len() ==> rule_wf((#[trigger] self.slots@[k]).rule)
        &&& forall|k: int|
            0 <= k < self.slots@.len() ==> (#[trigger] self.slots@[k]).field < self.n_fields
    }
}

/// The hashing width of a text field: declared, or the fallback.
pub open spec fn text_width(f: FieldDecl) -> int {
    match f.attrs.explicit_width {
        Some(w) => w as int,
        None => TEXT_WIDTH_FALLBACK as int,
    }
}

/// What planning one field yields: `Ok(None)` for a disabled field,
/// `Ok(Some(width))` for a slot of that width, or the schema error. A named
/// custom encoder takes priority over the kind; the kind dispatches to the
/// primitive encodings.
pub open spec fn field_outcome(f: FieldDecl, i: int) -> Result<Option<int>, SchemaError> {
    if f.attrs.disabled {
        Ok(None)
    } else {
        match f.attrs.custom_encoder {
            Some(nm) => match spec_encoder_width(nm@) {
                Some(w) => Ok(Some(w)),
                None => Err(SchemaError::MissingWidth(i as usize)),
            },
            None => match f.kind {
                FieldKind::Integer => Ok(Some(1)),
                FieldKind::Float => Ok(Some(1)),
                FieldKind::Boolean => Ok(Some(1)),
                FieldKind::Text => if text_width(f) == 0 {
                    Err(SchemaError::ZeroWidth(i as usize))
                } else {
                    Ok(Some(text_width(f)))
                },
                FieldKind::TextCollection => if text_width(f) == 0 {
                    Err(SchemaError::ZeroWidth(i as usize))
                } else {
                    Ok(Some(text_width(f)))
                },
                FieldKind::Categorical(n) => if n == 0 {
                    Err(SchemaError::EmptyCategorical(i as usize))
                } else {
                    Ok(Some(n as int))
                },
                FieldKind::Nested => Err(SchemaError::UnresolvableType(i as usize)),
            },
        }
    }
}

/// True when `r` is the rule that field `f` resolves to.
pub open spec fn matches_rule(r: EncodeRule, f: FieldDecl) -> bool {
    match f.attrs.custom_encoder {
        Some(nm) => r matches EncodeRule::DelegateToEncoder(n2, w) && n2@ == nm@
            && spec_encoder_width(nm@) == Some(w as int),
        None => match f.kind {
            FieldKind::Integer => r == EncodeRule::CopyNumeric,
            FieldKind::Float => r == EncodeRule::CopyNumeric,
            FieldKind::Boolean => r == EncodeRule::CopyBoolean,
            FieldKind::Text => r matches EncodeRule::HashAccumulate(w) && w as int == text_width(
                f,
            ),
            FieldKind::TextCollection => r matches EncodeRule::HashAccumulateCollection(w)
                && w as int == text_width(f),
            FieldKind::Categorical(n) => r == EncodeRule::OneHot(n),
            FieldKind::Nested => false,
        },
    }
}

/// True when slot `s` is the one field `f` (at schema index `i`, at buffer
/// offset `off`) compiles to.
pub open spec fn slot_matches(s: Slot, f: FieldDecl, i: int, off: int) -> bool {
    &&& s.field as int == i
    &&& s.name@ == f.name@
    &&& s.offset as int == off
    &&& field_outcome(f, i) == Ok::<Option<int>, SchemaError>(Some(s.width as int))
    &&& s.width as int == rule_width(s.rule)
    &&& matches_rule(s.rule, f)
    &&& s.optional == f.optional
    &&& s.default_value == f.attrs.default_value
}

/// True when `slots[0..k)` is exactly what compiling `fields[0..i)` yields,
/// ending at offset `off`.
pub open spec fn slots_prefix(
    fields: Seq<FieldDecl>,
    slots: Seq<Slot>,
    i: int,
    k: int,
    off: int,
) -> bool
    decreases i,
{
    if i <= 0 {
        k == 0 && off == 0
    } else if fields[i - 1].attrs.disabled {
        slots_prefix(fields, slots, i - 1, k, off)
    } else {
        &&& k >= 1
        &&& slot_matches(slots[k - 1], fields[i - 1], i - 1, off - slots[k - 1].width)
        &&& slots_prefix(fields, slots, i - 1, k - 1, off - slots[k - 1].width)
    }
}

/// The total width of `fields[i..)` added to `off`, or the first error the
/// scan meets: the planner's outcome as a pure function of the schema.
pub open spec fn spec_scan(fields: Seq<FieldDecl>, i: int, off: int) -> Result<int, SchemaError>
    decreases fields.len() - i
        when i <= fields.len()
{
    if i >= fields.len() {
        Ok(off)
    } else {
        match field_outcome(fields[i], i) {
            Err(e) => Err(e),
            Ok(None) => spec_scan(fields, i + 1, off),
            Ok(Some(w)) => if off + w > usize::MAX as int {
                Err(SchemaError::DimensionOverflow(i as usize))
            } else {
                spec_scan(fields, i + 1, off + w)
            },
        }
    }
}

/// True when `p` is the plan that `fields` compiles to.
pub open spec fn plan_matches(fields: Seq<FieldDecl>, p: LayoutPlan) -> bool {
    &&& p.n_fields == fields.len()
    &&& spec_scan(fields, 0, 0) == Ok::<int, SchemaError>(p.total_dim as int)
    &&& slots_prefix(fields, p.slots@, fields.len() as int, p.slots@.len() as int, p.total_dim as int)
}

/// Plans one field: `Ok(None)` for a disabled field, else its width and rule.
fn field_plan(f: &FieldDecl, i: usize) -> (r: Result<Option<(usize, EncodeRule)>, SchemaError>)
    ensures
        match r {
            Ok(None) => field_outcome(*f, i as int) == Ok::<Option<int>, SchemaError>(None),
            Ok(Some((w, rule))) => {
                &&& field_outcome(*f, i as int) == Ok::<Option<int>, SchemaError>(Some(w as int))
                &&& matches_rule(rule, *f)
                &&& rule_width(rule) == w as int
                &&& rule_wf(rule)
            },
            Err(e) => field_outcome(*f, i as int) == Err::<Option<int>, SchemaError>(e),
        },
{
    if f.attrs.disabled {
        return Ok(None);
    }
    match &f.attrs.custom_encoder {
        Some(nm) => match encoder_width(nm.as_str()) {
            Some(w16) => {
                let w: usize = w16 as usize;
                Ok(Some((w, EncodeRule::DelegateToEncoder(nm.clone(), w))))
            },
            None => Err(SchemaError::MissingWidth(i)),
        },
        None => match f.kind {
            FieldKind::Integer => Ok(Some((1, EncodeRule::CopyNumeric))),
            FieldKind::Float => Ok(Some((1, EncodeRule::CopyNumeric))),
            FieldKind::Boolean => Ok(Some((1, EncodeRule::CopyBoolean))),
            FieldKind::Text => {
                let w: usize = match f.attrs.explicit_width {
                    Some(w0) => w0,
                    None => TEXT_WIDTH_FALLBACK,
                };
                if w == 0 {
                    Err(SchemaError::ZeroWidth(i))
                } else {
                    Ok(Some((w, EncodeRule::HashAccumulate(w))))
                }
            },
            FieldKind::TextCollection => {
                let w: usize = match f.attrs.explicit_width {
                    Some(w0) => w0,
                    None => TEXT_WIDTH_FALLBACK,
                };
                if w == 0 {
                    Err(SchemaError::ZeroWidth(i))
                } else {
                    Ok(Some((w, EncodeRule::HashAccumulateCollection(w))))
                }
            },
            FieldKind::Categorical(n) => {
                if n == 0 {
                    Err(SchemaError::EmptyCategorical(i))
                } else {
                    Ok(Some((n, EncodeRule::OneHot(n))))
                }
            },
            FieldKind::Nested => Err(SchemaError::UnresolvableType(i)),
        },
    }
}

/// `width_sum` only reads the first `k` slots.
proof fn lemma_width_sum_agree(s1: Seq<Slot>, s2: Seq<Slot>, k: int)
    requires
        0 <= k <= s1.len(),
        k <= s2.len(),
        forall|m: int| 0 <= m < k ==> s1[m] == s2[m],
    ensures
        width_sum(s1, k) == width_sum(s2, k),
    decreases k,
{
    if k > 0 {
        lemma_width_sum_agree(s1, s2, k - 1);
    }
}

/// `slots_prefix` only reads the first `k` slots.
proof fn lemma_slots_prefix_stable(
    fields: Seq<FieldDecl>,
    s1: Seq<Slot>,
    s2: Seq<Slot>,
    i: int,
    k: int,
    off: int,
)
    requires
        slots_prefix(fields, s1, i, k, off),
        0 <= k <= s1.len(),
        k <= s2.len(),
        forall|m: int| 0 <= m < k ==> s1[m] == s2[m],
    ensures
        slots_prefix(fields, s2, i, k, off),
    decreases i,
{
    if i > 0 {
        if fields[i - 1].attrs.disabled {
            lemma_slots_prefix_stable(fields, s1, s2, i - 1, k, off);
        } else {
            lemma_slots_prefix_stable(fields, s1, s2, i - 1, k - 1, off - s1[k - 1].width);
        }
    }
}

/// Compiles a schema into its layout plan, or reports the first reason the
/// schema cannot be planned. The result is pinned to `spec_scan` and
/// `slots_prefix`, so it is a pure function of the schema: success, the total
/// dimension, every slot's place and rule, and the error returned are all
/// decided by the schema alone.
pub fn resolve_plan(schema: &Schema) -> (r: Result<LayoutPlan, SchemaError>)
    ensures
        match r {
            Ok(p) => {
                &&& plan_matches(schema.fields@, p)
                &&& p.wf()
            },
            Err(e) => spec_scan(schema.fields@, 0, 0) == Err::<int, SchemaError>(e),
        },
        r is Ok <==> spec_scan(schema.fields@, 0, 0) is Ok,
{
    let n: usize = schema.fields.len();
    let mut slots: Vec<Slot> = Vec::new();
    let mut off: usize = 0;
    let mut i: usize = 0;
    while i < n
        invariant
            i <= n,
            n == schema.fields@.len(),
            spec_scan(schema.fields@, 0, 0) == spec_scan(schema.fields@, i as int, off as int),
            slots_prefix(schema.fields@, slots@, i as int, slots@.len() as int, off as int),
            off as int == width_sum(slots@, slots@.len() as int),
            forall|k: int|
                0 <= k < slots@.len() ==> (#[trigger] slots@[k]).offset as int == width_sum(
                    slots@,
                    k,
                ),
            forall|k: int|
                0 <= k < slots@.len() ==> (#[trigger] slots@[k]).width as int == rule_width(
                    slots@[k].rule,
                ),
            forall|k: int| 0 <= k < slots@.len() ==> rule_wf((#[trigger] slots@[k]).rule),
            forall|k: int| 0 <= k < slots@.len() ==> (#[trigger] slots@[k]).field < n,
        decreases n - i,
    {
        let f = &schema.fields[i];
        match field_plan(f, i) {
            Ok(None) => {},
            Ok(Some((w, rule))) => {
                if off > usize::MAX - w {
                    return Err(SchemaError::DimensionOverflow(i));
                }
                let slot = Slot {
                    field: i,
                    name: f.name.clone(),
                    offset: off,
                    width: w,
                    rule,
                    optional: f.optional,
                    default_value: f.attrs.default_value,
                };
                proof {
                    let old_slots = slots@;
                    let new_slots = slots@.push(slot);
                    assert forall|k: int| 0 <= k <= old_slots.len() implies width_sum(
                        new_slots,
                        k,
                    ) == width_sum(old_slots, k) by {
                        lemma_width_sum_agree(old_slots, new_slots, k);
                    }
                    lemma_slots_prefix_stable(
                        schema.fields@,
                        old_slots,
                        new_slots,
                        i as int,
                        old_slots.len() as int,
                        off as int,
                    );
                }
                slots.push(slot);
                off = off + w;
            },
            Err(e) => {
                return Err(e);
            },
        }
        i = i + 1;
    }
    Ok(LayoutPlan { total_dim: off, n_fields: n, slots })
}

/// The exact buffer length the plan fills.
pub fn dimension(plan: &LayoutPlan) -> (d: usize)
    ensures
        d == plan.total_dim,
{
    plan.total_dim
}

/// The widths of the first `a` slots never total more than those of the
/// first `b`.
pub proof fn lemma_width_sum_mono(slots: Seq<Slot>, a: int, b: int)
    requires
        0 <= a <= b,
    ensures
        width_sum(slots, a) <= width_sum(slots, b),
    decreases b,
{
    if b > a {
        lemma_width_sum_mono(slots, a, b - 1);
    }
}

/// The slot widths of a well-formed plan total exactly its dimension: a
/// buffer of `total_dim` cells is always exactly sufficient.
pub proof fn lemma_total_dim_is_width_sum(p: LayoutPlan)
    requires
        p.wf(),
    ensures
        p.total_dim as int == width_sum(p.slots@, p.slots@.len() as int),
{
}

/// Every slot of a well-formed plan lies inside `[0, total_dim)`: no rule
/// ever touches a cell outside the buffer.
pub proof fn lemma_slot_in_bounds(p: LayoutPlan, k: int)
    requires
        p.wf(),
        0 <= k < p.slots@.len(),
    ensures
        p.slots@[k].offset as int + p.slots@[k].width as int <= p.total_dim as int,
{
    lemma_width_sum_mono(p.slots@, k + 1, p.slots@.len() as int);
}

/// Distinct slots of a well-formed plan never overlap: the earlier one ends
/// at or before the later one begins.
pub proof fn lemma_slots_disjoint(p: LayoutPlan, k1: int, k2: int)
    requires
        p.wf(),
        0 <= k1 < k2 < p.slots@.len(),
    ensures
        p.slots@[k1].offset as int + p.slots@[k1].width as int <= p.slots@[k2].offset as int,
{
    lemma_width_sum_mono(p.slots@, k1 + 1, k2);
}

/// Every planned slot belongs to an earlier, enabled field.
proof fn lemma_prefix_fields(fields: Seq<FieldDecl>, slots: Seq<Slot>, i: int, k: int, off: int)
    requires
        slots_prefix(fields, slots, i, k, off),
        0 <= k,
    ensures
        forall|m: int|
            0 <= m < k ==> (#[trigger] slots[m]).field < i && !fields[slots[m].field as int].attrs.disabled,
    decreases i,
{
    if i > 0 {
        if fields[i - 1].attrs.disabled {
            lemma_prefix_fields(fields, slots, i - 1, k, off);
        } else {
            lemma_prefix_fields(fields, slots, i - 1, k - 1, off - slots[k - 1].width);
        }
    }
}

/// A disabled field contributes no width and appears in no slot: nothing in
/// the plan refers to it.
pub proof fn lemma_disabled_field_has_no_slot(fields: Seq<FieldDecl>, p: LayoutPlan, d: int)
    requires
        plan_matches(fields, p),
        0 <= d < fields.len(),
        fields[d].attrs.disabled,
    ensures
        forall|m: int| 0 <= m < p.slots@.len() ==> (#[trigger] p.slots@[m]).field != d,
{
    lemma_prefix_fields(
        fields,
        p.slots@,
        fields.len() as int,
        p.slots@.len() as int,
        p.total_dim as int,
    );
}

/// Two slot sequences matching the same fields agree slot by slot.
proof fn lemma_prefix_functional(
    fields: Seq<FieldDecl>,
    s1: Seq<Slot>,
    s2: Seq<Slot>,
    i: int,
    k1: int,
    k2: int,
    off1: int,
    off2: int,
)
    requires
        slots_prefix(fields, s1, i, k1, off1),
        slots_prefix(fields, s2, i, k2, off2),
        0 <= k1,
        0 <= k2,
    ensures
        k1 == k2,
        off1 == off2,
        forall|m: int|
            0 <= m < k1 ==> {
                &&& (#[trigger] s1[m]).offset == s2[m].offset
                &&& s1[m].width == s2[m].width
                &&& s1[m].field == s2[m].field
            },
    decreases i,
{
    if i > 0 {
        if fields[i - 1].attrs.disabled {
            lemma_prefix_functional(fields, s1, s2, i - 1, k1, k2, off1, off2);
        } else {
            let w1 = s1[k1 - 1].width;
            let w2 = s2[k2 - 1].width;
            assert(field_outcome(fields[i - 1], i - 1) == Ok::<Option<int>, SchemaError>(
                Some(w1 as int),
            ));
            assert(field_outcome(fields[i - 1], i - 1) == Ok::<Option<int>, SchemaError>(
                Some(w2 as int),
            ));
            lemma_prefix_functional(
                fields,
                s1,
                s2,
                i - 1,
                k1 - 1,
                k2 - 1,
                off1 - w1,
                off2 - w2,
            );
        }
    }
}

/// Layout determinism: any two plans compiled from the same schema have the
/// same dimension and identical slot offsets, widths and field indices.
pub proof fn lemma_layout_deterministic(fields: Seq<FieldDecl>, p1: LayoutPlan, p2: LayoutPlan)
    requires
        plan_matches(fields, p1),
        plan_matches(fields, p2),
    ensures
        p1.total_dim == p2.total_dim,
        p1.slots@.len() == p2.slots@.len(),
        forall|m: int|
            0 <= m < p1.slots@.len() ==> {
                &&& (#[trigger] p1.slots@[m]).offset == p2.slots@[m].offset
                &&& p1.slots@[m].width == p2.slots@[m].width
                &&& p1.slots@[m].field == p2.slots@[m].field
            },
{
    lemma_prefix_functional(
        fields,
        p1.slots@,
        p2.slots@,
        fields.len() as int,
        p1.slots@.len() as int,
        p2.slots@.len() as int,
        p1.total_dim as int,
        p2.total_dim as int,
    );
}

} // verus!
