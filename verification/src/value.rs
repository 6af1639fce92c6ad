//! The order-preserving value tree a document is read into.
//!
//! Mapping keys are always strings and a mapping is a `Vec` of pairs, so the
//! document's member order survives reading.

use crate::text::{digits_value, law_decimal_reads_back, law_signed_decimal_sign, signed_decimal, signed_decimal_text};
use vstd::prelude::*;

verus! {

/// A floating-point scalar, held as its IEEE-754 binary64 bit pattern together
/// with its decimal rendering (as `Display` writes the float).
#[derive(Debug, Clone)]
pub struct FloatNum {
    pub bits: u64,
    pub text: String,
}

/// The bit pattern is a NaN: exponent all ones, fraction not zero.
pub open spec fn is_nan_bits(bits: u64) -> bool {
    (bits & 0x7ff0_0000_0000_0000u64) == 0x7ff0_0000_0000_0000u64 && (bits
        & 0x000f_ffff_ffff_ffffu64) != 0
}

/// The bit pattern is positive or negative zero.
pub open spec fn is_zero_bits(bits: u64) -> bool {
    (bits & 0x7fff_ffff_ffff_ffffu64) == 0
}

/// IEEE-754 equality on bit patterns: NaN equals nothing, the two zeros are
/// equal, and otherwise equal numbers have equal bits.
pub open spec fn float_bits_eq(a: u64, b: u64) -> bool {
    !is_nan_bits(a) && !is_nan_bits(b) && (a == b || (is_zero_bits(a) && is_zero_bits(b)))
}

impl PartialEq for FloatNum {
    fn eq(&self, other: &FloatNum) -> (r: bool) {
        let a = self.bits;
        let b = other.bits;
        let a_nan = (a & 0x7ff0_0000_0000_0000u64) == 0x7ff0_0000_0000_0000u64 && (a
            & 0x000f_ffff_ffff_ffffu64) != 0;
        let b_nan = (b & 0x7ff0_0000_0000_0000u64) == 0x7ff0_0000_0000_0000u64 && (b
            & 0x000f_ffff_ffff_ffffu64) != 0;
        !a_nan && !b_nan && (a == b || ((a & 0x7fff_ffff_ffff_ffffu64) == 0 && (b
            & 0x7fff_ffff_ffff_ffffu64) == 0))
    }
}

impl vstd::std_specs::cmp::PartialEqSpecImpl for FloatNum {
    open spec fn obeys_eq_spec() -> bool {
        true
    }

    open spec fn eq_spec(&self, other: &FloatNum) -> bool {
        float_bits_eq(self.bits, other.bits)
    }
}

/// A value read from a document.
#[derive(Debug, PartialEq)]
pub enum Value {
    Null,
    Bool(bool),
    Int(i64),
    Float(FloatNum),
    Str(String),
    Sequence(Vec<Value>),
    Mapping(Mapping),
}

/// A mapping: its entries in document order, keyed by strings.
#[derive(Debug, PartialEq)]
pub struct Mapping(pub Vec<(String, Value)>);

impl View for Mapping {
    type V = Seq<(String, Value)>;

    open spec fn view(&self) -> Seq<(String, Value)> {
        self.0@
    }
}

/// Some entry has key `k`.
pub open spec fn has_key(entries: Seq<(String, Value)>, k: Seq<char>) -> bool {
    exists|i: int| 0 <= i < entries.len() && #[trigger] entries[i].0@ == k
}

/// `i` is the position of the first entry whose key is `k`.
pub open spec fn is_first_key(entries: Seq<(String, Value)>, k: Seq<char>, i: int) -> bool {
    &&& 0 <= i < entries.len()
    &&& entries[i].0@ == k
    &&& forall|j: int| 0 <= j < i ==> #[trigger] entries[j].0@ != k
}

/// The position of the first entry whose key is `k` (meaningful when there is one).
pub open spec fn first_key_index(entries: Seq<(String, Value)>, k: Seq<char>) -> int {
    choose|i: int| is_first_key(entries, k, i)
}

/// The value of the first entry whose key is `k`, if any.
pub open spec fn lookup(entries: Seq<(String, Value)>, k: Seq<char>) -> Option<Value> {
    if has_key(entries, k) {
        Some(entries[first_key_index(entries, k)].1)
    } else {
        None
    }
}

/// The entries after an insert: the first entry with key `k` takes value `v`
/// and keeps its place, or `(k, v)` is appended when no entry has key `k`.
pub open spec fn inserted(entries: Seq<(String, Value)>, k: String, v: Value) -> Seq<
    (String, Value),
> {
    if has_key(entries, k@) {
        let i = first_key_index(entries, k@);
        entries.update(i, (entries[i].0, v))
    } else {
        entries.push((k, v))
    }
}

/// When some entry has key `k`, a first one exists.
pub proof fn lemma_first_key_exists(entries: Seq<(String, Value)>, k: Seq<char>)
    requires
        has_key(entries, k),
    ensures
        is_first_key(entries, k, first_key_index(entries, k)),
    decreases entries.len(),
{
    if entries.last().0@ == k && !has_key(entries.drop_last(), k) {
        let n = entries.len() - 1;
        assert forall|j: int| 0 <= j < n implies #[trigger] entries[j].0@ != k by {
            assert(entries.drop_last()[j] == entries[j]);
        }
        assert(is_first_key(entries, k, n));
    } else {
        let i = choose|i: int| 0 <= i < entries.len() && #[trigger] entries[i].0@ == k;
        if i == entries.len() - 1 {
            assert(has_key(entries.drop_last(), k));
        } else {
            assert(entries.drop_last()[i] == entries[i]);
        }
        lemma_first_key_exists(entries.drop_last(), k);
        let f = first_key_index(entries.drop_last(), k);
        assert(entries.drop_last()[f] == entries[f]);
        assert forall|j: int| 0 <= j < f implies #[trigger] entries[j].0@ != k by {
            assert(entries.drop_last()[j] == entries[j]);
        }
        assert(is_first_key(entries, k, f));
    }
}

/// There is only one first position.
pub proof fn lemma_first_key_unique(entries: Seq<(String, Value)>, k: Seq<char>, i: int)
    requires
        is_first_key(entries, k, i),
    ensures
        first_key_index(entries, k) == i,
{
    lemma_first_key_exists(entries, k);
    let f = first_key_index(entries, k);
    if f < i {
        assert(entries[f].0@ != k);
    } else if i < f {
        assert(entries[i].0@ != k);
    }
}

/// Reading a key back after inserting it gives the inserted value.
pub proof fn law_insert_then_lookup(entries: Seq<(String, Value)>, k: String, v: Value)
    ensures
        lookup(inserted(entries, k, v), k@) == Some(v),
{
    let s2 = inserted(entries, k, v);
    if has_key(entries, k@) {
        lemma_first_key_exists(entries, k@);
        let i = first_key_index(entries, k@);
        assert(is_first_key(s2, k@, i));
        lemma_first_key_unique(s2, k@, i);
    } else {
        let n = entries.len() as int;
        assert(s2[n].0@ == k@);
        assert forall|j: int| 0 <= j < n implies #[trigger] s2[j].0@ != k@ by {
            assert(s2[j] == entries[j]);
        }
        assert(is_first_key(s2, k@, n));
        lemma_first_key_unique(s2, k@, n);
    }
}

/// Inserting under one key leaves what every other key reads unchanged.
pub proof fn law_insert_keeps_other_keys(
    entries: Seq<(String, Value)>,
    k: String,
    v: Value,
    other: Seq<char>,
)
    requires
        other != k@,
    ensures
        lookup(inserted(entries, k, v), other) == lookup(entries, other),
{
    let s2 = inserted(entries, k, v);
    if has_key(entries, k@) {
        lemma_first_key_exists(entries, k@);
    }
    assert forall|j: int| 0 <= j < entries.len() implies #[trigger] s2[j].0@ == entries[j].0@ by {}
    if has_key(entries, other) {
        lemma_first_key_exists(entries, other);
        let f = first_key_index(entries, other);
        assert(s2[f].0@ == other);
        assert forall|j: int| 0 <= j < f implies #[trigger] s2[j].0@ != other by {
            assert(entries[j].0@ != other);
        }
        assert(is_first_key(s2, other, f));
        lemma_first_key_unique(s2, other, f);
    } else {
        assert forall|j: int| 0 <= j < s2.len() implies #[trigger] s2[j].0@ != other by {
            if j < entries.len() {
                assert(entries[j].0@ != other);
            }
        }
    }
}

/// An entry appended under a key that is already present does not change
/// what that key reads: the earliest entry with a key wins. Appended under a
/// new key, it is what the key reads.
pub proof fn law_lookup_prefers_earliest(entries: Seq<(String, Value)>, k: String, v: Value)
    ensures
        has_key(entries, k@) ==> lookup(entries.push((k, v)), k@) == lookup(entries, k@),
        !has_key(entries, k@) ==> lookup(entries.push((k, v)), k@) == Some(v),
        lookup(Seq::<(String, Value)>::empty(), k@) is None,
{
    let s2 = entries.push((k, v));
    if has_key(entries, k@) {
        lemma_first_key_exists(entries, k@);
        let f = first_key_index(entries, k@);
        assert(s2[f] == entries[f]);
        assert forall|j: int| 0 <= j < f implies #[trigger] s2[j].0@ != k@ by {
            assert(s2[j] == entries[j]);
        }
        assert(is_first_key(s2, k@, f));
        lemma_first_key_unique(s2, k@, f);
    } else {
        let n = entries.len() as int;
        assert(s2[n].0@ == k@);
        assert forall|j: int| 0 <= j < n implies #[trigger] s2[j].0@ != k@ by {
            assert(s2[j] == entries[j]);
        }
        assert(is_first_key(s2, k@, n));
        lemma_first_key_unique(s2, k@, n);
    }
}

/// Inserting a key that is already there keeps the length and every key in
/// place; inserting a new key appends it at the end.
pub proof fn law_insert_keeps_order(entries: Seq<(String, Value)>, k: String, v: Value)
    ensures
        inserted(entries, k, v).len() == entries.len() + (if has_key(entries, k@) {
            0int
        } else {
            1int
        }),
        forall|j: int|
            0 <= j < entries.len() ==> #[trigger] inserted(entries, k, v)[j].0 == entries[j].0,
{
    if has_key(entries, k@) {
        lemma_first_key_exists(entries, k@);
    }
}

impl Mapping {
    /// The value of the first entry with key `k`.
    pub fn get(&self, k: &str) -> (r: Option<&Value>)
        ensures
            match r {
                Some(v) => lookup(self@, k@) == Some(*v),
                None => lookup(self@, k@) is None,
            },
    {
        match self.find(k) {
            Some(i) => Some(&self.0[i].1),
            None => None,
        }
    }

    /// The position of the first entry with key `k`.
    fn find(&self, k: &str) -> (r: Option<usize>)
        ensures
            match r {
                Some(i) => is_first_key(self@, k@, i as int) && first_key_index(self@, k@)
                    == i,
                None => !has_key(self@, k@),
            },
    {
        let key = k.to_owned();
        let mut i: usize = 0;
        while i < self.0.len()
            invariant
                i <= self.0@.len(),
                key@ == k@,
                forall|j: int| 0 <= j < i ==> #[trigger] self.0@[j].0@ != k@,
            decreases self.0@.len() - i,
        {
            if self.0[i].0 == key {
                proof {
                    lemma_first_key_unique(self@, k@, i as int);
                }
                return Some(i);
            }
            i = i + 1;
        }
        None
    }

    /// Some entry has key `k`.
    pub fn contains(&self, k: &str) -> (r: bool)
        ensures
            r == has_key(self@, k@),
    {
        self.find(k).is_some()
    }

    /// Appends `(k, v)` without looking for an existing key.
    pub fn push(&mut self, k: String, v: Value)
        ensures
            final(self)@ == old(self)@.push((k, v)),
    {
        self.0.push((k, v));
    }

    /// Sets the first entry with key `k` to `v`, or appends `(k, v)`.
    pub fn insert(&mut self, k: String, v: Value)
        ensures
            final(self)@ == inserted(old(self)@, k, v),
    {
        match self.find(k.as_str()) {
            Some(i) => {
                let key = self.0[i].0.clone();
                self.0.set(i, (key, v));
            },
            None => {
                self.0.push((k, v));
            },
        }
    }

    /// The keys, in document order.
    pub fn keys(&self) -> (r: Vec<&str>)
        ensures
            r@.len() == self@.len(),
            forall|i: int| 0 <= i < r@.len() ==> #[trigger] r@[i]@ == self@[i].0@,
    {
        let mut r: Vec<&str> = Vec::new();
        let mut i: usize = 0;
        while i < self.0.len()
            invariant
                i <= self.0@.len(),
                r@.len() == i,
                forall|j: int| 0 <= j < i ==> #[trigger] r@[j]@ == self@[j].0@,
            decreases self.0@.len() - i,
        {
            r.push(self.0[i].0.as_str());
            i = i + 1;
        }
        r
    }

    /// The number of entries.
    pub fn len(&self) -> (r: usize)
        ensures
            r == self@.len(),
    {
        self.0.len()
    }

    /// There are no entries.
    pub fn is_empty(&self) -> (r: bool)
        ensures
            r == (self@.len() == 0),
    {
        self.0.len() == 0
    }
}

/// No mapping anywhere in the value holds two keys with the same text.
pub open spec fn value_keys_distinct(v: Value) -> bool
    decreases v, 0nat,
{
    match v {
        Value::Sequence(vs) => values_keys_distinct(vs@, vs@.len()),
        Value::Mapping(m) => members_keys_distinct(m.0@, m.0@.len()),
        _ => true,
    }
}

/// No mapping in the first `k` values holds two keys with the same text.
pub open spec fn values_keys_distinct(vs: Seq<Value>, k: nat) -> bool
    decreases vs, k,
{
    if k == 0 || k > vs.len() {
        true
    } else {
        values_keys_distinct(vs, (k - 1) as nat) && value_keys_distinct(vs[k - 1])
    }
}

/// The first `k` entries have keys of pairwise different text, and no mapping
/// in their values holds two keys with the same text.
pub open spec fn members_keys_distinct(ms: Seq<(String, Value)>, k: nat) -> bool
    decreases ms, k,
{
    if k == 0 || k > ms.len() {
        true
    } else {
        &&& members_keys_distinct(ms, (k - 1) as nat)
        &&& forall|j: int| 0 <= j < k - 1 ==> #[trigger] ms[j].0@ != ms[k - 1].0@
        &&& value_keys_distinct(ms[k - 1].1)
    }
}

/// Whether the first `k` values are free of repeated keys depends on those
/// values only.
pub proof fn lemma_values_keys_distinct_prefix(vs: Seq<Value>, ws: Seq<Value>, k: nat)
    requires
        values_keys_distinct(vs, k),
        k <= vs.len(),
        k <= ws.len(),
        forall|j: int| 0 <= j < k ==> vs[j] == ws[j],
    ensures
        values_keys_distinct(ws, k),
    decreases k,
{
    if k > 0 {
        lemma_values_keys_distinct_prefix(vs, ws, (k - 1) as nat);
    }
}

/// Whether the first `k` entries are free of repeated keys depends on those
/// entries only.
pub proof fn lemma_members_keys_distinct_prefix(ms: Seq<(String, Value)>, ns: Seq<(String, Value)>, k: nat)
    requires
        members_keys_distinct(ms, k),
        k <= ms.len(),
        k <= ns.len(),
        forall|j: int| 0 <= j < k ==> ms[j] == ns[j],
    ensures
        members_keys_distinct(ns, k),
    decreases k,
{
    if k > 0 {
        lemma_members_keys_distinct_prefix(ms, ns, (k - 1) as nat);
        assert forall|j: int| 0 <= j < k - 1 implies #[trigger] ns[j].0@ != ns[k - 1].0@ by {
            assert(ms[j].0@ != ms[k - 1].0@);
        }
    }
}

/// `b` holds what `a` holds: the same scalars, and collections with the same
/// entries in the same order.
pub open spec fn same_value(a: Value, b: Value) -> bool
    decreases a, 0nat,
{
    match a {
        Value::Sequence(vs) => match b {
            Value::Sequence(ws) => ws@.len() == vs@.len() && same_values(vs@, ws@, vs@.len()),
            _ => false,
        },
        Value::Mapping(m) => match b {
            Value::Mapping(n) => n.0@.len() == m.0@.len() && same_members(m.0@, n.0@, m.0@.len()),
            _ => false,
        },
        _ => a == b,
    }
}

/// The first `k` values of `ws` hold what those of `vs` hold.
pub open spec fn same_values(vs: Seq<Value>, ws: Seq<Value>, k: nat) -> bool
    decreases vs, k,
{
    if k == 0 {
        true
    } else if k > vs.len() {
        false
    } else {
        same_values(vs, ws, (k - 1) as nat) && same_value(vs[k - 1], ws[k - 1])
    }
}

/// The first `k` entries of `ns` have the keys of those of `ms`, and values
/// that hold what theirs hold.
pub open spec fn same_members(ms: Seq<(String, Value)>, ns: Seq<(String, Value)>, k: nat) -> bool
    decreases ms, k,
{
    if k == 0 {
        true
    } else if k > ms.len() {
        false
    } else {
        &&& same_members(ms, ns, (k - 1) as nat)
        &&& ns[k - 1].0 == ms[k - 1].0
        &&& same_value(ms[k - 1].1, ns[k - 1].1)
    }
}

proof fn lemma_same_values_prefix(vs: Seq<Value>, ws: Seq<Value>, xs: Seq<Value>, k: nat)
    requires
        same_values(vs, ws, k),
        k <= ws.len(),
        k <= xs.len(),
        forall|j: int| 0 <= j < k ==> ws[j] == xs[j],
    ensures
        same_values(vs, xs, k),
    decreases k,
{
    if k > 0 {
        lemma_same_values_prefix(vs, ws, xs, (k - 1) as nat);
    }
}

proof fn lemma_same_members_prefix(ms: Seq<(String, Value)>, ns: Seq<(String, Value)>, xs: Seq<(String, Value)>, k: nat)
    requires
        same_members(ms, ns, k),
        k <= ns.len(),
        k <= xs.len(),
        forall|j: int| 0 <= j < k ==> ns[j] == xs[j],
    ensures
        same_members(ms, xs, k),
    decreases k,
{
    if k > 0 {
        lemma_same_members_prefix(ms, ns, xs, (k - 1) as nat);
    }
}

fn copy_value(v: &Value) -> (r: Value)
    ensures
        same_value(*v, r),
    decreases v,
{
    match v {
        Value::Null => Value::Null,
        Value::Bool(b) => Value::Bool(*b),
        Value::Int(i) => Value::Int(*i),
        Value::Float(f) => Value::Float(FloatNum { bits: f.bits, text: f.text.clone() }),
        Value::Str(s) => Value::Str(s.clone()),
        Value::Sequence(vs) => {
            let mut out: Vec<Value> = Vec::new();
            let mut i: usize = 0;
            while i < vs.len()
                invariant
                    i <= vs@.len(),
                    *v == Value::Sequence(*vs),
                    out@.len() == i,
                    same_values(vs@, out@, i as nat),
                decreases vs@.len() - i,
            {
                proof {
                    vstd::std_specs::vec::axiom_vec_index_decreases(*vs, i as int);
                    assert(decreases_to!(*vs => vs[i as int]));
                    assert(decreases_to!(*v => (*v)->Sequence_0));
                }
                let c = copy_value(&vs[i]);
                let ghost before = out@;
                out.push(c);
                proof {
                    lemma_same_values_prefix(vs@, before, out@, i as nat);
                }
                i = i + 1;
            }
            Value::Sequence(out)
        },
        Value::Mapping(m) => {
            let mut out: Vec<(String, Value)> = Vec::new();
            let mut i: usize = 0;
            while i < m.0.len()
                invariant
                    i <= m.0@.len(),
                    *v == Value::Mapping(*m),
                    out@.len() == i,
                    same_members(m.0@, out@, i as nat),
                decreases m.0@.len() - i,
            {
                proof {
                    vstd::std_specs::vec::axiom_vec_index_decreases(m.0, i as int);
                    assert(decreases_to!(*v => (*v)->Mapping_0));
                    assert(decreases_to!(*m => m.0));
                    assert(decreases_to!(m.0 => m.0[i as int]));
                    assert(decreases_to!(m.0[i as int] => m.0[i as int].1));
                }
                let c = copy_value(&m.0[i].1);
                let ghost before = out@;
                out.push((m.0[i].0.clone(), c));
                proof {
                    lemma_same_members_prefix(m.0@, before, out@, i as nat);
                }
                i = i + 1;
            }
            Value::Mapping(Mapping(out))
        },
    }
}

impl Clone for Value {
    /// A copy holding what this value holds.
    fn clone(&self) -> (r: Value)
        ensures
            same_value(*self, r),
    {
        copy_value(self)
    }
}

impl Clone for Mapping {
    /// A copy with the same keys in the same order, and values that hold what
    /// the originals hold.
    fn clone(&self) -> (r: Mapping)
        ensures
            r@.len() == self@.len(),
            same_members(self@, r@, self@.len()),
    {
        let mut out: Vec<(String, Value)> = Vec::new();
        let mut i: usize = 0;
        while i < self.0.len()
            invariant
                i <= self@.len(),
                out@.len() == i,
                same_members(self@, out@, i as nat),
            decreases self@.len() - i,
        {
            let c = copy_value(&self.0[i].1);
            let ghost before = out@;
            out.push((self.0[i].0.clone(), c));
            proof {
                lemma_same_members_prefix(self@, before, out@, i as nat);
            }
            i = i + 1;
        }
        Mapping(out)
    }
}

impl Default for Mapping {
    /// The empty mapping.
    fn default() -> (r: Mapping)
        ensures
            r@.len() == 0,
    {
        Mapping(Vec::new())
    }
}

/// The scalar rendering used in messages.
pub open spec fn plain_text(v: Value) -> Seq<char> {
    match v {
        Value::Null => "null"@,
        Value::Bool(b) => if b {
            "true"@
        } else {
            "false"@
        },
        Value::Int(i) => signed_decimal(i as int),
        Value::Float(f) => f.text@,
        Value::Str(s) => s@,
        Value::Sequence(_) => "<sequence>"@,
        Value::Mapping(_) => "<mapping>"@,
    }
}

/// A string renders as its own text, whatever it holds (the empty string
/// included); an integer renders as decimal digits that read back as its
/// magnitude, with a minus sign exactly when it is negative; a float renders
/// as the text it was read with.
pub proof fn law_plain_text_of_scalars(s: String, i: i64, f: FloatNum)
    ensures
        plain_text(Value::Str(s)) == s@,
        plain_text(Value::Float(f)) == f.text@,
        i < 0 ==> plain_text(Value::Int(i))[0] == '-' && digits_value(
            plain_text(Value::Int(i)).drop_first(),
        ) == -i,
        i >= 0 ==> digits_value(plain_text(Value::Int(i))) == i && plain_text(Value::Int(i))[0]
            != '-',
{
    law_signed_decimal_sign(i as int);
    if i < 0 {
        law_decimal_reads_back((-i) as nat);
    }
}

/// Float equality is IEEE-754 number equality on the bit patterns: a NaN
/// equals nothing, the two zeros are equal, and otherwise two floats are equal
/// exactly when their bit patterns are.
pub proof fn law_float_equality(a: u64, b: u64)
    ensures
        float_bits_eq(a, b) <==> (
            !((a & 0x7ff0_0000_0000_0000u64) == 0x7ff0_0000_0000_0000u64 && (a & 0x000f_ffff_ffff_ffffu64) != 0)
            && !((b & 0x7ff0_0000_0000_0000u64) == 0x7ff0_0000_0000_0000u64 && (b & 0x000f_ffff_ffff_ffffu64) != 0)
            && (a == b || ((a & 0x7fff_ffff_ffff_ffffu64) == 0 && (b & 0x7fff_ffff_ffff_ffffu64) == 0))
        ),
        float_bits_eq(a, b) == float_bits_eq(b, a),
{
}

/// A float equals its negation only when it is a zero: `x == -x` holds for
/// `0.0` and `-0.0` and for no other value.
pub proof fn law_float_equals_negation_only_at_zero(a: u64)
    ensures
        float_bits_eq(a, a ^ 0x8000_0000_0000_0000u64) <==> (a & 0x7fff_ffff_ffff_ffffu64) == 0,
{
    assert(a != a ^ 0x8000_0000_0000_0000u64) by (bit_vector);
    assert(((a ^ 0x8000_0000_0000_0000u64) & 0x7fff_ffff_ffff_ffffu64) == (a & 0x7fff_ffff_ffff_ffffu64)) by (bit_vector);
    assert(((a ^ 0x8000_0000_0000_0000u64) & 0x7ff0_0000_0000_0000u64) == (a & 0x7ff0_0000_0000_0000u64)) by (bit_vector);
    assert(((a ^ 0x8000_0000_0000_0000u64) & 0x000f_ffff_ffff_ffffu64) == (a & 0x000f_ffff_ffff_ffffu64)) by (bit_vector);
    assert((a & 0x7fff_ffff_ffff_ffffu64) == 0 ==> (a & 0x7ff0_0000_0000_0000u64) == 0) by (bit_vector);
}

impl Value {
    /// The mapping this value is, if it is one.
    pub fn as_map(&self) -> (r: Option<&Mapping>)
        ensures
            match *self {
                Value::Mapping(m) => r == Some(&m),
                _ => r is None,
            },
    {
        match self {
            Value::Mapping(m) => Some(m),
            _ => None,
        }
    }

    /// The items of the sequence this value is, if it is one.
    pub fn as_seq(&self) -> (r: Option<&[Value]>)
        ensures
            match *self {
                Value::Sequence(s) => r matches Some(items) && items@ == s@,
                _ => r is None,
            },
    {
        match self {
            Value::Sequence(s) => Some(s.as_slice()),
            _ => None,
        }
    }

    /// The string this value is, if it is one.
    pub fn as_str(&self) -> (r: Option<&str>)
        ensures
            match *self {
                Value::Str(s) => r matches Some(t) && t@ == s@,
                _ => r is None,
            },
    {
        match self {
            Value::Str(s) => Some(s.as_str()),
            _ => None,
        }
    }

    /// The scalar rendering used in messages: the scalar's text, or a
    /// placeholder for a collection.
    pub fn to_plain_string(&self) -> (s: String)
        ensures
            s@ == plain_text(*self),
            *self matches Value::Str(t) ==> s@ == t@,
            *self matches Value::Int(i) ==> s@ == signed_decimal(i as int),
            *self matches Value::Float(f) ==> s@ == f.text@,
    {
        match self {
            Value::Null => String::from_str("null"),
            Value::Bool(b) => if *b {
                String::from_str("true")
            } else {
                String::from_str("false")
            },
            Value::Int(i) => signed_decimal_text(*i),
            Value::Float(f) => f.text.clone(),
            Value::Str(s) => s.clone(),
            Value::Sequence(_) => String::from_str("<sequence>"),
            Value::Mapping(_) => String::from_str("<mapping>"),
        }
    }
}

} // verus!
