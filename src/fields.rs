//! The fields of one event, kept in lexicographic order of their names.
use vstd::prelude::*;
use vstd::string::*;

verus! {

/// Lexicographic order of names, character by character (the order of their
/// UTF-8 bytes).
pub open spec fn key_lt(a: Seq<char>, b: Seq<char>) -> bool
    decreases a.len(),
{
    if a.len() == 0 {
        b.len() > 0
    } else if b.len() == 0 {
        false
    } else if a[0] != b[0] {
        (a[0] as int) < (b[0] as int)
    } else {
        key_lt(a.drop_first(), b.drop_first())
    }
}

pub proof fn lemma_key_lt_irreflexive(a: Seq<char>)
    ensures
        !key_lt(a, a),
    decreases a.len(),
{
    if a.len() > 0 {
        lemma_key_lt_irreflexive(a.drop_first());
    }
}

pub proof fn lemma_key_lt_transitive(a: Seq<char>, b: Seq<char>, c: Seq<char>)
    requires
        key_lt(a, b),
        key_lt(b, c),
    ensures
        key_lt(a, c),
    decreases a.len(),
{
    if a.len() > 0 && b.len() > 0 && c.len() > 0 {
        if a[0] == b[0] && b[0] == c[0] {
            lemma_key_lt_transitive(a.drop_first(), b.drop_first(), c.drop_first());
        }
    }
}

pub proof fn lemma_key_lt_total(a: Seq<char>, b: Seq<char>)
    ensures
        a == b || key_lt(a, b) || key_lt(b, a),
    decreases a.len(),
{
    if a.len() > 0 && b.len() > 0 {
        if a[0] == b[0] {
            lemma_key_lt_total(a.drop_first(), b.drop_first());
            if a.drop_first() == b.drop_first() {
                assert(a =~= seq![a[0]] + a.drop_first());
                assert(b =~= seq![b[0]] + b.drop_first());
            }
        } else {
            assert((a[0] as int) != (b[0] as int));
        }
    } else if a.len() == 0 && b.len() == 0 {
        assert(a =~= b);
    }
}

pub proof fn lemma_key_lt_asymmetric(a: Seq<char>, b: Seq<char>)
    requires
        key_lt(a, b),
    ensures
        !key_lt(b, a),
        a != b,
{
    lemma_key_lt_irreflexive(a);
    if key_lt(b, a) {
        lemma_key_lt_transitive(a, b, a);
    }
}

/// The relation of `a` to `b` in the order of names: `-1`, `0` or `1`.
pub fn compare_keys(a: &str, b: &str) -> (r: i8)
    ensures
        r == 0 <==> a@ == b@,
        r < 0 <==> key_lt(a@, b@),
        r > 0 <==> key_lt(b@, a@),
{
    let n = a.unicode_len();
    let m = b.unicode_len();
    let mut i: usize = 0;
    assert(a@.subrange(0, n as int) =~= a@);
    assert(b@.subrange(0, m as int) =~= b@);
    while i < n && i < m
        invariant
            n == a@.len(),
            m == b@.len(),
            i <= n,
            i <= m,
            a@.subrange(0, i as int) == b@.subrange(0, i as int),
            key_lt(a@, b@) == key_lt(a@.subrange(i as int, n as int), b@.subrange(i as int, m as int)),
            key_lt(b@, a@) == key_lt(b@.subrange(i as int, m as int), a@.subrange(i as int, n as int)),
        decreases n - i,
    {
        let x = a.get_char(i);
        let y = b.get_char(i);
        if x != y {
            proof {
                if key_lt(a@, b@) {
                    lemma_key_lt_asymmetric(a@, b@);
                }
                if key_lt(b@, a@) {
                    lemma_key_lt_asymmetric(b@, a@);
                }
            }
            if (x as u32) < (y as u32) {
                return -1;
            } else {
                return 1;
            }
        }
        assert(a@.subrange(i as int, n as int).drop_first() =~= a@.subrange(i + 1, n as int));
        assert(b@.subrange(i as int, m as int).drop_first() =~= b@.subrange(i + 1, m as int));
        assert(a@.subrange(0, i + 1) =~= a@.subrange(0, i as int).push(x));
        assert(b@.subrange(0, i + 1) =~= b@.subrange(0, i as int).push(y));
        i = i + 1;
    }
    proof {
        lemma_key_lt_irreflexive(a@);
        if key_lt(a@, b@) {
            lemma_key_lt_asymmetric(a@, b@);
        }
        if key_lt(b@, a@) {
            lemma_key_lt_asymmetric(b@, a@);
        }
    }
    if n < m {
        assert(a@ =~= a@.subrange(0, i as int));
        assert(a@.len() != b@.len());
        -1
    } else if m < n {
        assert(b@ =~= b@.subrange(0, i as int));
        assert(a@.len() != b@.len());
        1
    } else {
        assert(a@ =~= a@.subrange(0, i as int));
        assert(b@ =~= b@.subrange(0, i as int));
        0
    }
}

/// What a field's value is, as the envelope reads it.
pub enum FieldData {
    /// A floating-point number, held as the JSON text of that number.
    Float(Seq<char>),
    Int(i64),
    UInt(u64),
    Bool(bool),
    Str(Seq<char>),
    /// The message of an error value.
    ErrorText(Seq<char>),
    /// The debug rendering of any other value.
    DebugText(Seq<char>),
}

/// A field's value, one variant for each kind of value that an event reports.
pub enum FieldValue {
    /// A floating-point number, held as the JSON text of that number (`null`
    /// where it is not finite).
    Float(String),
    Int(i64),
    UInt(u64),
    Bool(bool),
    Str(String),
    /// The message of an error value.
    ErrorText(String),
    /// The debug rendering of any other value.
    DebugText(String),
}

impl View for FieldValue {
    type V = FieldData;

    open spec fn view(&self) -> FieldData {
        match self {
            FieldValue::Float(t) => FieldData::Float(t@),
            FieldValue::Int(n) => FieldData::Int(*n),
            FieldValue::UInt(n) => FieldData::UInt(*n),
            FieldValue::Bool(b) => FieldData::Bool(*b),
            FieldValue::Str(s) => FieldData::Str(s@),
            FieldValue::ErrorText(s) => FieldData::ErrorText(s@),
            FieldValue::DebugText(s) => FieldData::DebugText(s@),
        }
    }
}

/// Entries whose names strictly ascend.
pub open spec fn names_ascend(s: Seq<(Seq<char>, FieldData)>) -> bool {
    forall|i: int, j: int| 0 <= i < j < s.len() ==> key_lt(#[trigger] s[i].0, #[trigger] s[j].0)
}

/// `after` holds `(k, v)` and every entry of `before` under another name, and
/// nothing else.
pub open spec fn stores(
    before: Seq<(Seq<char>, FieldData)>,
    after: Seq<(Seq<char>, FieldData)>,
    k: Seq<char>,
    v: FieldData,
) -> bool {
    &&& after.contains((k, v))
    &&& forall|e: (Seq<char>, FieldData)| #[trigger]
        before.contains(e) && e.0 != k ==> after.contains(e)
    &&& forall|e: (Seq<char>, FieldData)| #[trigger]
        after.contains(e) ==> e == (k, v) || (before.contains(e) && e.0 != k)
}

/// Two lists of entries in ascending order of names that hold the same
/// entries are the same list.
pub proof fn lemma_ascending_entries_unique(
    a: Seq<(Seq<char>, FieldData)>,
    b: Seq<(Seq<char>, FieldData)>,
)
    requires
        names_ascend(a),
        names_ascend(b),
        forall|e: (Seq<char>, FieldData)| a.contains(e) <==> b.contains(e),
    ensures
        a == b,
    decreases a.len(),
{
    if a.len() == 0 {
        if b.len() > 0 {
            assert(b.contains(b[0]));
        }
        assert(a =~= b);
    } else {
        assert(a.contains(a[0]));
        assert(b.contains(b[0]));
        let q = choose|q: int| 0 <= q < b.len() && b[q] == a[0];
        let p = choose|p: int| 0 <= p < a.len() && a[p] == b[0];
        if q > 0 && p > 0 {
            assert(key_lt(b[0].0, b[q].0));
            assert(key_lt(a[0].0, a[p].0));
            lemma_key_lt_asymmetric(a[0].0, a[p].0);
        }
        assert(a[0] == b[0]);
        let ta = a.drop_first();
        let tb = b.drop_first();
        assert forall|e: (Seq<char>, FieldData)| ta.contains(e) <==> tb.contains(e) by {
            if ta.contains(e) {
                let i = choose|i: int| 0 <= i < ta.len() && ta[i] == e;
                assert(a[i + 1] == e);
                assert(a.contains(e));
                assert(key_lt(a[0].0, a[i + 1].0));
                lemma_key_lt_asymmetric(a[0].0, e.0);
                let k = choose|k: int| 0 <= k < b.len() && b[k] == e;
                assert(k != 0);
                assert(tb[k - 1] == e);
            }
            if tb.contains(e) {
                let i = choose|i: int| 0 <= i < tb.len() && tb[i] == e;
                assert(b[i + 1] == e);
                assert(b.contains(e));
                assert(key_lt(b[0].0, b[i + 1].0));
                lemma_key_lt_asymmetric(b[0].0, e.0);
                let k = choose|k: int| 0 <= k < a.len() && a[k] == e;
                assert(k != 0);
                assert(ta[k - 1] == e);
            }
        }
        assert forall|i: int, j: int| 0 <= i < j < ta.len() implies key_lt(
            #[trigger] ta[i].0,
            #[trigger] ta[j].0,
        ) by {
            assert(ta[i] == a[i + 1] && ta[j] == a[j + 1]);
        }
        assert forall|i: int, j: int| 0 <= i < j < tb.len() implies key_lt(
            #[trigger] tb[i].0,
            #[trigger] tb[j].0,
        ) by {
            assert(tb[i] == b[i + 1] && tb[j] == b[j + 1]);
        }
        lemma_ascending_entries_unique(ta, tb);
        assert(a =~= seq![a[0]] + ta);
        assert(b =~= seq![b[0]] + tb);
    }
}

/// The fields of one event: at most one value per name, listed in ascending
/// order of names whatever the order in which they were recorded.
pub struct FieldMap {
    entries: Vec<(String, FieldValue)>,
}

impl View for FieldMap {
    type V = Seq<(Seq<char>, FieldData)>;

    closed spec fn view(&self) -> Seq<(Seq<char>, FieldData)> {
        self.entries@.map_values(|e: (String, FieldValue)| (e.0@, e.1@))
    }
}

impl FieldMap {
    pub open spec fn wf(&self) -> bool {
        names_ascend(self@)
    }

    /// A map with no field.
    pub fn new() -> (r: FieldMap)
        ensures
            r.wf(),
            r@ == Seq::<(Seq<char>, FieldData)>::empty(),
    {
        let r = FieldMap { entries: Vec::new() };
        assert(r@ =~= Seq::<(Seq<char>, FieldData)>::empty());
        r
    }

    /// The number of fields.
    pub fn len(&self) -> (r: usize)
        ensures
            r == self@.len(),
    {
        self.entries.len()
    }

    /// The name and value of the field at `i` in ascending order of names.
    pub fn entry(&self, i: usize) -> (r: (&String, &FieldValue))
        requires
            i < self@.len(),
        ensures
            r.0@ == self@[i as int].0,
            r.1@ == self@[i as int].1,
    {
        let e = &self.entries[i];
        (&e.0, &e.1)
    }

    /// Records `value` under `name`; a value already recorded under that name
    /// is replaced.
    pub fn insert(&mut self, name: String, value: FieldValue)
        requires
            old(self).wf(),
        ensures
            final(self).wf(),
            stores(old(self)@, final(self)@, name@, value@),
    {
        let n = self.entries.len();
        let ghost before = self@;
        let ghost k = name@;
        let ghost v = value@;
        let mut j: usize = 0;
        let mut found = false;
        while j < n && !found
            invariant
                n == self.entries@.len(),
                self@ == before,
                k == name@,
                j <= n,
                forall|i: int| 0 <= i < j ==> key_lt(#[trigger] before[i].0, k),
                found ==> j < n && !key_lt(before[j as int].0, k),
            decreases n - j + (if found { 0int } else { 1int }),
        {
            assert(before[j as int].0 == self.entries@[j as int].0@);
            let c = compare_keys(self.entries[j].0.as_str(), name.as_str());
            if c < 0 {
                j = j + 1;
            } else {
                found = true;
            }
        }
        let same = j < n && compare_keys(self.entries[j].0.as_str(), name.as_str()) == 0;
        assert(j < n ==> before[j as int].0 == self.entries@[j as int].0@);
        if same {
            let ghost e = (k, v);
            self.entries.set(j, (name, value));
            let ghost after = self@;
            assert(after =~= before.update(j as int, e));
            assert forall|i: int| 0 <= i < n && i != j implies before[i].0 != k by {
                if i < j {
                    lemma_key_lt_asymmetric(before[i].0, before[j as int].0);
                } else {
                    lemma_key_lt_asymmetric(before[j as int].0, before[i].0);
                }
            }
            assert(after[j as int] == e);
            assert forall|d: (Seq<char>, FieldData)| #[trigger]
                before.contains(d) && d.0 != k implies after.contains(d) by {
                let i = choose|i: int| 0 <= i < before.len() && before[i] == d;
                assert(after[i] == d);
            }
            assert forall|d: (Seq<char>, FieldData)| #[trigger]
                after.contains(d) implies d == e || (before.contains(d) && d.0 != k) by {
                let i = choose|i: int| 0 <= i < after.len() && after[i] == d;
                if i != j {
                    assert(before[i] == d);
                }
            }
        } else {
            let ghost e = (k, v);
            proof {
                if j < n {
                    lemma_key_lt_total(before[j as int].0, k);
                }
            }
            self.entries.insert(j, (name, value));
            let ghost after = self@;
            assert(after =~= before.insert(j as int, e));
            assert forall|i: int| 0 <= i < n implies before[i].0 != k && (i < j ==> key_lt(
                before[i].0,
                k,
            )) && (i >= j ==> key_lt(k, #[trigger] before[i].0)) by {
                if i < j {
                    lemma_key_lt_asymmetric(before[i].0, k);
                } else {
                    if i > j {
                        lemma_key_lt_transitive(k, before[j as int].0, before[i].0);
                    }
                    lemma_key_lt_asymmetric(k, before[i].0);
                }
            }
            assert forall|a: int, b: int| 0 <= a < b < after.len() implies key_lt(
                #[trigger] after[a].0,
                #[trigger] after[b].0,
            ) by {
                if b < j {
                    assert(after[a] == before[a] && after[b] == before[b]);
                } else if b == j {
                    assert(after[a] == before[a]);
                } else if a == j {
                    assert(after[b] == before[b - 1]);
                } else if a < j {
                    assert(after[a] == before[a] && after[b] == before[b - 1]);
                    lemma_key_lt_transitive(before[a].0, k, before[b - 1].0);
                } else {
                    assert(after[a] == before[a - 1] && after[b] == before[b - 1]);
                }
            }
            assert(after[j as int] == e);
            assert forall|d: (Seq<char>, FieldData)| #[trigger]
                before.contains(d) && d.0 != k implies after.contains(d) by {
                let i = choose|i: int| 0 <= i < before.len() && before[i] == d;
                if i < j {
                    assert(after[i] == d);
                } else {
                    assert(after[i + 1] == d);
                }
            }
            assert forall|d: (Seq<char>, FieldData)| #[trigger]
                after.contains(d) implies d == e || (before.contains(d) && d.0 != k) by {
                let i = choose|i: int| 0 <= i < after.len() && after[i] == d;
                if i < j {
                    assert(before[i] == d);
                } else if i > j {
                    assert(before[i - 1] == d);
                }
            }
        }
    }
    /// Records a signed integer under `name`.
    pub fn record_i64(&mut self, name: &str, value: i64)
        requires
            old(self).wf(),
        ensures
            final(self).wf(),
            stores(old(self)@, final(self)@, name@, FieldData::Int(value)),
    {
        self.insert(name.to_owned(), FieldValue::Int(value));
    }

    /// Records an unsigned integer under `name`.
    pub fn record_u64(&mut self, name: &str, value: u64)
        requires
            old(self).wf(),
        ensures
            final(self).wf(),
            stores(old(self)@, final(self)@, name@, FieldData::UInt(value)),
    {
        self.insert(name.to_owned(), FieldValue::UInt(value));
    }

    /// Records a boolean under `name`.
    pub fn record_bool(&mut self, name: &str, value: bool)
        requires
            old(self).wf(),
        ensures
            final(self).wf(),
            stores(old(self)@, final(self)@, name@, FieldData::Bool(value)),
    {
        self.insert(name.to_owned(), FieldValue::Bool(value));
    }

    /// Records a string under `name`.
    pub fn record_str(&mut self, name: &str, value: &str)
        requires
            old(self).wf(),
        ensures
            final(self).wf(),
            stores(old(self)@, final(self)@, name@, FieldData::Str(value@)),
    {
        self.insert(name.to_owned(), FieldValue::Str(value.to_owned()));
    }

    /// Records an error, given by its message under `name`.
    pub fn record_error(&mut self, name: &str, value: &str)
        requires
            old(self).wf(),
        ensures
            final(self).wf(),
            stores(old(self)@, final(self)@, name@, FieldData::ErrorText(value@)),
    {
        self.insert(name.to_owned(), FieldValue::ErrorText(value.to_owned()));
    }

    /// Records any other value, given by its debug rendering under `name`.
    pub fn record_debug(&mut self, name: &str, value: &str)
        requires
            old(self).wf(),
        ensures
            final(self).wf(),
            stores(old(self)@, final(self)@, name@, FieldData::DebugText(value@)),
    {
        self.insert(name.to_owned(), FieldValue::DebugText(value.to_owned()));
    }

    /// Records a floating-point number, given by its JSON text under `name`.
    pub fn record_float(&mut self, name: &str, value: &str)
        requires
            old(self).wf(),
        ensures
            final(self).wf(),
            stores(old(self)@, final(self)@, name@, FieldData::Float(value@)),
    {
        self.insert(name.to_owned(), FieldValue::Float(value.to_owned()));
    }

}

/// Two fields under different names, recorded in either order, give the same
/// entries in the same order.
pub proof fn lemma_arrival_order_irrelevant(
    s0: Seq<(Seq<char>, FieldData)>,
    s1: Seq<(Seq<char>, FieldData)>,
    s2: Seq<(Seq<char>, FieldData)>,
    t1: Seq<(Seq<char>, FieldData)>,
    t2: Seq<(Seq<char>, FieldData)>,
    k1: Seq<char>,
    v1: FieldData,
    k2: Seq<char>,
    v2: FieldData,
)
    requires
        k1 != k2,
        names_ascend(s2),
        names_ascend(t2),
        stores(s0, s1, k1, v1),
        stores(s1, s2, k2, v2),
        stores(s0, t1, k2, v2),
        stores(t1, t2, k1, v1),
    ensures
        s2 == t2,
{
    assert forall|e: (Seq<char>, FieldData)| s2.contains(e) <==> t2.contains(e) by {
        if s2.contains(e) {
            if e != (k2, v2) {
                assert(s1.contains(e));
            }
            if e != (k1, v1) && e != (k2, v2) {
                assert(s0.contains(e));
                assert(t1.contains(e));
            }
            if e == (k2, v2) {
                assert(t1.contains(e));
            }
        }
        if t2.contains(e) {
            if e != (k1, v1) {
                assert(t1.contains(e));
            }
            if e != (k1, v1) && e != (k2, v2) {
                assert(s0.contains(e));
                assert(s1.contains(e));
            }
            if e == (k1, v1) {
                assert(s1.contains(e));
            }
        }
    }
    lemma_ascending_entries_unique(s2, t2);
}

} // verus!
