//! Records: the JSON objects that the listing tools return, as ordered
//! fields of plain values, and their stable ordering.
use vstd::prelude::*;
use crate::text::str_eq;

verus! {

/// The value of one field.
pub enum FieldValue {
    Text(String),
    Count(u64),
}

/// One field of a record.
pub struct Field {
    pub key: String,
    pub value: FieldValue,
}

pub enum ValueView {
    Text(Seq<char>),
    Count(u64),
}

impl View for FieldValue {
    type V = ValueView;

    open spec fn view(&self) -> ValueView {
        match self {
            FieldValue::Text(s) => ValueView::Text(s@),
            FieldValue::Count(n) => ValueView::Count(*n),
        }
    }
}

impl View for Field {
    type V = (Seq<char>, ValueView);

    open spec fn view(&self) -> (Seq<char>, ValueView) {
        (self.key@, self.value@)
    }
}

/// A record as (key, value) pairs in insertion order.
pub type RecordView = Seq<(Seq<char>, ValueView)>;

pub open spec fn record_view(r: Seq<Field>) -> RecordView {
    Seq::new(r.len(), |i: int| r[i]@)
}

pub open spec fn records_view(rs: Seq<Vec<Field>>) -> Seq<RecordView> {
    Seq::new(rs.len(), |i: int| record_view(rs[i]@))
}

/// The position of `key` in the record, if present.
pub open spec fn key_index(r: RecordView, key: Seq<char>) -> Option<int>
    decreases r.len(),
{
    if r.len() == 0 {
        None
    } else if r.last().0 == key {
        Some(r.len() - 1)
    } else {
        key_index(r.drop_last(), key)
    }
}

/// The value under `key`.
pub open spec fn field(r: RecordView, key: Seq<char>) -> Option<ValueView> {
    match key_index(r, key) {
        Some(i) => Some(r[i].1),
        None => None,
    }
}

/// The text under `key`, if that value is text (`get(key).and_then(as_str)`).
pub open spec fn text_field(r: RecordView, key: Seq<char>) -> Option<Seq<char>> {
    match field(r, key) {
        Some(ValueView::Text(s)) => Some(s),
        _ => None,
    }
}

/// The record after `insert(key, value)`: an existing key keeps its place
/// and takes the new value, a new key goes last.
pub open spec fn insert_field(r: RecordView, key: Seq<char>, value: ValueView) -> RecordView {
    match key_index(r, key) {
        Some(i) => r.update(i, (key, value)),
        None => r.push((key, value)),
    }
}

pub proof fn lemma_key_index_bounds(r: RecordView, key: Seq<char>)
    ensures
        match key_index(r, key) {
            Some(i) => 0 <= i < r.len() && r[i].0 == key,
            None => forall|j: int| 0 <= j < r.len() ==> #[trigger] r[j].0 != key,
        },
    decreases r.len(),
{
    if r.len() > 0 {
        lemma_key_index_bounds(r.drop_last(), key);
        if r.last().0 != key {
            assert forall|j: int| 0 <= j < r.len() - 1 implies #[trigger] r[j] == r.drop_last()[j] by {}
        }
    }
}

/// Finds `key` in a record.
pub fn find_key(r: &Vec<Field>, key: &str) -> (res: Option<usize>)
    ensures
        match res {
            Some(i) => key_index(record_view(r@), key@) == Some(i as int),
            None => key_index(record_view(r@), key@).is_none(),
        },
{
    let mut i: usize = r.len();
    assert(record_view(r@).take(i as int) =~= record_view(r@));
    while i > 0
        invariant
            i <= r@.len(),
            key_index(record_view(r@), key@) == key_index(record_view(r@).take(i as int), key@),
        decreases i,
    {
        assert(record_view(r@).take(i as int).drop_last() =~= record_view(r@).take(i - 1));
        if str_eq(r[i - 1].key.as_str(), key) {
            return Some(i - 1);
        }
        i = i - 1;
    }
    None
}

/// `obj.insert(key, value)` on a record.
pub fn insert(r: &mut Vec<Field>, key: &str, value: FieldValue)
    ensures
        record_view(final(r)@) == insert_field(record_view(old(r)@), key@, value@),
{
    let ghost v = value@;
    match find_key(r, key) {
        Some(i) => {
            proof { crate::record::lemma_key_index_bounds(record_view(r@), key@); }
            let f = Field { key: key.to_owned(), value };
            r.set(i, f);
            assert(record_view(r@) =~= insert_field(record_view(old(r)@), key@, v));
        },
        None => {
            r.push(Field { key: key.to_owned(), value });
            assert(record_view(r@) =~= insert_field(record_view(old(r)@), key@, v));
        },
    }
}

/// The text under `key`, if the record holds text there.
pub fn get_text(r: &Vec<Field>, key: &str) -> (res: Option<String>)
    ensures
        match res {
            Some(s) => text_field(record_view(r@), key@) == Some(s@),
            None => text_field(record_view(r@), key@).is_none(),
        },
{
    match find_key(r, key) {
        Some(i) => {
            proof { lemma_key_index_bounds(record_view(r@), key@); }
            match &r[i].value {
                FieldValue::Text(s) => Some(s.clone()),
                FieldValue::Count(_) => None,
            }
        },
        None => None,
    }
}

/// The number under `key`, if the record holds a number there.
pub fn get_count(r: &Vec<Field>, key: &str) -> (res: Option<u64>)
    ensures
        res == match field(record_view(r@), key@) {
            Some(ValueView::Count(n)) => Some(n),
            _ => None::<u64>,
        },
{
    match find_key(r, key) {
        Some(i) => {
            proof { lemma_key_index_bounds(record_view(r@), key@); }
            match &r[i].value {
                FieldValue::Count(n) => Some(*n),
                FieldValue::Text(_) => None,
            }
        },
        None => None,
    }
}

// ---------------------------------------------------------------------------
// Stable ordering
// ---------------------------------------------------------------------------

/// `x` placed after every element of the ordered `s` that is not after it.
pub open spec fn insert_ordered<T>(s: Seq<T>, x: T, le: spec_fn(T, T) -> bool) -> Seq<T>
    decreases s.len(),
{
    if s.len() == 0 || le(s.last(), x) {
        s.push(x)
    } else {
        insert_ordered(s.drop_last(), x, le).push(s.last())
    }
}

/// The stable sort of `s` by `le`, as `sort_by` gives it: elements in order
/// of `le`, equal ones in the order they came.
pub open spec fn stable_sort<T>(s: Seq<T>, le: spec_fn(T, T) -> bool) -> Seq<T>
    decreases s.len(),
{
    if s.len() == 0 {
        s
    } else {
        insert_ordered(stable_sort(s.drop_last(), le), s.last(), le)
    }
}

/// Inserting by scanning back from the end gives `insert_ordered`.
pub proof fn lemma_insert_at<T>(s: Seq<T>, x: T, le: spec_fn(T, T) -> bool, j: int)
    requires
        0 <= j <= s.len(),
        j == 0 || le(s[j - 1], x),
        forall|k: int| j <= k < s.len() ==> !le(#[trigger] s[k], x),
    ensures
        insert_ordered(s, x, le) == s.take(j).push(x) + s.skip(j),
    decreases s.len(),
{
    if s.len() == 0 {
        assert(s.take(j).push(x) + s.skip(j) =~= s.push(x));
    } else if le(s.last(), x) {
        assert(j == s.len());
        assert(s.take(j).push(x) + s.skip(j) =~= s.push(x));
    } else {
        let t = s.drop_last();
        assert forall|k: int| j <= k < t.len() implies !le(#[trigger] t[k], x) by {
            assert(t[k] == s[k]);
        }
        if j > 0 {
            assert(t[j - 1] == s[j - 1]);
        }
        lemma_insert_at(t, x, le, j);
        assert(t.take(j).push(x) + t.skip(j) + seq![s.last()] =~= s.take(j).push(x) + s.skip(j));
        assert(insert_ordered(s, x, le) == insert_ordered(t, x, le).push(s.last()));
        assert((t.take(j).push(x) + t.skip(j)).push(s.last()) =~= t.take(j).push(x) + t.skip(j) + seq![s.last()]);
    }
}

/// `le` orders any two values and is transitive.
pub open spec fn total_preorder<T>(le: spec_fn(T, T) -> bool) -> bool {
    &&& forall|a: T, b: T| #[trigger] le(a, b) || le(b, a)
    &&& forall|a: T, b: T, c: T| #[trigger] le(a, b) && #[trigger] le(b, c) ==> le(a, c)
}

/// Every element comes before every later one.
pub open spec fn ordered<T>(s: Seq<T>, le: spec_fn(T, T) -> bool) -> bool {
    forall|i: int, j: int| 0 <= i < j < s.len() ==> le(#[trigger] s[i], #[trigger] s[j])
}

proof fn lemma_insert_ordered_multiset<T>(s: Seq<T>, x: T, le: spec_fn(T, T) -> bool)
    ensures
        insert_ordered(s, x, le).to_multiset() == s.to_multiset().insert(x),
    decreases s.len(),
{
    broadcast use vstd::seq_lib::to_multiset_build, vstd::multiset::group_multiset_axioms;
    if s.len() == 0 || le(s.last(), x) {
    } else {
        let t = s.drop_last();
        lemma_insert_ordered_multiset(t, x, le);
        assert(t.push(s.last()) =~= s);
        assert(insert_ordered(s, x, le).to_multiset() =~= s.to_multiset().insert(x));
    }
}

/// Sorting keeps the elements: the result is a permutation of the input.
pub proof fn lemma_sort_permutes<T>(s: Seq<T>, le: spec_fn(T, T) -> bool)
    ensures
        stable_sort(s, le).to_multiset() == s.to_multiset(),
    decreases s.len(),
{
    broadcast use vstd::seq_lib::to_multiset_build;
    if s.len() > 0 {
        let t = s.drop_last();
        lemma_sort_permutes(t, le);
        lemma_insert_ordered_multiset(stable_sort(t, le), s.last(), le);
        assert(t.push(s.last()) =~= s);
    }
}

proof fn lemma_insert_keeps_order<T>(s: Seq<T>, x: T, le: spec_fn(T, T) -> bool)
    requires
        total_preorder(le),
        ordered(s, le),
    ensures
        ordered(insert_ordered(s, x, le), le),
    decreases s.len(),
{
    broadcast use vstd::seq_lib::to_multiset_contains, vstd::multiset::group_multiset_axioms;
    if s.len() == 0 {
    } else if le(s.last(), x) {
        let r = s.push(x);
        assert forall|i: int, j: int| 0 <= i < j < r.len() implies le(#[trigger] r[i], #[trigger] r[j]) by {
            if j == s.len() {
                if i < s.len() - 1 {
                    assert(le(s[i], s[s.len() - 1]));
                }
            } else {
                assert(le(s[i], s[j]));
            }
        }
    } else {
        let t = s.drop_last();
        let last = s.last();
        assert(le(x, last));
        assert(ordered(t, le)) by {
            assert forall|i: int, j: int| 0 <= i < j < t.len() implies le(#[trigger] t[i], #[trigger] t[j]) by {
                assert(le(s[i], s[j]));
            }
        }
        lemma_insert_keeps_order(t, x, le);
        let u = insert_ordered(t, x, le);
        lemma_insert_ordered_multiset(t, x, le);
        let r = u.push(last);
        assert forall|i: int, j: int| 0 <= i < j < r.len() implies le(#[trigger] r[i], #[trigger] r[j]) by {
            if j == u.len() {
                let e = u[i];
                assert(u.contains(e));
                assert(u.to_multiset().count(e) > 0);
                if e != x {
                    assert(t.to_multiset().count(e) > 0);
                    assert(t.contains(e));
                    let k = choose|k: int| 0 <= k < t.len() && t[k] == e;
                    assert(le(s[k], s[s.len() - 1]));
                }
            } else {
                assert(r[i] == u[i] && r[j] == u[j]);
            }
        }
    }
}

/// Sorting by a total preorder orders the elements.
pub proof fn lemma_sort_orders<T>(s: Seq<T>, le: spec_fn(T, T) -> bool)
    requires
        total_preorder(le),
    ensures
        ordered(stable_sort(s, le), le),
    decreases s.len(),
{
    if s.len() > 0 {
        lemma_sort_orders(s.drop_last(), le);
        lemma_insert_keeps_order(stable_sort(s.drop_last(), le), s.last(), le);
    }
}

/// Lexicographic order of texts by code point, which is the order of their
/// UTF-8 bytes (`Ord for str`).
pub open spec fn text_le(a: Seq<char>, b: Seq<char>) -> bool
    decreases a.len(),
{
    if a.len() == 0 {
        true
    } else if b.len() == 0 {
        false
    } else if a[0] != b[0] {
        a[0] < b[0]
    } else {
        text_le(a.drop_first(), b.drop_first())
    }
}

pub proof fn lemma_text_le_total(a: Seq<char>, b: Seq<char>)
    ensures
        text_le(a, b) || text_le(b, a),
    decreases a.len(),
{
    if a.len() > 0 && b.len() > 0 && a[0] == b[0] {
        lemma_text_le_total(a.drop_first(), b.drop_first());
    }
}

pub proof fn lemma_text_le_transitive(a: Seq<char>, b: Seq<char>, c: Seq<char>)
    requires
        text_le(a, b),
        text_le(b, c),
    ensures
        text_le(a, c),
    decreases a.len(),
{
    if a.len() > 0 && b.len() > 0 && c.len() > 0 && a[0] == b[0] && b[0] == c[0] {
        lemma_text_le_transitive(a.drop_first(), b.drop_first(), c.drop_first());
    }
}

/// Text order is a total preorder.
pub proof fn lemma_text_order()
    ensures
        forall|a: Seq<char>, b: Seq<char>| #[trigger] text_le(a, b) || text_le(b, a),
        forall|a: Seq<char>, b: Seq<char>, c: Seq<char>|
            #[trigger] text_le(a, b) && #[trigger] text_le(b, c) ==> text_le(a, c),
{
    assert forall|a: Seq<char>, b: Seq<char>| #[trigger] text_le(a, b) || text_le(b, a) by {
        lemma_text_le_total(a, b);
    }
    assert forall|a: Seq<char>, b: Seq<char>, c: Seq<char>|
        #[trigger] text_le(a, b) && #[trigger] text_le(b, c) implies text_le(a, c) by {
        lemma_text_le_transitive(a, b, c);
    }
}

/// `a <= b` for strings.
pub fn text_leq(a: &[char], b: &[char]) -> (r: bool)
    ensures
        r == text_le(a@, b@),
{
    let mut i: usize = 0;
    assert(a@.skip(0) =~= a@);
    assert(b@.skip(0) =~= b@);
    while i < a.len() && i < b.len() && a[i] == b[i]
        invariant
            i <= a@.len(),
            i <= b@.len(),
            text_le(a@, b@) == text_le(a@.skip(i as int), b@.skip(i as int)),
        decreases a.len() - i,
    {
        assert(a@.skip(i as int).drop_first() =~= a@.skip(i + 1));
        assert(b@.skip(i as int).drop_first() =~= b@.skip(i + 1));
        i = i + 1;
    }
    if i == a.len() {
        assert(a@.skip(i as int).len() == 0);
        true
    } else if i == b.len() {
        assert(b@.skip(i as int).len() == 0);
        false
    } else {
        assert(a@.skip(i as int)[0] == a@[i as int]);
        assert(b@.skip(i as int)[0] == b@[i as int]);
        a[i] < b[i]
    }
}

/// How a listing is ordered.
#[derive(Clone, Copy, PartialEq, Eq, Structural)]
pub enum SortKey {
    /// By the number under `pid`, 0 where there is none.
    Pid,
    /// By the text under `name`, empty where there is none.
    Name,
}

pub open spec fn pid_key(r: RecordView) -> u64 {
    match field(r, "pid"@) {
        Some(ValueView::Count(n)) => n,
        _ => 0,
    }
}

pub open spec fn name_key(r: RecordView) -> Seq<char> {
    match text_field(r, "name"@) {
        Some(s) => s,
        None => Seq::empty(),
    }
}

/// Whether `a` may come before `b` in a listing ordered by `by`.
pub open spec fn record_le(by: SortKey) -> spec_fn(RecordView, RecordView) -> bool {
    |a: RecordView, b: RecordView| match by {
        SortKey::Pid => pid_key(a) <= pid_key(b),
        SortKey::Name => text_le(name_key(a), name_key(b)),
    }
}

/// Both listing orders are total preorders.
pub proof fn lemma_record_order(by: SortKey)
    ensures
        total_preorder(record_le(by)),
{
    lemma_text_order();
    let le = record_le(by);
    assert forall|a: RecordView, b: RecordView| #[trigger] le(a, b) || le(b, a) by {}
    assert forall|a: RecordView, b: RecordView, c: RecordView| #[trigger] le(a, b) && #[trigger] le(b, c) implies le(a, c) by {}
}

fn record_leq(a: &Vec<Field>, b: &Vec<Field>, by: SortKey) -> (r: bool)
    ensures
        r == record_le(by)(record_view(a@), record_view(b@)),
{
    match by {
        SortKey::Pid => {
            let ka = match get_count(a, "pid") { Some(n) => n, None => 0 };
            let kb = match get_count(b, "pid") { Some(n) => n, None => 0 };
            ka <= kb
        },
        SortKey::Name => {
            let na = match get_text(a, "name") { Some(s) => crate::text::to_chars(s.as_str()), None => Vec::new() };
            let nb = match get_text(b, "name") { Some(s) => crate::text::to_chars(s.as_str()), None => Vec::new() };
            assert(na@ == name_key(record_view(a@)));
            assert(nb@ == name_key(record_view(b@)));
            text_leq(na.as_slice(), nb.as_slice())
        },
    }
}

/// Sorts records stably (`sort_by` / `sort_by_key`).
pub fn sort_records(rs: Vec<Vec<Field>>, by: SortKey) -> (out: Vec<Vec<Field>>)
    ensures
        records_view(out@) == stable_sort(records_view(rs@), record_le(by)),
{
    let ghost all = records_view(rs@);
    let ghost le = record_le(by);
    let n = rs.len();
    let mut rest = rs;
    let mut out: Vec<Vec<Field>> = Vec::new();
    let mut k: usize = 0;
    assert(all.take(0) =~= Seq::<RecordView>::empty());
    assert(records_view(rest@) =~= all.skip(0));
    assert(records_view(out@) =~= stable_sort(all.take(0), le));
    while rest.len() > 0
        invariant
            k <= all.len(),
            all.len() == n,
            rest@.len() + k == all.len(),
            le == record_le(by),
            records_view(rest@) == all.skip(k as int),
            records_view(out@) == stable_sort(all.take(k as int), le),
        decreases rest.len(),
    {
        let ghost before = rest@;
        assert(records_view(before)[0] == all[k as int]);
        let x = rest.remove(0);
        assert(x == before[0]);
        assert(records_view(rest@) =~= all.skip(k + 1)) by {
            assert forall|i: int| 0 <= i < rest@.len() implies #[trigger] records_view(rest@)[i] == all.skip(k + 1)[i] by {
                assert(rest@[i] == before[i + 1]);
                assert(records_view(before)[i + 1] == all.skip(k as int)[i + 1]);
            }
        }
        assert(record_view(x@) == all[k as int]);
        let ghost sorted = records_view(out@);
        let mut j: usize = out.len();
        while j > 0 && !record_leq(&out[j - 1], &x, by)
            invariant
                j <= out@.len(),
                le == record_le(by),
                sorted == records_view(out@),
                forall|m: int| j <= m < sorted.len() ==> !le(#[trigger] sorted[m], record_view(x@)),
            decreases j,
        {
            j = j - 1;
        }
        proof {
            lemma_insert_at(sorted, record_view(x@), le, j as int);
        }
        out.insert(j, x);
        assert(records_view(out@) =~= sorted.take(j as int).push(all[k as int]) + sorted.skip(j as int));
        assert(all.take(k + 1).drop_last() =~= all.take(k as int));
        k = k + 1;
    }
    assert(all.take(k as int) =~= all);
    out
}

} // verus!
