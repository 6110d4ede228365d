//! The value model: the tagged-union result type of parsing a descriptor,
//! together with its specification-level mirror.

use vstd::prelude::*;

verus! {

/// Specification-level mirror of a key: the dialect allows string and
/// integer keys.
pub ghost enum SpecKey {
    Str(Seq<char>),
    Int(int),
}

/// Specification-level mirror of a value tree. An object is modelled as a
/// mathematical map, since key order is irrelevant and keys are unique.
/// A float is carried as its lexeme: the core never computes with it.
pub ghost enum SpecValue {
    Int(int),
    Float(Seq<char>),
    Str(Seq<char>),
    Bool(bool),
    Null,
    Array(Seq<SpecValue>),
    Object(Map<SpecKey, SpecValue>),
}

/// A key of an object in a parsed value tree.
#[derive(Debug, Clone, PartialEq, Eq, Hash)]
pub enum DictKey {
    Str(String),
    Int(i64),
}

/// A value in a parsed tree: the dialect's dynamically typed values.
/// A float keeps its lexeme; numeric interpretation is not the parser's
/// concern and the metadata layer only reads strings.
#[derive(Debug, PartialEq)]
pub enum ParsedValue {
    Int(i64),
    Float(String),
    Str(String),
    Bool(bool),
    Null,
    Array(Vec<ParsedValue>),
    Object(Vec<(DictKey, ParsedValue)>),
}

pub open spec fn key_view(k: DictKey) -> SpecKey {
    match k {
        DictKey::Str(s) => SpecKey::Str(s@),
        DictKey::Int(i) => SpecKey::Int(i as int),
    }
}

pub open spec fn value_view(v: ParsedValue) -> SpecValue
    decreases v,
    via value_view_decreases
{
    match v {
        ParsedValue::Int(i) => SpecValue::Int(i as int),
        ParsedValue::Float(s) => SpecValue::Float(s@),
        ParsedValue::Str(s) => SpecValue::Str(s@),
        ParsedValue::Bool(b) => SpecValue::Bool(b),
        ParsedValue::Null => SpecValue::Null,
        ParsedValue::Array(elems) => SpecValue::Array(values_view(elems@)),
        ParsedValue::Object(entries) => SpecValue::Object(entries_view(entries@)),
    }
}

#[via_fn]
proof fn value_view_decreases(v: ParsedValue) {
    match v {
        ParsedValue::Array(elems) => {
            assert(decreases_to!(v => elems));
            assert(decreases_to!(elems => elems@));
        },
        ParsedValue::Object(entries) => {
            assert(decreases_to!(v => entries));
            assert(decreases_to!(entries => entries@));
        },
        _ => (),
    }
}

/// Elementwise view of a sequence of values.
pub open spec fn values_view(s: Seq<ParsedValue>) -> Seq<SpecValue>
    decreases s,
    via values_view_decreases
{
    if s.len() == 0 {
        Seq::empty()
    } else {
        values_view(s.drop_last()).push(value_view(s.last()))
    }
}

#[via_fn]
proof fn values_view_decreases(s: Seq<ParsedValue>) {
    if s.len() != 0 {
        assert(decreases_to!(s => s.drop_last()));
        assert(decreases_to!(s => s[s.len() - 1]));
    }
}

/// The map bound by a sequence of entries, later entries overriding
/// earlier ones (the parser keeps keys unique, so no override actually
/// happens in a parsed tree).
pub open spec fn entries_view(s: Seq<(DictKey, ParsedValue)>) -> Map<SpecKey, SpecValue>
    decreases s,
    via entries_view_decreases
{
    if s.len() == 0 {
        Map::empty()
    } else {
        entries_view(s.drop_last()).insert(key_view(s.last().0), value_view(s.last().1))
    }
}

#[via_fn]
proof fn entries_view_decreases(s: Seq<(DictKey, ParsedValue)>) {
    if s.len() != 0 {
        assert(decreases_to!(s => s.drop_last()));
        assert(decreases_to!(s => s[s.len() - 1]));
    }
}

/// Elementwise view of a sequence of raw key-value pairs.
pub open spec fn pairs_seq_view(s: Seq<(DictKey, ParsedValue)>) -> Seq<(SpecKey, SpecValue)>
    decreases s,
    via pairs_seq_view_decreases
{
    if s.len() == 0 {
        Seq::empty()
    } else {
        pairs_seq_view(s.drop_last()).push((key_view(s.last().0), value_view(s.last().1)))
    }
}

#[via_fn]
proof fn pairs_seq_view_decreases(s: Seq<(DictKey, ParsedValue)>) {
    if s.len() != 0 {
        assert(decreases_to!(s => s.drop_last()));
        assert(decreases_to!(s => s[s.len() - 1]));
    }
}

pub proof fn lemma_values_view_prepend(p: ParsedValue, r: Seq<ParsedValue>)
    ensures
        values_view(seq![p] + r) == seq![value_view(p)] + values_view(r),
    decreases r.len(),
{
    if r.len() == 0 {
        reveal_with_fuel(values_view, 3);
        assert((seq![p] + r) =~= seq![p]);
        assert(seq![p].drop_last() =~= Seq::<ParsedValue>::empty());
        assert(values_view(seq![p] + r) =~= seq![value_view(p)] + values_view(r));
    } else {
        lemma_values_view_prepend(p, r.drop_last());
        assert((seq![p] + r).drop_last() =~= seq![p] + r.drop_last());
        assert((seq![p] + r).last() == r.last());
        assert(values_view(seq![p] + r) =~= seq![value_view(p)] + values_view(r));
    }
}

pub proof fn lemma_pairs_seq_view_prepend(p: (DictKey, ParsedValue), r: Seq<(DictKey, ParsedValue)>)
    ensures
        pairs_seq_view(seq![p] + r) == seq![(key_view(p.0), value_view(p.1))] + pairs_seq_view(r),
    decreases r.len(),
{
    if r.len() == 0 {
        reveal_with_fuel(pairs_seq_view, 3);
        assert((seq![p] + r) =~= seq![p]);
        assert(seq![p].drop_last() =~= Seq::<(DictKey, ParsedValue)>::empty());
        assert(pairs_seq_view(seq![p] + r) =~= seq![(key_view(p.0), value_view(p.1))]
            + pairs_seq_view(r));
    } else {
        lemma_pairs_seq_view_prepend(p, r.drop_last());
        assert((seq![p] + r).drop_last() =~= seq![p] + r.drop_last());
        assert((seq![p] + r).last() == r.last());
        assert(pairs_seq_view(seq![p] + r) =~= seq![(key_view(p.0), value_view(p.1))]
            + pairs_seq_view(r));
    }
}

/// The elementwise view indexes pointwise.
pub proof fn lemma_values_view_index(s: Seq<ParsedValue>)
    ensures
        values_view(s).len() == s.len(),
        forall|i: int| 0 <= i < s.len() ==> values_view(s)[i] == value_view(#[trigger] s[i]),
    decreases s.len(),
{
    if s.len() > 0 {
        lemma_values_view_index(s.drop_last());
        assert forall|i: int| 0 <= i < s.len() implies values_view(s)[i] == value_view(
            #[trigger] s[i],
        ) by {
            if i < s.len() - 1 {
                assert(s.drop_last()[i] == s[i]);
                assert(values_view(s)[i] == values_view(s.drop_last())[i]);
            } else {
                assert(s[i] == s.last());
            }
        }
    }
}

/// No two entries bind the same key.
pub open spec fn unique_keys(s: Seq<(DictKey, ParsedValue)>) -> bool {
    forall|p: int, q: int|
        0 <= p < q < s.len() ==> key_view(#[trigger] s[p].0) != key_view(#[trigger] s[q].0)
}

/// The duplicate-key merge rule of the dialect: binding `k` to `v` in `m`
/// inserts it when `k` is unbound; appends `v` when `k` is already bound to
/// an array; and otherwise replaces the binding by the two-element array of
/// the old and the new value.
pub open spec fn merge_into(m: Map<SpecKey, SpecValue>, k: SpecKey, v: SpecValue) -> Map<
    SpecKey,
    SpecValue,
> {
    if !m.contains_key(k) {
        m.insert(k, v)
    } else {
        match m[k] {
            SpecValue::Array(a) => m.insert(k, SpecValue::Array(a.push(v))),
            _ => m.insert(k, SpecValue::Array(seq![m[k], v])),
        }
    }
}

/// The object bound by a sequence of raw pairs, merged left to right under
/// the duplicate-key rule.
pub open spec fn merge_pairs(ps: Seq<(SpecKey, SpecValue)>) -> Map<SpecKey, SpecValue>
    decreases ps.len(),
{
    if ps.len() == 0 {
        Map::empty()
    } else {
        merge_into(merge_pairs(ps.drop_last()), ps.last().0, ps.last().1)
    }
}

/// A key is bound by a sequence of entries exactly when some entry carries it.
pub proof fn lemma_entries_view_contains(s: Seq<(DictKey, ParsedValue)>, k: SpecKey)
    ensures
        entries_view(s).contains_key(k) <==> exists|i: int|
            0 <= i < s.len() && key_view(#[trigger] s[i].0) == k,
    decreases s.len(),
{
    if s.len() > 0 {
        lemma_entries_view_contains(s.drop_last(), k);
        if key_view(s.last().0) == k {
            assert(key_view(s[s.len() - 1].0) == k);
        } else {
            if exists|i: int| 0 <= i < s.len() && key_view(#[trigger] s[i].0) == k {
                let i = choose|i: int| 0 <= i < s.len() && key_view(#[trigger] s[i].0) == k;
                assert(i < s.len() - 1);
                assert(key_view(s.drop_last()[i].0) == k);
            }
        }
    }
}

/// The value bound to the key of entry `i` is that entry's value, provided
/// no later entry carries the same key.
pub proof fn lemma_entries_view_get(s: Seq<(DictKey, ParsedValue)>, i: int)
    requires
        0 <= i < s.len(),
        forall|j: int| i < j < s.len() ==> key_view(#[trigger] s[j].0) != key_view(s[i].0),
    ensures
        entries_view(s).contains_key(key_view(s[i].0)),
        entries_view(s)[key_view(s[i].0)] == value_view(s[i].1),
    decreases s.len(),
{
    if i == s.len() - 1 {
    } else {
        assert(key_view(s.last().0) != key_view(s[i].0));
        assert(s.drop_last()[i] == s[i]);
        assert(forall|j: int|
            i < j < s.drop_last().len() ==> key_view(#[trigger] s.drop_last()[j].0) != key_view(
                s.drop_last()[i].0,
            ));
        lemma_entries_view_get(s.drop_last(), i);
    }
}

/// Replacing the value of entry `i` updates exactly that key's binding,
/// provided keys are unique.
pub proof fn lemma_entries_view_update(s: Seq<(DictKey, ParsedValue)>, i: int, v: ParsedValue)
    requires
        0 <= i < s.len(),
        unique_keys(s),
    ensures
        entries_view(s.update(i, (s[i].0, v))) == entries_view(s).insert(
            key_view(s[i].0),
            value_view(v),
        ),
    decreases s.len(),
{
    let t = s.update(i, (s[i].0, v));
    if i == s.len() - 1 {
        assert(t.drop_last() =~= s.drop_last());
        assert(t.last() == (s[i].0, v));
        assert(entries_view(t) =~= entries_view(s).insert(key_view(s[i].0), value_view(v)));
    } else {
        assert(t.drop_last() =~= s.drop_last().update(i, (s[i].0, v)));
        assert(s.drop_last()[i] == s[i]);
        lemma_entries_view_update(s.drop_last(), i, v);
        assert(t.last() == s.last());
        assert(key_view(s.last().0) != key_view(s[i].0));
        assert(entries_view(t) =~= entries_view(s).insert(key_view(s[i].0), value_view(v)));
    }
}

/// Whether two keys spell the same abstract key.
pub fn dict_key_eq(a: &DictKey, b: &DictKey) -> (r: bool)
    ensures
        r == (a@ == b@),
{
    match (a, b) {
        (DictKey::Str(x), DictKey::Str(y)) => crate::strutil::string_eq_str(x, y.as_str()),
        (DictKey::Int(x), DictKey::Int(y)) => x == y,
        _ => false,
    }
}

/// The value bound to string key `key`, if any: the merge rule keeps at most
/// one binding per key, and in any case the last entry with the key is the
/// bound one.
pub fn object_get<'a>(entries: &'a Vec<(DictKey, ParsedValue)>, key: &str) -> (r: Option<
    &'a ParsedValue,
>)
    ensures
        match r {
            Some(v) => entries_view(entries@).contains_key(SpecKey::Str(key@)) && value_view(*v)
                == entries_view(entries@)[SpecKey::Str(key@)],
            None => !entries_view(entries@).contains_key(SpecKey::Str(key@)),
        },
{
    let mut i: usize = entries.len();
    while i > 0
        invariant
            i <= entries@.len(),
            forall|j: int|
                i <= j < entries@.len() ==> key_view(#[trigger] entries@[j].0) != SpecKey::Str(
                    key@,
                ),
        decreases i,
    {
        i = i - 1;
        let entry = &entries[i];
        match &entry.0 {
            DictKey::Str(s) => {
                if crate::strutil::string_eq_str(s, key) {
                    proof {
                        lemma_entries_view_get(entries@, i as int);
                    }
                    return Some(&entry.1);
                }
            },
            DictKey::Int(_) => {},
        }
    }
    proof {
        lemma_entries_view_contains(entries@, SpecKey::Str(key@));
    }
    None
}

/// Binds `key` to `val` under the duplicate-key merge rule, keeping keys
/// unique and first-occurrence entry order.
pub fn object_insert(entries: &mut Vec<(DictKey, ParsedValue)>, key: DictKey, val: ParsedValue)
    requires
        unique_keys(old(entries)@),
    ensures
        unique_keys(final(entries)@),
        entries_view(final(entries)@) == merge_into(
            entries_view(old(entries)@),
            key_view(key),
            value_view(val),
        ),
{
    let ghost s0 = entries@;
    let mut i: usize = 0;
    while i < entries.len()
        invariant
            entries@ == s0,
            s0 == old(entries)@,
            unique_keys(s0),
            i <= s0.len(),
            forall|j: int| 0 <= j < i ==> key_view(#[trigger] s0[j].0) != key_view(key),
        decreases s0.len() - i,
    {
        let hit = dict_key_eq(&entries[i].0, &key);
        if hit {
            proof {
                assert(forall|j: int|
                    (i as int) < j < s0.len() ==> key_view(#[trigger] s0[j].0) != key_view(
                        s0[i as int].0,
                    ));
                lemma_entries_view_get(s0, i as int);
            }
            proof {
                assert(key_view(key) == key_view(s0[i as int].0));
                assert(entries_view(s0).contains_key(key_view(key)));
                assert(entries_view(s0)[key_view(key)] == value_view(s0[i as int].1));
            }
            let (k_old, v_old) = entries.remove(i);
            proof {
                assert(k_old == s0[i as int].0);
                assert(v_old == s0[i as int].1);
            }
            let ghost v_old0 = v_old;
            let merged: ParsedValue = match v_old {
                ParsedValue::Array(mut a) => {
                    let ghost a0 = a@;
                    a.push(val);
                    proof {
                        assert(a@.drop_last() =~= a0);
                        assert(values_view(a@) =~= values_view(a0).push(value_view(
                            a@[a@.len() - 1],
                        )));
                    }
                    ParsedValue::Array(a)
                },
                other => {
                    let ghost old_v = other;
                    let mut two: Vec<ParsedValue> = Vec::new();
                    two.push(other);
                    two.push(val);
                    proof {
                        reveal_with_fuel(values_view, 3);
                        assert(two@.drop_last().drop_last() =~= Seq::<ParsedValue>::empty());
                        assert(two@.drop_last().last() == old_v);
                        assert(values_view(two@.drop_last()) =~= seq![value_view(old_v)]);
                        assert(values_view(two@) =~= seq![value_view(old_v), value_view(val)]);
                    }
                    ParsedValue::Array(two)
                },
            };
            proof {
                assert(value_view(merged) == (match value_view(v_old0) {
                    SpecValue::Array(a) => SpecValue::Array(a.push(value_view(val))),
                    _ => SpecValue::Array(seq![value_view(v_old0), value_view(val)]),
                }));
            }
            entries.insert(i, (k_old, merged));
            proof {
                assert(entries@ =~= s0.update(i as int, (s0[i as int].0, merged)));
                lemma_entries_view_update(s0, i as int, merged);
                assert(unique_keys(entries@));
                assert(entries_view(entries@) =~= merge_into(
                    entries_view(s0),
                    key_view(key),
                    value_view(val),
                ));
            }
            return ;
        }
        i = i + 1;
    }
    proof {
        lemma_entries_view_contains(s0, key_view(key));
        assert(!entries_view(s0).contains_key(key_view(key)));
    }
    entries.push((key, val));
    proof {
        assert(entries@.drop_last() =~= s0);
        assert(entries_view(entries@) =~= entries_view(s0).insert(key_view(key), value_view(val)));
        assert(unique_keys(entries@));
    }
}

impl View for DictKey {
    type V = SpecKey;

    open spec fn view(&self) -> SpecKey {
        key_view(*self)
    }
}

impl ParsedValue {
    /// The owned string content, when this is a string value.
    pub fn as_string(&self) -> (r: Option<String>)
        ensures
            match r {
                Some(s) => self@ == SpecValue::Str(s@),
                None => !(self@ is Str),
            },
    {
        match self {
            ParsedValue::Str(s) => Some(s.clone()),
            _ => None,
        }
    }

    /// The string content, when this is a string value.
    pub fn as_str(&self) -> (r: Option<&str>)
        ensures
            match r {
                Some(s) => self@ == SpecValue::Str(s@),
                None => !(self@ is Str),
            },
    {
        match self {
            ParsedValue::Str(s) => Some(s.as_str()),
            _ => None,
        }
    }

    /// The elements, when this is an array.
    pub fn as_array(&self) -> (r: Option<&Vec<ParsedValue>>)
        ensures
            match r {
                Some(a) => self@ == SpecValue::Array(values_view(a@)),
                None => !(self@ is Array),
            },
    {
        match self {
            ParsedValue::Array(a) => Some(a),
            _ => None,
        }
    }

    /// The entries, when this is an object.
    pub fn as_map(&self) -> (r: Option<&Vec<(DictKey, ParsedValue)>>)
        ensures
            match r {
                Some(m) => self@ == SpecValue::Object(entries_view(m@)),
                None => !(self@ is Object),
            },
    {
        match self {
            ParsedValue::Object(m) => Some(m),
            _ => None,
        }
    }
}

impl View for ParsedValue {
    type V = SpecValue;

    open spec fn view(&self) -> SpecValue {
        value_view(*self)
    }
}

} // verus!
