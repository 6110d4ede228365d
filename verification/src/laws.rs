//! Laws of the library, each proved against the specifications that the
//! public functions' contracts are stated over.

use vstd::prelude::*;
use crate::value::SpecKey;
use crate::value::SpecValue;
use crate::value::merge_pairs;
use crate::parser::is_space_char;
use crate::parser::is_word_char;
use crate::parser::is_int_lexeme;
use crate::parser::is_float_lexeme;
use crate::parser::yes_chars;
use crate::parser::no_chars;
use crate::parser::coerce_word;
use crate::parser::key_of_word;
use crate::parser::skip_ws;
use crate::parser::skip_line_ws;
use crate::parser::scan_word;
use crate::parser::scan_quote;
use crate::parser::sp_key;
use crate::parser::sp_value;
use crate::parser::sp_block;
use crate::parser::sp_pair;
use crate::parser::sp_pairs;
use crate::parser::sp_items;
use crate::parser::sp_top;
use crate::parser::doc_fuel;
use crate::parser::spec_parse_doc;
use crate::manager::SpecModule;
use crate::manager::SpecDependency;
use crate::manager::spec_placeholder;
use crate::manager::spec_resolve;
use crate::meta::spec_extract;
use crate::meta::opt_str_field;
use crate::meta::ExtractError;
use crate::meta::SpecMeta;

verus! {

proof fn lemma_skip_ws_run(s: Seq<char>, i: int, j: int)
    requires
        0 <= i <= j <= s.len(),
        forall|k: int| i <= k < j ==> is_space_char(#[trigger] s[k]),
        j == s.len() || !is_space_char(s[j]),
    ensures
        skip_ws(s, i) == j,
    decreases j - i,
{
    if i < j {
        lemma_skip_ws_run(s, i + 1, j);
    }
}

proof fn lemma_scan_word_run(s: Seq<char>, i: int, j: int)
    requires
        0 <= i <= j <= s.len(),
        forall|k: int| i <= k < j ==> is_word_char(#[trigger] s[k]),
        j == s.len() || !is_word_char(s[j]),
    ensures
        scan_word(s, i) == j,
    decreases j - i,
{
    if i < j {
        lemma_scan_word_run(s, i + 1, j);
    }
}

proof fn lemma_scan_quote_run(s: Seq<char>, i: int, j: int)
    requires
        0 <= i <= j <= s.len(),
        forall|k: int| i <= k < j ==> #[trigger] s[k] != '"',
        j == s.len() || s[j] == '"',
    ensures
        scan_quote(s, i) == j,
    decreases j - i,
{
    if i < j {
        lemma_scan_quote_run(s, i + 1, j);
    }
}

proof fn lemma_merge_singleton(p: (SpecKey, SpecValue))
    ensures
        merge_pairs(seq![p]) == Map::<SpecKey, SpecValue>::empty().insert(p.0, p.1),
{
    assert(seq![p].drop_last() =~= Seq::<(SpecKey, SpecValue)>::empty());
    assert(merge_pairs(Seq::<(SpecKey, SpecValue)>::empty()) =~= Map::<SpecKey,
        SpecValue,
    >::empty());
    assert(seq![p].last() == p);
    assert(merge_pairs(seq![p]) =~= Map::<SpecKey, SpecValue>::empty().insert(p.0, p.1));
}

/// A non-empty run of word characters: the shape of a bare key.
pub open spec fn bare_word(k: Seq<char>) -> bool {
    &&& k.len() > 0
    &&& forall|x: int| 0 <= x < k.len() ==> is_word_char(#[trigger] k[x])
}

/// A well-formed bare word that is not an integer lexeme, usable as a
/// string key.
pub open spec fn plain_word_key(k: Seq<char>) -> bool {
    &&& bare_word(k)
    &&& !is_int_lexeme(k)
}

/// Quote-free text, as a quoted token can carry it.
pub open spec fn quote_free(t: Seq<char>) -> bool {
    forall|x: int| 0 <= x < t.len() ==> #[trigger] t[x] != '"'
}

/// The text of the pair `k="t"`.
pub open spec fn quoted_pair_text(k: Seq<char>, t: Seq<char>) -> Seq<char> {
    k + seq!['=', '"'] + t + seq!['"']
}

proof fn lemma_quoted_pair_text_chars(k: Seq<char>, t: Seq<char>)
    ensures
        quoted_pair_text(k, t).len() == k.len() + t.len() + 3,
        forall|x: int| 0 <= x < k.len() ==> quoted_pair_text(k, t)[x] == #[trigger] k[x],
        quoted_pair_text(k, t)[k.len() as int] == '=',
        quoted_pair_text(k, t)[k.len() as int + 1] == '"',
        forall|x: int|
            0 <= x < t.len() ==> quoted_pair_text(k, t)[k.len() as int + 2 + x] == #[trigger] t[x],
        quoted_pair_text(k, t)[k.len() as int + t.len() as int + 2] == '"',
{
    let m = seq!['=', '"'];
    let q = seq!['"'];
    let w = quoted_pair_text(k, t);
    assert(w =~= k + m + t + q);
    assert forall|x: int| 0 <= x < k.len() implies w[x] == #[trigger] k[x] by {
        assert((k + m)[x] == k[x]);
        assert((k + m + t)[x] == (k + m)[x]);
        assert(w[x] == (k + m + t)[x]);
    }
    assert((k + m)[k.len() as int] == '=');
    assert((k + m + t)[k.len() as int] == (k + m)[k.len() as int]);
    assert(w[k.len() as int] == (k + m + t)[k.len() as int]);
    assert((k + m)[k.len() as int + 1] == '"');
    assert((k + m + t)[k.len() as int + 1] == (k + m)[k.len() as int + 1]);
    assert(w[k.len() as int + 1] == (k + m + t)[k.len() as int + 1]);
    assert forall|x: int| 0 <= x < t.len() implies w[k.len() as int + 2 + x] == #[trigger] t[x] by {
        assert((k + m + t)[k.len() as int + 2 + x] == t[x]);
        assert(w[k.len() as int + 2 + x] == (k + m + t)[k.len() as int + 2 + x]);
    }
    assert(w[k.len() as int + t.len() as int + 2] == q[0]);
}

proof fn lemma_parse_quoted_pair_at(s: Seq<char>, i: int, k: Seq<char>, t: Seq<char>, fuel: nat)
    requires
        0 <= i,
        i + k.len() + t.len() + 3 <= s.len(),
        s.subrange(i, i + k.len() + t.len() + 3) == quoted_pair_text(k, t),
        bare_word(k),
        quote_free(t),
        fuel >= 2,
    ensures
        sp_pair(s, i, fuel) == Ok::<((SpecKey, SpecValue), int), int>(
            ((key_of_word(k), SpecValue::Str(t)), i + k.len() + t.len() + 3),
        ),
{
    let w = quoted_pair_text(k, t);
    let e = i + k.len() as int;
    let stop = i + k.len() + t.len() + 3;
    lemma_quoted_pair_text_chars(k, t);
    assert forall|x: int| 0 <= x < w.len() implies s[i + x] == w[x] by {
        assert(s.subrange(i, stop)[x] == s[i + x]);
    }
    assert forall|x: int| i <= x < e implies is_word_char(#[trigger] s[x]) by {
        assert(s[x] == w[x - i]);
        assert(w[x - i] == k[x - i]);
    }
    assert(s[e] == '=' && s[e + 1] == '"');
    assert forall|x: int| e + 2 <= x < e + 2 + t.len() implies #[trigger] s[x] != '"' by {
        assert(s[x] == w[x - i]);
        assert(w[x - i] == t[x - (e + 2)]);
    }
    assert(s[e + 2 + t.len()] == '"');
    // the key
    assert(is_word_char(s[i]) && s[i] != '"');
    lemma_scan_word_run(s, i, e);
    assert(s.subrange(i, e) =~= k);
    assert(sp_key(s, i) == Ok::<(SpecKey, int), int>((key_of_word(k), e)));
    // around the equals sign
    assert(skip_ws(s, e) == e);
    assert(skip_ws(s, e + 1) == e + 1);
    // the quoted value
    lemma_scan_quote_run(s, e + 2, e + 2 + t.len() as int);
    assert(s.subrange(e + 2, e + 2 + t.len() as int) =~= t);
    assert(sp_value(s, e + 1, (fuel - 1) as nat) == Ok::<(SpecValue, int), int>(
        (SpecValue::Str(t), stop),
    ));
}

/// Round trip of the identity case: parsing a lone `key="text"` line binds
/// exactly that key to exactly the quoted text, unchanged. Any bare word
/// serves as the key — a numeric spelling binds as an integer key — and a
/// non-numeric word binds as the string key of its own characters.
pub proof fn lemma_single_quoted_pair_round_trip(k: Seq<char>, t: Seq<char>)
    requires
        bare_word(k),
        quote_free(t),
    ensures
        spec_parse_doc(quoted_pair_text(k, t)) == Ok::<Map<SpecKey, SpecValue>, int>(
            Map::<SpecKey, SpecValue>::empty().insert(key_of_word(k), SpecValue::Str(t)),
        ),
        !is_int_lexeme(k) ==> spec_parse_doc(quoted_pair_text(k, t)) == Ok::<
            Map<SpecKey, SpecValue>,
            int,
        >(Map::<SpecKey, SpecValue>::empty().insert(SpecKey::Str(k), SpecValue::Str(t))),
{
    let s = quoted_pair_text(k, t);
    let fuel = doc_fuel(s);
    let end = k.len() + t.len() + 3;
    lemma_quoted_pair_text_chars(k, t);
    assert(s.len() == end);
    assert(s.subrange(0, end as int) =~= s);
    assert(s[0] == k[0] && !is_space_char(s[0]));
    assert(skip_ws(s, 0) == 0);
    lemma_parse_quoted_pair_at(s, 0, k, t, (fuel - 1) as nat);
    assert(skip_line_ws(s, end as int) == end);
    let p = (key_of_word(k), SpecValue::Str(t));
    assert(sp_top(s, 0, fuel) == Ok::<(Seq<(SpecKey, SpecValue)>, int), int>(
        (seq![p], end as int),
    ));
    lemma_merge_singleton(p);
    assert(!is_int_lexeme(k) ==> key_of_word(k) == SpecKey::Str(k));
}

/// The text of the two lines `k="a"` and `k="b"`.
pub open spec fn two_line_text(k: Seq<char>, a: Seq<char>, b: Seq<char>) -> Seq<char> {
    quoted_pair_text(k, a) + seq!['\n'] + quoted_pair_text(k, b)
}

/// The duplicate-key merge law: a key bound twice, on two lines, is bound
/// to the two-element array of both values, in order — while a key bound
/// once is bound to its bare value, never wrapped
/// ([`lemma_single_quoted_pair_round_trip`]).
#[verifier::rlimit(60)]
pub proof fn lemma_duplicate_key_two_lines(k: Seq<char>, a: Seq<char>, b: Seq<char>)
    requires
        plain_word_key(k),
        quote_free(a),
        quote_free(b),
    ensures
        spec_parse_doc(two_line_text(k, a, b)) == Ok::<Map<SpecKey, SpecValue>, int>(
            Map::<SpecKey, SpecValue>::empty().insert(
                SpecKey::Str(k),
                SpecValue::Array(seq![SpecValue::Str(a), SpecValue::Str(b)]),
            ),
        ),
{
    let s = two_line_text(k, a, b);
    let fuel = doc_fuel(s);
    let wa = quoted_pair_text(k, a);
    let wb = quoted_pair_text(k, b);
    let p1 = k.len() + a.len() + 3;
    let len = s.len() as int;
    lemma_quoted_pair_text_chars(k, a);
    lemma_quoted_pair_text_chars(k, b);
    assert(len == p1 + 1 + k.len() + b.len() + 3);
    assert forall|x: int| 0 <= x < p1 implies s[x] == wa[x] by {
        assert((wa + seq!['\n'])[x] == wa[x]);
        assert(s[x] == (wa + seq!['\n'])[x]);
    }
    assert(s[p1 as int] == '\n') by {
        assert((wa + seq!['\n'])[p1 as int] == '\n');
        assert(s[p1 as int] == (wa + seq!['\n'])[p1 as int]);
    }
    let i2 = p1 + 1;
    assert forall|x: int| 0 <= x < wb.len() implies s[i2 + x] == wb[x] by {
        assert(s[i2 + x] == wb[x]);
    }
    assert(s.subrange(0, p1 as int) =~= wa);
    assert(s.subrange(i2 as int, len) =~= wb);
    assert(s[0] == k[0] && !is_space_char(s[0]));
    assert(skip_ws(s, 0) == 0);
    lemma_parse_quoted_pair_at(s, 0, k, a, (fuel - 1) as nat);
    assert(skip_line_ws(s, p1 as int) == p1);
    assert(s[i2 as int] == k[0] && !is_space_char(s[i2 as int]));
    assert(skip_ws(s, i2 as int) == i2);
    lemma_parse_quoted_pair_at(s, i2 as int, k, b, (fuel - 2) as nat);
    assert(skip_line_ws(s, len) == len);
    let pa = (SpecKey::Str(k), SpecValue::Str(a));
    let pb = (SpecKey::Str(k), SpecValue::Str(b));
    assert(sp_top(s, i2 as int, (fuel - 1) as nat) == Ok::<(Seq<(SpecKey, SpecValue)>, int), int>(
        (seq![pb], len),
    ));
    assert(sp_top(s, 0, fuel) == Ok::<(Seq<(SpecKey, SpecValue)>, int), int>(
        (seq![pa] + seq![pb], len),
    ));
    let ps = seq![pa] + seq![pb];
    assert(ps.drop_last() =~= seq![pa]);
    assert(ps.last() == pb);
    lemma_merge_singleton(pa);
    let m1 = Map::<SpecKey, SpecValue>::empty().insert(SpecKey::Str(k), SpecValue::Str(a));
    assert(merge_pairs(seq![pa]) =~= m1);
    assert(merge_pairs(ps) =~= m1.insert(
        SpecKey::Str(k),
        SpecValue::Array(seq![SpecValue::Str(a), SpecValue::Str(b)]),
    ));
    assert(merge_pairs(ps) =~= Map::<SpecKey, SpecValue>::empty().insert(
        SpecKey::Str(k),
        SpecValue::Array(seq![SpecValue::Str(a), SpecValue::Str(b)]),
    ));
}

/// The text of the pair `k=w` with a bare word value.
pub open spec fn bare_pair_text(k: Seq<char>, w: Seq<char>) -> Seq<char> {
    k + seq!['='] + w
}

/// The coercion law for bare words: `yes` and `no` are booleans, always;
/// any other bare word stays a string unless it is lexically an integer or
/// a float. Parsing `k=w` as a line binds the key to exactly the coercion.
pub proof fn lemma_bare_word_coercion(k: Seq<char>, w: Seq<char>)
    requires
        plain_word_key(k),
        w.len() > 0,
        forall|x: int| 0 <= x < w.len() ==> is_word_char(#[trigger] w[x]),
    ensures
        coerce_word(yes_chars()) == SpecValue::Bool(true),
        coerce_word(no_chars()) == SpecValue::Bool(false),
        w != yes_chars() && w != no_chars() && !is_int_lexeme(w) && !is_float_lexeme(w)
            ==> coerce_word(w) == SpecValue::Str(w),
        spec_parse_doc(bare_pair_text(k, w)) == Ok::<Map<SpecKey, SpecValue>, int>(
            Map::<SpecKey, SpecValue>::empty().insert(SpecKey::Str(k), coerce_word(w)),
        ),
{
    let s = bare_pair_text(k, w);
    let fuel = doc_fuel(s);
    let e = k.len() as int;
    let len = s.len() as int;
    assert(len == k.len() + 1 + w.len());
    assert forall|x: int| 0 <= x < k.len() implies s[x] == #[trigger] k[x] by {
        assert((k + seq!['='])[x] == k[x]);
        assert(s[x] == (k + seq!['='])[x]);
    }
    assert(s[e] == '=') by {
        assert((k + seq!['='])[e] == '=');
        assert(s[e] == (k + seq!['='])[e]);
    }
    assert(forall|x: int| 0 <= x < w.len() ==> s[e + 1 + x] == #[trigger] w[x]);
    assert(s[0] == k[0] && !is_space_char(s[0]));
    assert(skip_ws(s, 0) == 0);
    // the key
    assert forall|x: int| 0 <= x < e implies is_word_char(#[trigger] s[x]) by {
        assert(s[x] == k[x]);
    }
    lemma_scan_word_run(s, 0, e);
    assert(s.subrange(0, e) =~= k);
    assert(sp_key(s, 0) == Ok::<(SpecKey, int), int>((SpecKey::Str(k), e)));
    assert(skip_ws(s, e) == e);
    assert(skip_ws(s, e + 1) == e + 1);
    // the bare value
    assert forall|x: int| e + 1 <= x < len implies is_word_char(#[trigger] s[x]) by {
        assert(s[x] == w[x - (e + 1)]);
    }
    assert(is_word_char(s[e + 1]) && s[e + 1] != '"' && s[e + 1] != '{');
    lemma_scan_word_run(s, e + 1, len);
    assert(s.subrange(e + 1, len) =~= w);
    assert(sp_value(s, e + 1, (fuel - 2) as nat) == Ok::<(SpecValue, int), int>(
        (coerce_word(w), len),
    ));
    assert(sp_pair(s, 0, (fuel - 1) as nat) == Ok::<((SpecKey, SpecValue), int), int>(
        ((SpecKey::Str(k), coerce_word(w)), len),
    ));
    assert(skip_line_ws(s, len) == len);
    let p = (SpecKey::Str(k), coerce_word(w));
    assert(sp_top(s, 0, fuel) == Ok::<(Seq<(SpecKey, SpecValue)>, int), int>((seq![p], len)));
    lemma_merge_singleton(p);
    // the boolean words coerce to booleans by definition
    assert(coerce_word(yes_chars()) == SpecValue::Bool(true));
    assert(no_chars() != yes_chars()) by {
        assert(yes_chars().len() == 3 && no_chars().len() == 2);
    }
    assert(coerce_word(no_chars()) == SpecValue::Bool(false));
}

/// An empty block — the opening brace already consumed, whitespace up to
/// the closing brace — is an empty array.
pub proof fn lemma_block_empty(s: Seq<char>, i: int, j: int, fuel: nat)
    requires
        0 <= i <= j < s.len(),
        forall|x: int| i <= x < j ==> is_space_char(#[trigger] s[x]),
        s[j] == '}',
        fuel > 0,
    ensures
        sp_block(s, i, fuel) == Ok::<(SpecValue, int), int>(
            (SpecValue::Array(Seq::empty()), j + 1),
        ),
{
    lemma_skip_ws_run(s, i, j);
}

/// A block holding one bare token is an array of its coercion: the
/// pair-sequence trial fails for want of an equals sign, and the pinned
/// fallback reads the block as a value sequence.
pub proof fn lemma_block_single_token(s: Seq<char>, i: int, w: Seq<char>, fuel: nat)
    requires
        0 <= i,
        i + w.len() < s.len(),
        s.subrange(i, i + w.len() as int) == w,
        s[i + w.len()] == '}',
        w.len() > 0,
        forall|x: int| 0 <= x < w.len() ==> is_word_char(#[trigger] w[x]),
        fuel >= 3,
    ensures
        sp_block(s, i, fuel) == Ok::<(SpecValue, int), int>(
            (SpecValue::Array(seq![coerce_word(w)]), i + w.len() + 1),
        ),
{
    let e = i + w.len() as int;
    assert forall|x: int| i <= x < e implies is_word_char(#[trigger] s[x]) by {
        assert(s.subrange(i, e)[x - i] == s[x]);
        assert(w[x - i] == s[x]);
    }
    assert(s[i] == w[0]) by {
        assert(s.subrange(i, e)[0] == s[i]);
    }
    assert(!is_space_char(s[i]) && s[i] != '}' && s[i] != '"' && s[i] != '{');
    assert(skip_ws(s, i) == i);
    lemma_scan_word_run(s, i, e);
    assert(s.subrange(i, e) =~= w);
    // the pair trial fails: after the key there is no equals sign
    assert(sp_key(s, i) == Ok::<(SpecKey, int), int>((key_of_word(w), e)));
    assert(skip_ws(s, e) == e);
    assert(sp_pair(s, i, (fuel - 2) as nat) is Err);
    assert(sp_pairs(s, i, (fuel - 1) as nat) is Err);
    // the value-sequence fallback succeeds
    assert(sp_value(s, i, (fuel - 2) as nat) == Ok::<(SpecValue, int), int>((coerce_word(w), e)));
    assert(sp_items(s, i, (fuel - 1) as nat) == Ok::<(Seq<SpecValue>, int), int>(
        (seq![coerce_word(w)], e + 1),
    ));
}

/// A block holding a pair is an object: the preferred pair-sequence trial
/// succeeds.
pub proof fn lemma_block_single_pair(s: Seq<char>, i: int, k: Seq<char>, t: Seq<char>, fuel: nat)
    requires
        0 <= i,
        i + k.len() + t.len() + 3 < s.len(),
        s.subrange(i, i + k.len() + t.len() + 3) == quoted_pair_text(k, t),
        s[i + k.len() + t.len() + 3] == '}',
        plain_word_key(k),
        quote_free(t),
        fuel >= 4,
    ensures
        sp_block(s, i, fuel) == Ok::<(SpecValue, int), int>(
            (
                SpecValue::Object(
                    Map::<SpecKey, SpecValue>::empty().insert(SpecKey::Str(k), SpecValue::Str(t)),
                ),
                i + k.len() + t.len() + 4,
            ),
        ),
{
    let j = i + k.len() + t.len() + 3;
    lemma_quoted_pair_text_chars(k, t);
    assert(s[i] == k[0]) by {
        assert(s.subrange(i, j)[0] == s[i]);
    }
    assert(!is_space_char(s[i]) && s[i] != '}');
    assert(skip_ws(s, i) == i);
    lemma_parse_quoted_pair_at(s, i, k, t, (fuel - 2) as nat);
    assert(key_of_word(k) == SpecKey::Str(k));
    assert(skip_ws(s, j) == j);
    let p = (SpecKey::Str(k), SpecValue::Str(t));
    assert(sp_pairs(s, i, (fuel - 1) as nat) == Ok::<(Seq<(SpecKey, SpecValue)>, int), int>(
        (seq![p], j + 1),
    ));
    lemma_merge_singleton(p);
}

/// Resolving a dependency name with no registry entry registers a
/// placeholder under that name — invalid, only the name populated — and
/// the link records that the target was absent; the link and the registry
/// share the slot under that name.
pub proof fn lemma_missing_dependency_placeholder(
    entries: Map<Seq<char>, SpecModule>,
    n: Seq<char>,
)
    requires
        !entries.contains_key(n),
    ensures
        ({
            let r = spec_resolve(entries, seq![n], Seq::empty());
            &&& r.0 == entries.insert(n, spec_placeholder(n))
            &&& r.0.contains_key(n)
            &&& r.0[n] == spec_placeholder(n)
            &&& !r.0[n].is_valid
            &&& r.1 == seq![SpecDependency { name: n, was_present: false }]
        }),
{
    let names = seq![n];
    assert(names.first() == n);
    assert(!Seq::<Seq<char>>::empty().contains(n));
    assert(names.drop_first() =~= Seq::<Seq<char>>::empty());
    let e2 = entries.insert(n, spec_placeholder(n));
    let rec = spec_resolve(e2, names.drop_first(), Seq::<Seq<char>>::empty().push(n));
    assert(rec == (e2, Seq::<SpecDependency>::empty()));
    assert(seq![SpecDependency { name: n, was_present: false }] + rec.1 =~= seq![
        SpecDependency { name: n, was_present: false },
    ]);
}

/// Resolving the same name a second time finds the entry that the first
/// resolution made and adds no second one: there is exactly one registry
/// entry per name. (Under concurrency the same holds because the
/// check-then-insert of the registry is one atomic operation.)
pub proof fn lemma_resolve_idempotent(entries: Map<Seq<char>, SpecModule>, n: Seq<char>)
    ensures
        ({
            let first = spec_resolve(entries, seq![n], Seq::empty());
            let second = spec_resolve(first.0, seq![n], Seq::empty());
            &&& second.0 == first.0
            &&& second.1 == seq![SpecDependency { name: n, was_present: true }]
        }),
{
    let names = seq![n];
    assert(names.first() == n);
    assert(!Seq::<Seq<char>>::empty().contains(n));
    assert(names.drop_first() =~= Seq::<Seq<char>>::empty());
    let was = entries.contains_key(n);
    let e2 = if was {
        entries
    } else {
        entries.insert(n, spec_placeholder(n))
    };
    let rec = spec_resolve(e2, names.drop_first(), Seq::<Seq<char>>::empty().push(n));
    assert(rec == (e2, Seq::<SpecDependency>::empty()));
    let first = spec_resolve(entries, names, Seq::empty());
    assert(first.0 == e2);
    assert(first.0.contains_key(n));
    let rec2 = spec_resolve(first.0, names.drop_first(), Seq::<Seq<char>>::empty().push(n));
    assert(rec2 == (first.0, Seq::<SpecDependency>::empty()));
    assert(seq![SpecDependency { name: n, was_present: true }] + rec2.1 =~= seq![
        SpecDependency { name: n, was_present: true },
    ]);
}

/// A descriptor whose top-level object has no string under `name` fails
/// extraction, whatever else it holds.
pub proof fn lemma_extract_missing_name(m: Map<SpecKey, SpecValue>, fallback: Seq<char>)
    requires
        opt_str_field(m, "name"@) is None,
    ensures
        spec_extract(m, fallback) == Err::<SpecMeta, ExtractError>(ExtractError::MissingName),
{
}

/// The text of a quoted token.
pub open spec fn quoted_token(t: Seq<char>) -> Seq<char> {
    seq!['"'] + t + seq!['"']
}

/// The text of quoted tokens joined by single spaces.
pub open spec fn quoted_tokens_text(ts: Seq<Seq<char>>) -> Seq<char>
    decreases ts.len(),
{
    if ts.len() == 0 {
        Seq::empty()
    } else if ts.len() == 1 {
        quoted_token(ts[0])
    } else {
        quoted_token(ts.first()) + seq![' '] + quoted_tokens_text(ts.drop_first())
    }
}

proof fn lemma_items_quoted(s: Seq<char>, i: int, ts: Seq<Seq<char>>, fuel: nat)
    requires
        0 <= i,
        ts.len() >= 1,
        forall|x: int| 0 <= x < ts.len() ==> quote_free(#[trigger] ts[x]),
        i + quoted_tokens_text(ts).len() < s.len(),
        s.subrange(i, i + quoted_tokens_text(ts).len() as int) == quoted_tokens_text(ts),
        s[i + quoted_tokens_text(ts).len()] == '}',
        fuel >= 2 * ts.len(),
    ensures
        sp_items(s, i, fuel) == Ok::<(Seq<SpecValue>, int), int>(
            (
                ts.map_values(|t: Seq<char>| SpecValue::Str(t)),
                i + quoted_tokens_text(ts).len() + 1,
            ),
        ),
    decreases ts.len(),
{
    let txt = quoted_tokens_text(ts);
    assert forall|x: int| 0 <= x < txt.len() implies s[i + x] == txt[x] by {
        assert(s.subrange(i, i + txt.len() as int)[x] == s[i + x]);
    }
    let t0 = ts[0];
    let q0 = quoted_token(t0);
    if ts.len() == 1 {
        assert(txt == q0);
        assert(s[i] == '"') by {
            assert(s[i + 0] == txt[0]);
            assert(q0[0] == (seq!['"'] + t0 + seq!['"'])[0]);
        }
        assert forall|x: int| i + 1 <= x < i + 1 + t0.len() implies #[trigger] s[x] != '"' by {
            assert(s[x] == txt[x - i]);
            assert(q0[x - i] == (seq!['"'] + t0 + seq!['"'])[x - i]);
            assert((seq!['"'] + t0 + seq!['"'])[x - i] == t0[x - i - 1]);
        }
        assert(s[i + 1 + t0.len()] == '"') by {
            assert(s[i + 1 + t0.len() as int] == txt[1 + t0.len() as int]);
            assert(q0[1 + t0.len() as int] == (seq!['"'] + t0 + seq!['"'])[1 + t0.len() as int]);
        }
        lemma_scan_quote_run(s, i + 1, i + 1 + t0.len() as int);
        assert forall|x: int| 0 <= x < t0.len() implies s.subrange(
            i + 1,
            i + 1 + t0.len() as int,
        )[x] == t0[x] by {
            assert(s[i + (1 + x)] == txt[1 + x]);
            assert(q0[1 + x] == (seq!['"'] + t0 + seq!['"'])[1 + x]);
            assert((seq!['"'] + t0 + seq!['"'])[1 + x] == t0[x]);
        }
        assert(s.subrange(i + 1, i + 1 + t0.len() as int) =~= t0);
        let j = i + txt.len() as int;
        assert(sp_value(s, i, (fuel - 1) as nat) == Ok::<(SpecValue, int), int>(
            (SpecValue::Str(t0), j),
        ));
        assert(s[j] == '}');
        assert(skip_ws(s, j) == j);
        assert(seq![SpecValue::Str(t0)] =~= ts.map_values(|t: Seq<char>| SpecValue::Str(t)));
    } else {
        let rest = ts.drop_first();
        let rest_txt = quoted_tokens_text(rest);
        assert(txt == q0 + seq![' '] + rest_txt);
        assert forall|x: int| 0 <= x < q0.len() implies s[i + x] == #[trigger] q0[x] by {
            assert(txt[x] == (q0 + seq![' '] + rest_txt)[x]);
            assert((q0 + seq![' '] + rest_txt)[x] == (q0 + seq![' '])[x]);
        }
        assert(s[i] == '"') by {
            assert(s[i + 0] == q0[0]);
            assert(q0[0] == (seq!['"'] + t0 + seq!['"'])[0]);
        }
        assert forall|x: int| i + 1 <= x < i + 1 + t0.len() implies #[trigger] s[x] != '"' by {
            assert(s[x] == q0[x - i]);
            assert(q0[x - i] == (seq!['"'] + t0 + seq!['"'])[x - i]);
            assert((seq!['"'] + t0 + seq!['"'])[x - i] == t0[x - i - 1]);
        }
        assert(s[i + 1 + t0.len()] == '"') by {
            assert(s[i + 1 + t0.len() as int] == q0[1 + t0.len() as int]);
            assert(q0[1 + t0.len() as int] == (seq!['"'] + t0 + seq!['"'])[1 + t0.len() as int]);
        }
        lemma_scan_quote_run(s, i + 1, i + 1 + t0.len() as int);
        assert forall|x: int| 0 <= x < t0.len() implies s.subrange(
            i + 1,
            i + 1 + t0.len() as int,
        )[x] == t0[x] by {
            assert(s[i + (1 + x)] == q0[1 + x]);
            assert(q0[1 + x] == (seq!['"'] + t0 + seq!['"'])[1 + x]);
            assert((seq!['"'] + t0 + seq!['"'])[1 + x] == t0[x]);
        }
        assert(s.subrange(i + 1, i + 1 + t0.len() as int) =~= t0);
        let j = i + q0.len() as int;
        assert(sp_value(s, i, (fuel - 1) as nat) == Ok::<(SpecValue, int), int>(
            (SpecValue::Str(t0), j),
        ));
        assert(s[j] == ' ') by {
            assert(s[i + (j - i)] == txt[j - i]);
            assert(txt[j - i] == (q0 + seq![' '] + rest_txt)[j - i]);
            assert((q0 + seq![' '] + rest_txt)[j - i] == (q0 + seq![' '])[j - i]);
        }
        assert(rest_txt.len() > 0) by {
            if rest.len() == 1 {
                assert(rest_txt == quoted_token(rest[0]));
            }
        }
        assert(s[j + 1] == '"') by {
            assert(s[i + (j + 1 - i)] == txt[j + 1 - i]);
            assert(txt[j + 1 - i] == (q0 + seq![' '] + rest_txt)[j + 1 - i]);
            assert(rest_txt[0] == '"') by {
                if rest.len() == 1 {
                    assert(rest_txt == quoted_token(rest[0]));
                    assert(quoted_token(rest[0])[0] == (seq!['"'] + rest[0] + seq!['"'])[0]);
                } else {
                    assert(rest_txt == quoted_token(rest.first()) + seq![' ']
                        + quoted_tokens_text(rest.drop_first()));
                    assert(rest_txt[0] == (quoted_token(rest.first()) + seq![' '])[0]);
                    assert(quoted_token(rest.first())[0] == (seq!['"'] + rest.first()
                        + seq!['"'])[0]);
                }
            }
        }
        lemma_skip_ws_run(s, j, j + 1);
        assert forall|x: int| 0 <= x < rest_txt.len() implies s.subrange(
            j + 1,
            j + 1 + rest_txt.len() as int,
        )[x] == rest_txt[x] by {
            assert(s[j + 1 + x] == txt[q0.len() + 1 + x]);
            assert(txt[q0.len() + 1 + x] == (q0 + seq![' '] + rest_txt)[q0.len() + 1 + x]);
        }
        assert(s.subrange(j + 1, j + 1 + rest_txt.len() as int) =~= rest_txt);
        assert(s[j + 1 + rest_txt.len()] == '}');
        assert(forall|x: int| 0 <= x < rest.len() ==> quote_free(#[trigger] rest[x]));
        lemma_items_quoted(s, j + 1, rest, (fuel - 1) as nat);
        assert(seq![SpecValue::Str(t0)] + rest.map_values(|t: Seq<char>| SpecValue::Str(t)) =~= ts.map_values(
            |t: Seq<char>| SpecValue::Str(t),
        ));
    }
}

/// A block holding any run of quoted tokens, space-separated, is the
/// array of their strings: the pair-sequence trial fails for want of an
/// equals sign after the first token, and the pinned fallback reads the
/// block as a value sequence.
pub proof fn lemma_block_token_list(s: Seq<char>, i: int, ts: Seq<Seq<char>>, fuel: nat)
    requires
        0 <= i,
        ts.len() >= 1,
        forall|x: int| 0 <= x < ts.len() ==> quote_free(#[trigger] ts[x]),
        i + quoted_tokens_text(ts).len() < s.len(),
        s.subrange(i, i + quoted_tokens_text(ts).len() as int) == quoted_tokens_text(ts),
        s[i + quoted_tokens_text(ts).len()] == '}',
        fuel >= 2 * ts.len() + 2,
    ensures
        sp_block(s, i, fuel) == Ok::<(SpecValue, int), int>(
            (
                SpecValue::Array(ts.map_values(|t: Seq<char>| SpecValue::Str(t))),
                i + quoted_tokens_text(ts).len() + 1,
            ),
        ),
{
    let txt = quoted_tokens_text(ts);
    assert forall|x: int| 0 <= x < txt.len() implies s[i + x] == txt[x] by {
        assert(s.subrange(i, i + txt.len() as int)[x] == s[i + x]);
    }
    let t0 = ts[0];
    let q0 = quoted_token(t0);
    assert forall|x: int| 0 <= x < q0.len() implies s[i + x] == #[trigger] q0[x] by {
        if ts.len() == 1 {
            assert(txt == q0);
        } else {
            assert(txt == q0 + seq![' '] + quoted_tokens_text(ts.drop_first()));
            assert(txt[x] == (q0 + seq![' '] + quoted_tokens_text(ts.drop_first()))[x]);
            assert((q0 + seq![' '] + quoted_tokens_text(ts.drop_first()))[x] == (q0
                + seq![' '])[x]);
        }
    }
    assert(s[i] == '"') by {
        assert(s[i + 0] == q0[0]);
        assert(q0[0] == (seq!['"'] + t0 + seq!['"'])[0]);
    }
    assert(!is_space_char(s[i]) && s[i] != '}');
    assert(skip_ws(s, i) == i);
    // the pair trial fails: after a quoted key there is no equals sign
    assert forall|x: int| i + 1 <= x < i + 1 + t0.len() implies #[trigger] s[x] != '"' by {
        assert(s[x] == q0[x - i]);
        assert(q0[x - i] == (seq!['"'] + t0 + seq!['"'])[x - i]);
        assert((seq!['"'] + t0 + seq!['"'])[x - i] == t0[x - i - 1]);
    }
    assert(s[i + 1 + t0.len()] == '"') by {
        assert(s[i + 1 + t0.len() as int] == q0[1 + t0.len() as int]);
        assert(q0[1 + t0.len() as int] == (seq!['"'] + t0 + seq!['"'])[1 + t0.len() as int]);
    }
    lemma_scan_quote_run(s, i + 1, i + 1 + t0.len() as int);
    let j = i + q0.len() as int;
    assert(sp_key(s, i) == Ok::<(SpecKey, int), int>(
        (SpecKey::Str(s.subrange(i + 1, i + 1 + t0.len() as int)), j),
    ));
    let after_key = skip_ws(s, j);
    assert(s[after_key] != '=') by {
        if ts.len() == 1 {
            assert(txt == q0);
            assert(s[j] == '}');
            assert(skip_ws(s, j) == j);
        } else {
            let rest_txt = quoted_tokens_text(ts.drop_first());
            assert(txt == q0 + seq![' '] + rest_txt);
            assert(s[j] == ' ') by {
                assert(s[i + (j - i)] == txt[j - i]);
                assert(txt[j - i] == (q0 + seq![' '] + rest_txt)[j - i]);
                assert((q0 + seq![' '] + rest_txt)[j - i] == (q0 + seq![' '])[j - i]);
            }
            assert(s[j + 1] == '"') by {
                assert(s[i + (j + 1 - i)] == txt[j + 1 - i]);
                assert(txt[j + 1 - i] == (q0 + seq![' '] + rest_txt)[j + 1 - i]);
                assert(rest_txt[0] == '"') by {
                    let rest = ts.drop_first();
                    if rest.len() == 1 {
                        assert(rest_txt == quoted_token(rest[0]));
                        assert(quoted_token(rest[0])[0] == (seq!['"'] + rest[0] + seq!['"'])[0]);
                    } else {
                        assert(rest_txt == quoted_token(rest.first()) + seq![' ']
                            + quoted_tokens_text(rest.drop_first()));
                        assert(rest_txt[0] == (quoted_token(rest.first()) + seq![' '])[0]);
                        assert(quoted_token(rest.first())[0] == (seq!['"'] + rest.first()
                            + seq!['"'])[0]);
                    }
                }
            }
            lemma_skip_ws_run(s, j, j + 1);
        }
    }
    assert(sp_pair(s, i, (fuel - 2) as nat) is Err);
    assert(sp_pairs(s, i, (fuel - 1) as nat) is Err);
    // the value-sequence fallback succeeds
    lemma_items_quoted(s, i, ts, (fuel - 1) as nat);
}

/// Resolution never unbinds a registered module: whatever names are
/// resolved, an existing binding stays as it was.
pub proof fn lemma_resolve_preserves(
    entries: Map<Seq<char>, SpecModule>,
    names: Seq<Seq<char>>,
    seen: Seq<Seq<char>>,
    n: Seq<char>,
)
    requires
        entries.contains_key(n),
    ensures
        spec_resolve(entries, names, seen).0.contains_key(n),
        spec_resolve(entries, names, seen).0[n] == entries[n],
    decreases names.len(),
{
    if names.len() > 0 {
        let h = names.first();
        if seen.contains(h) {
            lemma_resolve_preserves(entries, names.drop_first(), seen, n);
        } else {
            let was = entries.contains_key(h);
            let e2 = if was {
                entries
            } else {
                entries.insert(h, spec_placeholder(h))
            };
            assert(e2.contains_key(n) && e2[n] == entries[n]);
            lemma_resolve_preserves(e2, names.drop_first(), seen.push(h), n);
        }
    }
}

/// Every declared dependency name ends registered, whatever else the list
/// holds: after resolution the registry binds it, and a name that was not
/// bound before is bound to its placeholder. (The single-name case is
/// [`lemma_missing_dependency_placeholder`].)
pub proof fn lemma_resolve_registers(
    entries: Map<Seq<char>, SpecModule>,
    names: Seq<Seq<char>>,
    seen: Seq<Seq<char>>,
    n: Seq<char>,
)
    requires
        names.contains(n),
        !seen.contains(n),
    ensures
        spec_resolve(entries, names, seen).0.contains_key(n),
        !entries.contains_key(n) ==> spec_resolve(entries, names, seen).0[n] == spec_placeholder(
            n,
        ),
    decreases names.len(),
{
    let h = names.first();
    if seen.contains(h) {
        assert(h != n);
        assert(names.drop_first().contains(n)) by {
            let idx = choose|idx: int| 0 <= idx < names.len() && names[idx] == n;
            assert(idx != 0);
            assert(names.drop_first()[idx - 1] == n);
        }
        lemma_resolve_registers(entries, names.drop_first(), seen, n);
    } else {
        let was = entries.contains_key(h);
        let e2 = if was {
            entries
        } else {
            entries.insert(h, spec_placeholder(h))
        };
        if h == n {
            assert(e2.contains_key(n));
            assert(!entries.contains_key(n) ==> e2[n] == spec_placeholder(n));
            lemma_resolve_preserves(e2, names.drop_first(), seen.push(h), n);
        } else {
            assert(names.drop_first().contains(n)) by {
                let idx = choose|idx: int| 0 <= idx < names.len() && names[idx] == n;
                assert(idx != 0);
                assert(names.drop_first()[idx - 1] == n);
            }
            assert(!seen.push(h).contains(n)) by {
                if seen.push(h).contains(n) {
                    let idx = choose|idx: int|
                        0 <= idx < seen.push(h).len() && seen.push(h)[idx] == n;
                    if idx < seen.len() {
                        assert(seen[idx] == n);
                    } else {
                        assert(h == n);
                    }
                }
            }
            assert(!entries.contains_key(n) ==> !e2.contains_key(n));
            lemma_resolve_registers(e2, names.drop_first(), seen.push(h), n);
        }
    }
}

/// Pair texts fit for a block: bare-word keys, quote-free values.
pub open spec fn wf_pair_texts(ps: Seq<(Seq<char>, Seq<char>)>) -> bool {
    forall|x: int|
        0 <= x < ps.len() ==> bare_word((#[trigger] ps[x]).0) && quote_free(ps[x].1)
}

/// The raw pairs the pair texts denote.
pub open spec fn pairs_of(ps: Seq<(Seq<char>, Seq<char>)>) -> Seq<(SpecKey, SpecValue)> {
    ps.map_values(|p: (Seq<char>, Seq<char>)| (key_of_word(p.0), SpecValue::Str(p.1)))
}

/// The text of the pairs `k="t"` joined by single spaces.
pub open spec fn quoted_pairs_text(ps: Seq<(Seq<char>, Seq<char>)>) -> Seq<char>
    decreases ps.len(),
{
    if ps.len() == 0 {
        Seq::empty()
    } else if ps.len() == 1 {
        quoted_pair_text(ps[0].0, ps[0].1)
    } else {
        quoted_pair_text(ps.first().0, ps.first().1) + seq![' '] + quoted_pairs_text(
            ps.drop_first(),
        )
    }
}

proof fn lemma_pairs_quoted(s: Seq<char>, i: int, ps: Seq<(Seq<char>, Seq<char>)>, fuel: nat)
    requires
        0 <= i,
        ps.len() >= 1,
        wf_pair_texts(ps),
        i + quoted_pairs_text(ps).len() < s.len(),
        s.subrange(i, i + quoted_pairs_text(ps).len() as int) == quoted_pairs_text(ps),
        s[i + quoted_pairs_text(ps).len()] == '}',
        fuel >= 2 * ps.len() + 2,
    ensures
        sp_pairs(s, i, fuel) == Ok::<(Seq<(SpecKey, SpecValue)>, int), int>(
            (pairs_of(ps), i + quoted_pairs_text(ps).len() + 1),
        ),
    decreases ps.len(),
{
    let txt = quoted_pairs_text(ps);
    assert forall|x: int| 0 <= x < txt.len() implies s[i + x] == txt[x] by {
        assert(s.subrange(i, i + txt.len() as int)[x] == s[i + x]);
    }
    let k0 = ps[0].0;
    let t0 = ps[0].1;
    let q0 = quoted_pair_text(k0, t0);
    lemma_quoted_pair_text_chars(k0, t0);
    if ps.len() == 1 {
        assert(txt == q0);
        assert(s.subrange(i, i + k0.len() + t0.len() + 3) =~= q0);
        lemma_parse_quoted_pair_at(s, i, k0, t0, (fuel - 1) as nat);
        let j = i + txt.len() as int;
        assert(s[j] == '}');
        assert(skip_ws(s, j) == j);
        assert(seq![(key_of_word(k0), SpecValue::Str(t0))] =~= pairs_of(ps));
    } else {
        let rest = ps.drop_first();
        let rest_txt = quoted_pairs_text(rest);
        assert(txt == q0 + seq![' '] + rest_txt);
        assert forall|x: int| 0 <= x < q0.len() implies s[i + x] == #[trigger] q0[x] by {
            assert(txt[x] == (q0 + seq![' '] + rest_txt)[x]);
            assert((q0 + seq![' '] + rest_txt)[x] == (q0 + seq![' '])[x]);
        }
        assert forall|x: int| 0 <= x < q0.len() implies s.subrange(
            i,
            i + k0.len() + t0.len() + 3,
        )[x] == q0[x] by {
            assert(s[i + x] == q0[x]);
        }
        assert(s.subrange(i, i + k0.len() + t0.len() + 3) =~= q0);
        lemma_parse_quoted_pair_at(s, i, k0, t0, (fuel - 1) as nat);
        let j = i + q0.len() as int;
        assert(s[j] == ' ') by {
            assert(s[i + (j - i)] == txt[j - i]);
            assert(txt[j - i] == (q0 + seq![' '] + rest_txt)[j - i]);
            assert((q0 + seq![' '] + rest_txt)[j - i] == (q0 + seq![' '])[j - i]);
        }
        let k1 = rest.first().0;
        assert(rest_txt[0] == k1[0]) by {
            lemma_quoted_pair_text_chars(k1, rest.first().1);
            if rest.len() == 1 {
                assert(rest_txt == quoted_pair_text(rest[0].0, rest[0].1));
            } else {
                assert(rest_txt == quoted_pair_text(k1, rest.first().1) + seq![' ']
                    + quoted_pairs_text(rest.drop_first()));
                assert(rest_txt[0] == (quoted_pair_text(k1, rest.first().1) + seq![' '])[0]);
            }
        }
        assert(is_word_char(k1[0]));
        assert(s[j + 1] == rest_txt[0]) by {
            assert(s[i + (j + 1 - i)] == txt[j + 1 - i]);
            assert(txt[j + 1 - i] == (q0 + seq![' '] + rest_txt)[j + 1 - i]);
        }
        assert(!is_space_char(s[j + 1]) && s[j + 1] != '}' && s[j + 1] != ',');
        lemma_skip_ws_run(s, j, j + 1);
        assert forall|x: int| 0 <= x < rest_txt.len() implies s.subrange(
            j + 1,
            j + 1 + rest_txt.len() as int,
        )[x] == rest_txt[x] by {
            assert(s[j + 1 + x] == txt[q0.len() + 1 + x]);
            assert(txt[q0.len() + 1 + x] == (q0 + seq![' '] + rest_txt)[q0.len() + 1 + x]);
        }
        assert(s.subrange(j + 1, j + 1 + rest_txt.len() as int) =~= rest_txt);
        assert(s[j + 1 + rest_txt.len()] == '}');
        lemma_pairs_quoted(s, j + 1, rest, (fuel - 1) as nat);
        assert(seq![(key_of_word(k0), SpecValue::Str(t0))] + pairs_of(rest) =~= pairs_of(ps));
    }
}

/// A block holding any run of `key="value"` pairs, space-separated, is an
/// object whose bindings are exactly those pairs after the duplicate-key
/// merge: the preferred pair-sequence trial succeeds, so such a block
/// never parses as an array.
pub proof fn lemma_block_pair_list(s: Seq<char>, i: int, ps: Seq<(Seq<char>, Seq<char>)>, fuel: nat)
    requires
        0 <= i,
        ps.len() >= 1,
        wf_pair_texts(ps),
        i + quoted_pairs_text(ps).len() < s.len(),
        s.subrange(i, i + quoted_pairs_text(ps).len() as int) == quoted_pairs_text(ps),
        s[i + quoted_pairs_text(ps).len()] == '}',
        fuel >= 2 * ps.len() + 3,
    ensures
        sp_block(s, i, fuel) == Ok::<(SpecValue, int), int>(
            (
                SpecValue::Object(merge_pairs(pairs_of(ps))),
                i + quoted_pairs_text(ps).len() + 1,
            ),
        ),
{
    let txt = quoted_pairs_text(ps);
    let k0 = ps[0].0;
    lemma_quoted_pair_text_chars(k0, ps[0].1);
    assert(s[i] == k0[0]) by {
        assert(s.subrange(i, i + txt.len() as int)[0] == s[i]);
        if ps.len() == 1 {
            assert(txt == quoted_pair_text(k0, ps[0].1));
        } else {
            assert(txt == quoted_pair_text(k0, ps[0].1) + seq![' '] + quoted_pairs_text(
                ps.drop_first(),
            ));
            assert(txt[0] == (quoted_pair_text(k0, ps[0].1) + seq![' '])[0]);
        }
    }
    assert(is_word_char(k0[0]));
    assert(!is_space_char(s[i]) && s[i] != '}');
    assert(skip_ws(s, i) == i);
    lemma_pairs_quoted(s, i, ps, (fuel - 1) as nat);
}

} // verus!
