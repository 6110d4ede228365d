//! The descriptor-dialect parser.
//!
//! The grammar is specified by the `sp_*` specification functions, a
//! recursive-descent parser over the character sequence; the executable
//! parser mirrors them exactly. A block `{ ... }` is disambiguated by
//! ordered choice: a parse as a pair sequence is preferred, and a parse as
//! a value sequence is tried only when the first fails; an empty block is
//! an empty array. Duplicate keys of an object are merged under the rule
//! of [`crate::value::merge_into`].

use vstd::prelude::*;
use crate::value::DictKey;
use crate::value::ParsedValue;
use crate::value::SpecKey;
use crate::value::SpecValue;
use crate::strutil::chars_to_string;
use crate::value::values_view;
use crate::value::entries_view;
use crate::value::pairs_seq_view;

verus! {

pub open spec fn is_space_char(c: char) -> bool {
    c == ' ' || c == '\t' || c == '\r' || c == '\n'
}

/// Whitespace that does not end a top-level line.
pub open spec fn is_line_space_char(c: char) -> bool {
    c == ' ' || c == '\t' || c == '\r'
}

/// A bare word is a maximal run of word characters. The comma is no word
/// character: a block's comma-separated values must lex as separate
/// tokens, and the source format's own parsers end a word there too.
pub open spec fn is_word_char(c: char) -> bool {
    !is_space_char(c) && c != '=' && c != '{' && c != '}' && c != '"' && c != ','
}

pub open spec fn is_digit_char(c: char) -> bool {
    48 <= c as u32 <= 57
}

/// The first position at or after `i` holding no whitespace.
pub open spec fn skip_ws(s: Seq<char>, i: int) -> int
    decreases s.len() - i when 0 <= i <= s.len()
{
    if i < s.len() && is_space_char(s[i]) {
        skip_ws(s, i + 1)
    } else {
        i
    }
}

/// The first position at or after `i` holding neither a space, a tab nor a
/// carriage return.
pub open spec fn skip_line_ws(s: Seq<char>, i: int) -> int
    decreases s.len() - i when 0 <= i <= s.len()
{
    if i < s.len() && is_line_space_char(s[i]) {
        skip_line_ws(s, i + 1)
    } else {
        i
    }
}

/// The end of the bare word starting at `i`.
pub open spec fn scan_word(s: Seq<char>, i: int) -> int
    decreases s.len() - i when 0 <= i <= s.len()
{
    if i < s.len() && is_word_char(s[i]) {
        scan_word(s, i + 1)
    } else {
        i
    }
}

/// The first position at or after `i` holding a double quote, or the length.
pub open spec fn scan_quote(s: Seq<char>, i: int) -> int
    decreases s.len() - i when 0 <= i <= s.len()
{
    if i < s.len() {
        if s[i] == '"' {
            i
        } else {
            scan_quote(s, i + 1)
        }
    } else {
        i
    }
}

/// The first position at or after `i` holding `c1` or `c2`, or the length.
pub open spec fn find_in(s: Seq<char>, i: int, c1: char, c2: char) -> int
    decreases s.len() - i when 0 <= i <= s.len()
{
    if i < s.len() {
        if s[i] == c1 || s[i] == c2 {
            i
        } else {
            find_in(s, i + 1, c1, c2)
        }
    } else {
        i
    }
}

/// The word without its optional leading sign.
pub open spec fn strip_sign(w: Seq<char>) -> Seq<char> {
    if w.len() > 0 && (w[0] == '-' || w[0] == '+') {
        w.drop_first()
    } else {
        w
    }
}

pub open spec fn all_digits(w: Seq<char>) -> bool {
    forall|i: int| 0 <= i < w.len() ==> is_digit_char(#[trigger] w[i])
}

/// An optionally signed, non-empty run of decimal digits.
pub open spec fn is_int_lexeme(w: Seq<char>) -> bool {
    strip_sign(w).len() > 0 && all_digits(strip_sign(w))
}

/// An optionally signed decimal with a decimal point or an exponent:
/// the mantissa holds at most one point and at least one digit, and an
/// exponent is an integer lexeme after `e` or `E`.
pub open spec fn is_float_lexeme(w: Seq<char>) -> bool {
    let u = strip_sign(w);
    let ep = find_in(u, 0, 'e', 'E');
    let mant = u.subrange(0, ep);
    let has_exp = ep < u.len();
    let exp_ok = !has_exp || is_int_lexeme(u.subrange(ep + 1, u.len() as int));
    let dp = find_in(mant, 0, '.', '.');
    let mant_ok = if dp < mant.len() {
        all_digits(mant.subrange(0, dp)) && all_digits(mant.subrange(dp + 1, mant.len() as int))
            && mant.len() > 1
    } else {
        mant.len() > 0 && all_digits(mant) && has_exp
    };
    mant_ok && exp_ok
}

/// The value of a run of decimal digits.
pub open spec fn digits_val(w: Seq<char>) -> int
    decreases w.len(),
{
    if w.len() == 0 {
        0
    } else {
        digits_val(w.drop_last()) * 10 + (w.last() as u32 - 48)
    }
}

/// The signed value of an integer lexeme.
pub open spec fn int_lexeme_val(w: Seq<char>) -> int {
    if w.len() > 0 && w[0] == '-' {
        -digits_val(w.drop_first())
    } else {
        digits_val(strip_sign(w))
    }
}

pub open spec fn in_i64_range(v: int) -> bool {
    i64::MIN as int <= v <= i64::MAX as int
}

pub open spec fn yes_chars() -> Seq<char> {
    seq!['y', 'e', 's']
}

pub open spec fn no_chars() -> Seq<char> {
    seq!['n', 'o']
}

/// The coercion of a bare word: `yes` and `no` become booleans; an integer
/// lexeme becomes an integer when it fits a signed 64-bit machine word, and
/// is otherwise kept textual; a float lexeme keeps its lexeme; anything
/// else is a string. Selection is by lexical shape, never by value.
pub open spec fn coerce_word(w: Seq<char>) -> SpecValue {
    if w == yes_chars() {
        SpecValue::Bool(true)
    } else if w == no_chars() {
        SpecValue::Bool(false)
    } else if is_int_lexeme(w) {
        if in_i64_range(int_lexeme_val(w)) {
            SpecValue::Int(int_lexeme_val(w))
        } else {
            SpecValue::Str(w)
        }
    } else if is_float_lexeme(w) {
        SpecValue::Float(w)
    } else {
        SpecValue::Str(w)
    }
}

/// The key denoted by a bare word: an integer lexeme in machine range is a
/// numeric key, anything else a string key.
pub open spec fn key_of_word(w: Seq<char>) -> SpecKey {
    if is_int_lexeme(w) && in_i64_range(int_lexeme_val(w)) {
        SpecKey::Int(int_lexeme_val(w))
    } else {
        SpecKey::Str(w)
    }
}

fn is_space(c: char) -> (r: bool)
    ensures
        r == is_space_char(c),
{
    c == ' ' || c == '\t' || c == '\r' || c == '\n'
}

fn is_line_space(c: char) -> (r: bool)
    ensures
        r == is_line_space_char(c),
{
    c == ' ' || c == '\t' || c == '\r'
}

fn is_word(c: char) -> (r: bool)
    ensures
        r == is_word_char(c),
{
    !(c == ' ' || c == '\t' || c == '\r' || c == '\n' || c == '=' || c == '{' || c == '}' || c
        == '"' || c == ',')
}

fn is_digit(c: char) -> (r: bool)
    ensures
        r == is_digit_char(c),
{
    let u = c as u32;
    48 <= u && u <= 57
}

fn skip_ws_at(s: &Vec<char>, i: usize) -> (r: usize)
    requires
        i <= s@.len(),
    ensures
        i <= r <= s@.len(),
        r as int == skip_ws(s@, i as int),
{
    let mut j = i;
    while j < s.len() && is_space(s[j])
        invariant
            i <= j <= s@.len(),
            skip_ws(s@, i as int) == skip_ws(s@, j as int),
        decreases s@.len() - j,
    {
        j = j + 1;
    }
    j
}

fn skip_line_ws_at(s: &Vec<char>, i: usize) -> (r: usize)
    requires
        i <= s@.len(),
    ensures
        i <= r <= s@.len(),
        r as int == skip_line_ws(s@, i as int),
{
    let mut j = i;
    while j < s.len() && is_line_space(s[j])
        invariant
            i <= j <= s@.len(),
            skip_line_ws(s@, i as int) == skip_line_ws(s@, j as int),
        decreases s@.len() - j,
    {
        j = j + 1;
    }
    j
}

fn scan_word_at(s: &Vec<char>, i: usize) -> (r: usize)
    requires
        i <= s@.len(),
    ensures
        i <= r <= s@.len(),
        r as int == scan_word(s@, i as int),
{
    let mut j = i;
    while j < s.len() && is_word(s[j])
        invariant
            i <= j <= s@.len(),
            scan_word(s@, i as int) == scan_word(s@, j as int),
        decreases s@.len() - j,
    {
        j = j + 1;
    }
    j
}

fn scan_quote_at(s: &Vec<char>, i: usize) -> (r: usize)
    requires
        i <= s@.len(),
    ensures
        i <= r <= s@.len(),
        r as int == scan_quote(s@, i as int),
{
    let mut j = i;
    while j < s.len() && s[j] != '"'
        invariant
            i <= j <= s@.len(),
            scan_quote(s@, i as int) == scan_quote(s@, j as int),
        decreases s@.len() - j,
    {
        j = j + 1;
    }
    j
}

fn find_in_at(s: &Vec<char>, i: usize, c1: char, c2: char) -> (r: usize)
    requires
        i <= s@.len(),
    ensures
        i <= r <= s@.len(),
        r as int == find_in(s@, i as int, c1, c2),
{
    let mut j = i;
    while j < s.len() && s[j] != c1 && s[j] != c2
        invariant
            i <= j <= s@.len(),
            find_in(s@, i as int, c1, c2) == find_in(s@, j as int, c1, c2),
        decreases s@.len() - j,
    {
        j = j + 1;
    }
    j
}

/// Whether all of `w` in `[from, to)` are decimal digits.
fn all_digits_range(w: &Vec<char>, from: usize, to: usize) -> (r: bool)
    requires
        from <= to <= w@.len(),
    ensures
        r == all_digits(w@.subrange(from as int, to as int)),
{
    let ghost u = w@.subrange(from as int, to as int);
    let mut j = from;
    while j < to
        invariant
            from <= j <= to <= w@.len(),
            u == w@.subrange(from as int, to as int),
            forall|k: int| 0 <= k < j - from ==> is_digit_char(#[trigger] u[k]),
        decreases to - j,
    {
        if !is_digit(w[j]) {
            proof {
                assert(u[j - from] == w@[j as int]);
            }
            return false;
        }
        j = j + 1;
    }
    true
}

/// The copy of `w` over `[from, to)`.
fn copy_range(w: &Vec<char>, from: usize, to: usize) -> (r: Vec<char>)
    requires
        from <= to <= w@.len(),
    ensures
        r@ == w@.subrange(from as int, to as int),
{
    let mut r: Vec<char> = Vec::new();
    let mut j = from;
    while j < to
        invariant
            from <= j <= to <= w@.len(),
            r@ == w@.subrange(from as int, j as int),
        decreases to - j,
    {
        r.push(w[j]);
        proof {
            assert(r@ =~= w@.subrange(from as int, j + 1 as int));
        }
        j = j + 1;
    }
    r
}

/// Whether `w` is an integer lexeme.
fn is_int_word(w: &Vec<char>) -> (r: bool)
    ensures
        r == is_int_lexeme(w@),
{
    let start: usize = if w.len() > 0 && (w[0] == '-' || w[0] == '+') {
        1
    } else {
        0
    };
    proof {
        assert(strip_sign(w@) =~= w@.subrange(start as int, w@.len() as int));
    }
    if w.len() == start {
        return false;
    }
    all_digits_range(w, start, w.len())
}

/// Whether `w` is a float lexeme.
fn is_float_word(w: &Vec<char>) -> (r: bool)
    ensures
        r == is_float_lexeme(w@),
{
    let start: usize = if w.len() > 0 && (w[0] == '-' || w[0] == '+') {
        1
    } else {
        0
    };
    let u = copy_range(w, start, w.len());
    proof {
        assert(strip_sign(w@) =~= w@.subrange(start as int, w@.len() as int));
    }
    let ep = find_in_at(&u, 0, 'e', 'E');
    let mant = copy_range(&u, 0, ep);
    let has_exp = ep < u.len();
    let exp_ok: bool = if has_exp {
        let epart = copy_range(&u, ep + 1, u.len());
        is_int_word(&epart)
    } else {
        true
    };
    let dp = find_in_at(&mant, 0, '.', '.');
    let mant_ok: bool = if dp < mant.len() {
        let left = all_digits_range(&mant, 0, dp);
        let right = all_digits_range(&mant, dp + 1, mant.len());
        left && right && mant.len() > 1
    } else {
        if mant.len() > 0 {
            let alld = all_digits_range(&mant, 0, mant.len());
            proof {
                assert(mant@.subrange(0, mant@.len() as int) =~= mant@);
            }
            alld && has_exp
        } else {
            false
        }
    };
    mant_ok && exp_ok
}

proof fn lemma_digits_val_nonneg(w: Seq<char>)
    requires
        all_digits(w),
    ensures
        digits_val(w) >= 0,
    decreases w.len(),
{
    if w.len() > 0 {
        assert(all_digits(w.drop_last())) by {
            assert(forall|k: int|
                0 <= k < w.len() - 1 ==> #[trigger] w.drop_last()[k] == w[k]);
        }
        lemma_digits_val_nonneg(w.drop_last());
        assert(is_digit_char(w[w.len() - 1]));
    }
}

/// The signed numeric value of an integer lexeme, when it fits a signed
/// 64-bit machine word.
fn int_word_value(w: &Vec<char>) -> (r: Option<i64>)
    requires
        is_int_lexeme(w@),
    ensures
        match r {
            Some(v) => in_i64_range(int_lexeme_val(w@)) && v as int == int_lexeme_val(w@),
            None => !in_i64_range(int_lexeme_val(w@)),
        },
{
    let neg = w.len() > 0 && w[0] == '-';
    let start: usize = if w.len() > 0 && (w[0] == '-' || w[0] == '+') {
        1
    } else {
        0
    };
    let ghost u = w@.subrange(start as int, w@.len() as int);
    proof {
        assert(strip_sign(w@) =~= u);
        if neg {
            assert(w@.drop_first() =~= u);
        }
    }
    let limit: u128 = if neg {
        0x8000_0000_0000_0000u128
    } else {
        0x7fff_ffff_ffff_ffffu128
    };
    let mut acc: u128 = 0;
    let mut over: bool = false;
    let mut j = start;
    while j < w.len()
        invariant
            start <= j <= w@.len(),
            u == w@.subrange(start as int, w@.len() as int),
            all_digits(u),
            limit <= 0x8000_0000_0000_0000u128,
            !over ==> acc as int == digits_val(u.subrange(0, j - start)) && acc <= limit,
            over ==> digits_val(u.subrange(0, j - start)) > limit,
        decreases w@.len() - j,
    {
        let ghost pre = u.subrange(0, j - start);
        let ghost post = u.subrange(0, j + 1 - start);
        proof {
            assert(post.drop_last() =~= pre);
            assert(post.last() == u[j - start]);
            assert(u[j - start] == w@[j as int]);
            assert(is_digit_char(u[j - start]));
            assert(all_digits(pre)) by {
                assert(forall|k: int| 0 <= k < pre.len() ==> #[trigger] pre[k] == u[k]);
            }
            lemma_digits_val_nonneg(pre);
        }
        let d: u32 = (w[j] as u32) - 48;
        if !over {
            acc = acc * 10 + (d as u128);
            if acc > limit {
                over = true;
            }
        }
        j = j + 1;
    }
    proof {
        assert(u.subrange(0, u.len() as int) =~= u);
    }
    if over {
        return None;
    }
    let mag: u64 = acc as u64;
    if neg {
        if mag == 0x8000_0000_0000_0000u64 {
            Some(i64::MIN)
        } else {
            Some(-(mag as i64))
        }
    } else {
        Some(mag as i64)
    }
}

/// The parsed value of a bare word.
pub fn coerce_word_value(w: &Vec<char>) -> (r: ParsedValue)
    ensures
        r@ == coerce_word(w@),
{
    if w.len() == 3 && w[0] == 'y' && w[1] == 'e' && w[2] == 's' {
        proof {
            assert(w@ =~= yes_chars());
        }
        return ParsedValue::Bool(true);
    }
    if w.len() == 2 && w[0] == 'n' && w[1] == 'o' {
        proof {
            assert(w@ =~= no_chars());
        }
        return ParsedValue::Bool(false);
    }
    proof {
        assert(w@ != yes_chars() && w@ != no_chars());
    }
    if is_int_word(w) {
        match int_word_value(w) {
            Some(v) => ParsedValue::Int(v),
            None => ParsedValue::Str(chars_to_string(w)),
        }
    } else if is_float_word(w) {
        ParsedValue::Float(chars_to_string(w))
    } else {
        ParsedValue::Str(chars_to_string(w))
    }
}

/// The key at `i`: a quoted string is always a string key; a bare word is
/// coerced by [`key_of_word`]. A failure carries the position where it was
/// found.
pub open spec fn sp_key(s: Seq<char>, i: int) -> Result<(SpecKey, int), int> {
    if i < s.len() && s[i] == '"' {
        let q = scan_quote(s, i + 1);
        if q < s.len() {
            Ok((SpecKey::Str(s.subrange(i + 1, q)), q + 1))
        } else {
            Err(i)
        }
    } else {
        let e = scan_word(s, i);
        if e > i {
            Ok((key_of_word(s.subrange(i, e)), e))
        } else {
            Err(i)
        }
    }
}

/// The value at `i`: a quoted string, a block, or a coerced bare word.
pub open spec fn sp_value(s: Seq<char>, i: int, fuel: nat) -> Result<(SpecValue, int), int>
    decreases fuel,
{
    if fuel == 0 {
        Err(i)
    } else if i < s.len() && s[i] == '"' {
        let q = scan_quote(s, i + 1);
        if q < s.len() {
            Ok((SpecValue::Str(s.subrange(i + 1, q)), q + 1))
        } else {
            Err(i)
        }
    } else if i < s.len() && s[i] == '{' {
        sp_block(s, i + 1, (fuel - 1) as nat)
    } else {
        let e = scan_word(s, i);
        if e > i {
            Ok((coerce_word(s.subrange(i, e)), e))
        } else {
            Err(i)
        }
    }
}

/// The rest of a block, `i` standing just after the opening brace. An
/// empty block is an empty array; otherwise a pair sequence is preferred
/// and a value sequence is the fallback: the trial order is a pinned part
/// of the dialect.
pub open spec fn sp_block(s: Seq<char>, i: int, fuel: nat) -> Result<(SpecValue, int), int>
    decreases fuel,
{
    if fuel == 0 {
        Err(i)
    } else {
        let j = skip_ws(s, i);
        if j < s.len() && s[j] == '}' {
            Ok((SpecValue::Array(Seq::empty()), j + 1))
        } else {
            match sp_pairs(s, j, (fuel - 1) as nat) {
                Ok((ps, k)) => Ok((SpecValue::Object(crate::value::merge_pairs(ps)), k)),
                Err(_) => match sp_items(s, j, (fuel - 1) as nat) {
                    Ok((vs, k)) => Ok((SpecValue::Array(vs), k)),
                    Err(e) => Err(e),
                },
            }
        }
    }
}

/// One or more pairs, separated by whitespace or commas, up to and
/// including the closing brace.
pub open spec fn sp_pairs(s: Seq<char>, i: int, fuel: nat) -> Result<
    (Seq<(SpecKey, SpecValue)>, int),
    int,
>
    decreases fuel,
{
    if fuel == 0 {
        Err(i)
    } else {
        match sp_pair(s, i, (fuel - 1) as nat) {
            Err(e) => Err(e),
            Ok((p, j)) => {
                let k = skip_ws(s, j);
                if k < s.len() && s[k] == '}' {
                    Ok((seq![p], k + 1))
                } else {
                    let k2 = if k < s.len() && s[k] == ',' {
                        skip_ws(s, k + 1)
                    } else {
                        k
                    };
                    match sp_pairs(s, k2, (fuel - 1) as nat) {
                        Ok((ps, m)) => Ok((seq![p] + ps, m)),
                        Err(e) => Err(e),
                    }
                }
            },
        }
    }
}

/// One or more values, separated by whitespace or commas, up to and
/// including the closing brace.
pub open spec fn sp_items(s: Seq<char>, i: int, fuel: nat) -> Result<(Seq<SpecValue>, int), int>
    decreases fuel,
{
    if fuel == 0 {
        Err(i)
    } else {
        match sp_value(s, i, (fuel - 1) as nat) {
            Err(e) => Err(e),
            Ok((v, j)) => {
                let k = skip_ws(s, j);
                if k < s.len() && s[k] == '}' {
                    Ok((seq![v], k + 1))
                } else {
                    let k2 = if k < s.len() && s[k] == ',' {
                        skip_ws(s, k + 1)
                    } else {
                        k
                    };
                    match sp_items(s, k2, (fuel - 1) as nat) {
                        Ok((vs, m)) => Ok((seq![v] + vs, m)),
                        Err(e) => Err(e),
                    }
                }
            },
        }
    }
}

/// A pair `key = value`, whitespace allowed around the equals sign.
pub open spec fn sp_pair(s: Seq<char>, i: int, fuel: nat) -> Result<((SpecKey, SpecValue), int), int>
    decreases fuel,
{
    if fuel == 0 {
        Err(i)
    } else {
        match sp_key(s, i) {
            Err(e) => Err(e),
            Ok((k, j)) => {
                let a = skip_ws(s, j);
                if a < s.len() && s[a] == '=' {
                    let b = skip_ws(s, a + 1);
                    match sp_value(s, b, (fuel - 1) as nat) {
                        Ok((v, c)) => Ok(((k, v), c)),
                        Err(e) => Err(e),
                    }
                } else {
                    Err(a)
                }
            },
        }
    }
}

/// The top level: pairs separated by line breaks, consuming the whole
/// input. The raw pairs are returned in order, duplicates included.
pub open spec fn sp_top(s: Seq<char>, i: int, fuel: nat) -> Result<
    (Seq<(SpecKey, SpecValue)>, int),
    int,
>
    decreases fuel,
{
    if fuel == 0 {
        Err(i)
    } else {
        let j = skip_ws(s, i);
        if j >= s.len() {
            Ok((Seq::empty(), j))
        } else {
            match sp_pair(s, j, (fuel - 1) as nat) {
                Err(e) => Err(e),
                Ok((p, k)) => {
                    let m = skip_line_ws(s, k);
                    if m >= s.len() {
                        Ok((seq![p], m))
                    } else if s[m] == '\n' {
                        match sp_top(s, m + 1, (fuel - 1) as nat) {
                            Ok((ps, e)) => Ok((seq![p] + ps, e)),
                            Err(e) => Err(e),
                        }
                    } else {
                        Err(m)
                    }
                },
            }
        }
    }
}

/// Fuel that always suffices for an input of this length: every recursive
/// call either consumes a character or moves at most four steps down a
/// chain that does.
pub open spec fn doc_fuel(s: Seq<char>) -> nat {
    (4 * s.len() + 16) as nat
}

/// The document denoted by the whole input: its top-level pairs, merged
/// under the duplicate-key rule. When the input has no full parse, the
/// failure carries the character offset at which it was found, so the
/// parse — result and position alike — is a function of the input.
pub open spec fn spec_parse_doc(s: Seq<char>) -> Result<Map<SpecKey, SpecValue>, int> {
    match sp_top(s, 0, doc_fuel(s)) {
        Ok((ps, _)) => Ok(crate::value::merge_pairs(ps)),
        Err(e) => Err(e),
    }
}

/// The key denoted by a bare word.
pub fn coerce_word_key(w: &Vec<char>) -> (r: DictKey)
    ensures
        r@ == key_of_word(w@),
{
    if is_int_word(w) {
        match int_word_value(w) {
            Some(v) => DictKey::Int(v),
            None => DictKey::Str(chars_to_string(w)),
        }
    } else {
        DictKey::Str(chars_to_string(w))
    }
}

fn parse_key_at(s: &Vec<char>, i: usize) -> (r: Result<(DictKey, usize), usize>)
    requires
        i <= s@.len(),
    ensures
        match r {
            Ok((k, j)) => sp_key(s@, i as int) == Ok::<(SpecKey, int), int>((k@, j as int)) && i
                <= j <= s@.len(),
            Err(e) => sp_key(s@, i as int) == Err::<(SpecKey, int), int>(e as int),
        },
{
    if i < s.len() && s[i] == '"' {
        let q = scan_quote_at(s, i + 1);
        if q < s.len() {
            let content = crate::strutil::substring_of(s, i + 1, q);
            Ok((DictKey::Str(content), q + 1))
        } else {
            Err(i)
        }
    } else {
        let e = scan_word_at(s, i);
        if e > i {
            let w = copy_range(s, i, e);
            Ok((coerce_word_key(&w), e))
        } else {
            Err(i)
        }
    }
}

fn parse_pair_at(s: &Vec<char>, i: usize, fuel: usize) -> (r: Result<
    ((DictKey, ParsedValue), usize),
    usize,
>)
    requires
        i <= s@.len(),
    ensures
        match r {
            Ok((p, j)) => sp_pair(s@, i as int, fuel as nat) == Ok::<((SpecKey, SpecValue), int), int>(
                ((p.0@, p.1@), j as int),
            ) && i <= j <= s@.len(),
            Err(e) => sp_pair(s@, i as int, fuel as nat) == Err::<((SpecKey, SpecValue), int), int>(
                e as int,
            ),
        },
    decreases fuel,
{
    if fuel == 0 {
        return Err(i);
    }
    match parse_key_at(s, i) {
        Err(e) => Err(e),
        Ok((k, j)) => {
            let a = skip_ws_at(s, j);
            if a < s.len() && s[a] == '=' {
                let b = skip_ws_at(s, a + 1);
                match parse_value_at(s, b, fuel - 1) {
                    Ok((v, c)) => Ok(((k, v), c)),
                    Err(e) => Err(e),
                }
            } else {
                Err(a)
            }
        },
    }
}

fn parse_value_at(s: &Vec<char>, i: usize, fuel: usize) -> (r: Result<(ParsedValue, usize), usize>)
    requires
        i <= s@.len(),
    ensures
        match r {
            Ok((v, j)) => sp_value(s@, i as int, fuel as nat) == Ok::<(SpecValue, int), int>(
                (v@, j as int),
            ) && i <= j <= s@.len(),
            Err(e) => sp_value(s@, i as int, fuel as nat) == Err::<(SpecValue, int), int>(e as int),
        },
    decreases fuel,
{
    if fuel == 0 {
        return Err(i);
    }
    if i < s.len() && s[i] == '"' {
        let q = scan_quote_at(s, i + 1);
        if q < s.len() {
            Ok((ParsedValue::Str(crate::strutil::substring_of(s, i + 1, q)), q + 1))
        } else {
            Err(i)
        }
    } else if i < s.len() && s[i] == '{' {
        parse_block_at(s, i + 1, fuel - 1)
    } else {
        let e = scan_word_at(s, i);
        if e > i {
            let w = copy_range(s, i, e);
            Ok((coerce_word_value(&w), e))
        } else {
            Err(i)
        }
    }
}

fn parse_block_at(s: &Vec<char>, i: usize, fuel: usize) -> (r: Result<(ParsedValue, usize), usize>)
    requires
        i <= s@.len(),
    ensures
        match r {
            Ok((v, j)) => sp_block(s@, i as int, fuel as nat) == Ok::<(SpecValue, int), int>(
                (v@, j as int),
            ) && i <= j <= s@.len(),
            Err(e) => sp_block(s@, i as int, fuel as nat) == Err::<(SpecValue, int), int>(e as int),
        },
    decreases fuel,
{
    if fuel == 0 {
        return Err(i);
    }
    let j = skip_ws_at(s, i);
    if j < s.len() && s[j] == '}' {
        let empty: Vec<ParsedValue> = Vec::new();
        proof {
            assert(values_view(empty@) =~= Seq::<SpecValue>::empty());
        }
        return Ok((ParsedValue::Array(empty), j + 1));
    }
    match parse_pairs_at(s, j, fuel - 1) {
        Ok((raw, k)) => {
            let entries = merge_raw(raw);
            Ok((ParsedValue::Object(entries), k))
        },
        Err(_) => match parse_items_at(s, j, fuel - 1) {
            Ok((vs, k)) => Ok((ParsedValue::Array(vs), k)),
            Err(e) => Err(e),
        },
    }
}

fn parse_pairs_at(s: &Vec<char>, i: usize, fuel: usize) -> (r: Result<
    (Vec<(DictKey, ParsedValue)>, usize),
    usize,
>)
    requires
        i <= s@.len(),
    ensures
        match r {
            Ok((raw, j)) => sp_pairs(s@, i as int, fuel as nat) == Ok::<
                (Seq<(SpecKey, SpecValue)>, int),
                int,
            >((pairs_seq_view(raw@), j as int)) && i <= j <= s@.len(),
            Err(e) => sp_pairs(s@, i as int, fuel as nat) == Err::<
                (Seq<(SpecKey, SpecValue)>, int),
                int,
            >(e as int),
        },
    decreases fuel,
{
    if fuel == 0 {
        return Err(i);
    }
    match parse_pair_at(s, i, fuel - 1) {
        Err(e) => Err(e),
        Ok((p, j)) => {
            let ghost p0 = p;
            let k = skip_ws_at(s, j);
            if k < s.len() && s[k] == '}' {
                let mut out: Vec<(DictKey, ParsedValue)> = Vec::new();
                out.push(p);
                proof {
                    reveal_with_fuel(pairs_seq_view, 3);
                    assert(out@ =~= seq![p0]);
                    assert(out@.drop_last() =~= Seq::<(DictKey, ParsedValue)>::empty());
                    assert(pairs_seq_view(out@) =~= seq![(p0.0@, p0.1@)]);
                }
                Ok((out, k + 1))
            } else {
                let k2: usize = if k < s.len() && s[k] == ',' {
                    skip_ws_at(s, k + 1)
                } else {
                    k
                };
                match parse_pairs_at(s, k2, fuel - 1) {
                    Ok((rest, m)) => {
                        let ghost rest0 = rest@;
                        let mut out: Vec<(DictKey, ParsedValue)> = Vec::new();
                        out.push(p);
                        let mut rest_m = rest;
                        out.append(&mut rest_m);
                        proof {
                            assert(out@ =~= seq![p0] + rest0);
                            crate::value::lemma_pairs_seq_view_prepend(p0, rest0);
                        }
                        Ok((out, m))
                    },
                    Err(e) => Err(e),
                }
            }
        },
    }
}

fn parse_items_at(s: &Vec<char>, i: usize, fuel: usize) -> (r: Result<
    (Vec<ParsedValue>, usize),
    usize,
>)
    requires
        i <= s@.len(),
    ensures
        match r {
            Ok((vs, j)) => sp_items(s@, i as int, fuel as nat) == Ok::<(Seq<SpecValue>, int), int>(
                (values_view(vs@), j as int),
            ) && i <= j <= s@.len(),
            Err(e) => sp_items(s@, i as int, fuel as nat) == Err::<(Seq<SpecValue>, int), int>(
                e as int,
            ),
        },
    decreases fuel,
{
    if fuel == 0 {
        return Err(i);
    }
    match parse_value_at(s, i, fuel - 1) {
        Err(e) => Err(e),
        Ok((v, j)) => {
            let ghost v0 = v;
            let k = skip_ws_at(s, j);
            if k < s.len() && s[k] == '}' {
                let mut out: Vec<ParsedValue> = Vec::new();
                out.push(v);
                proof {
                    reveal_with_fuel(values_view, 3);
                    assert(out@ =~= seq![v0]);
                    assert(out@.drop_last() =~= Seq::<ParsedValue>::empty());
                    assert(values_view(out@) =~= seq![v0@]);
                }
                Ok((out, k + 1))
            } else {
                let k2: usize = if k < s.len() && s[k] == ',' {
                    skip_ws_at(s, k + 1)
                } else {
                    k
                };
                match parse_items_at(s, k2, fuel - 1) {
                    Ok((vs, m)) => {
                        let ghost rest0 = vs@;
                        let mut out: Vec<ParsedValue> = Vec::new();
                        out.push(v);
                        let mut rest_m = vs;
                        out.append(&mut rest_m);
                        proof {
                            assert(out@ =~= seq![v0] + rest0);
                            crate::value::lemma_values_view_prepend(v0, rest0);
                        }
                        Ok((out, m))
                    },
                    Err(e) => Err(e),
                }
            }
        },
    }
}

fn parse_top_at(s: &Vec<char>, i: usize, fuel: usize) -> (r: Result<
    (Vec<(DictKey, ParsedValue)>, usize),
    usize,
>)
    requires
        i <= s@.len(),
    ensures
        match r {
            Ok((raw, j)) => sp_top(s@, i as int, fuel as nat) == Ok::<
                (Seq<(SpecKey, SpecValue)>, int),
                int,
            >((pairs_seq_view(raw@), j as int)) && i <= j <= s@.len(),
            Err(e) => sp_top(s@, i as int, fuel as nat) == Err::<
                (Seq<(SpecKey, SpecValue)>, int),
                int,
            >(e as int),
        },
    decreases fuel,
{
    if fuel == 0 {
        return Err(i);
    }
    let j = skip_ws_at(s, i);
    if j >= s.len() {
        let out: Vec<(DictKey, ParsedValue)> = Vec::new();
        proof {
            assert(pairs_seq_view(out@) =~= Seq::<(SpecKey, SpecValue)>::empty());
        }
        return Ok((out, j));
    }
    match parse_pair_at(s, j, fuel - 1) {
        Err(e) => Err(e),
        Ok((p, k)) => {
            let ghost p0 = p;
            let m = skip_line_ws_at(s, k);
            if m >= s.len() {
                let mut out: Vec<(DictKey, ParsedValue)> = Vec::new();
                out.push(p);
                proof {
                    reveal_with_fuel(pairs_seq_view, 3);
                    assert(out@ =~= seq![p0]);
                    assert(out@.drop_last() =~= Seq::<(DictKey, ParsedValue)>::empty());
                    assert(pairs_seq_view(out@) =~= seq![(p0.0@, p0.1@)]);
                }
                Ok((out, m))
            } else if s[m] == '\n' {
                match parse_top_at(s, m + 1, fuel - 1) {
                    Ok((rest, e2)) => {
                        let ghost rest0 = rest@;
                        let mut out: Vec<(DictKey, ParsedValue)> = Vec::new();
                        out.push(p);
                        let mut rest_m = rest;
                        out.append(&mut rest_m);
                        proof {
                            assert(out@ =~= seq![p0] + rest0);
                            crate::value::lemma_pairs_seq_view_prepend(p0, rest0);
                        }
                        Ok((out, e2))
                    },
                    Err(e) => Err(e),
                }
            } else {
                Err(m)
            }
        },
    }
}

/// Merges raw pairs left to right under the duplicate-key rule, yielding
/// entries with unique keys in first-occurrence order.
fn merge_raw(raw: Vec<(DictKey, ParsedValue)>) -> (entries: Vec<(DictKey, ParsedValue)>)
    ensures
        crate::value::unique_keys(entries@),
        entries_view(entries@) == crate::value::merge_pairs(pairs_seq_view(raw@)),
{
    let ghost raw0 = raw@;
    let mut rem = raw;
    let mut entries: Vec<(DictKey, ParsedValue)> = Vec::new();
    let ghost mut done: Seq<(DictKey, ParsedValue)> = Seq::empty();
    proof {
        assert(pairs_seq_view(done) =~= Seq::<(SpecKey, SpecValue)>::empty());
        assert(entries_view(entries@) =~= crate::value::merge_pairs(pairs_seq_view(done)));
        assert(done + rem@ =~= raw0);
    }
    while rem.len() > 0
        invariant
            done + rem@ == raw0,
            crate::value::unique_keys(entries@),
            entries_view(entries@) == crate::value::merge_pairs(pairs_seq_view(done)),
        decreases rem@.len(),
    {
        let ghost pre_done = done;
        let (k, v) = rem.remove(0);
        let ghost kv = (k, v);
        crate::value::object_insert(&mut entries, k, v);
        proof {
            done = pre_done.push(kv);
            assert(done + rem@ =~= raw0);
            assert(pre_done.push(kv).drop_last() =~= pre_done);
            assert(pre_done.push(kv).last() == kv);
            assert(pairs_seq_view(done) =~= pairs_seq_view(pre_done).push((kv.0@, kv.1@)));
            assert(pairs_seq_view(done).drop_last() =~= pairs_seq_view(pre_done));
            assert(pairs_seq_view(done).last() == (kv.0@, kv.1@));
            assert(crate::value::merge_pairs(pairs_seq_view(done)) == crate::value::merge_into(
                crate::value::merge_pairs(pairs_seq_view(pre_done)),
                kv.0@,
                kv.1@,
            ));
            assert(entries_view(entries@) =~= crate::value::merge_pairs(
                pairs_seq_view(done),
            ));
        }
    }
    proof {
        assert(done =~= raw0);
    }
    entries
}

/// A structural parse failure, at the character offset where it was found.
#[derive(Debug, Clone, Copy, PartialEq, Eq, Structural)]
pub struct ParseError {
    pub pos: usize,
}

/// The parser of the descriptor dialect.
pub struct ParadoxParser;

impl ParadoxParser {
    /// Parses a whole descriptor text into its top-level object: entries
    /// with unique keys, merged under the duplicate-key rule, in
    /// first-occurrence order. A failure carries the character offset the
    /// grammar specification assigns it, so equal inputs fail alike.
    pub fn parse_to_hash_map(input: &str) -> (r: Result<Vec<(DictKey, ParsedValue)>, ParseError>)
        requires
            input@.len() <= 0x0fff_ffff,
        ensures
            match r {
                Ok(entries) => crate::value::unique_keys(entries@) && spec_parse_doc(input@)
                    == Ok::<Map<SpecKey, SpecValue>, int>(entries_view(entries@)),
                Err(e) => spec_parse_doc(input@) == Err::<Map<SpecKey, SpecValue>, int>(
                    e.pos as int,
                ),
            },
    {
        let chars = crate::strutil::str_to_chars(input);
        let fuel: usize = 4 * chars.len() + 16;
        proof {
            assert(fuel as nat == doc_fuel(input@));
        }
        match parse_top_at(&chars, 0, fuel) {
            Ok((raw, _)) => Ok(merge_raw(raw)),
            Err(pos) => Err(ParseError { pos }),
        }
    }
}

/// Parses a whole descriptor text into its top-level object.
pub fn parse_content(content: &str) -> (r: Result<Vec<(DictKey, ParsedValue)>, ParseError>)
    requires
        content@.len() <= 0x0fff_ffff,
    ensures
        match r {
            Ok(entries) => crate::value::unique_keys(entries@) && spec_parse_doc(content@) == Ok::<
                Map<SpecKey, SpecValue>,
                int,
            >(entries_view(entries@)),
            Err(e) => spec_parse_doc(content@) == Err::<Map<SpecKey, SpecValue>, int>(
                e.pos as int,
            ),
        },
{
    ParadoxParser::parse_to_hash_map(content)
}

} // verus!
