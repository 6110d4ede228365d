//! A textual rendering of parsed values, for display: keys print bare,
//! strings print quoted, arrays bracketed and objects braced, elements
//! comma-separated in entry order.

use vstd::prelude::*;
use crate::value::DictKey;
use crate::value::ParsedValue;
use crate::strutil::chars_to_string;
use vstd::string::StringExecFns;

verus! {

broadcast use vstd::std_specs::vec::axiom_vec_index_decreases;

pub open spec fn digit_char(d: int) -> char {
    ((48 + d) as u8) as char
}

/// The decimal digits of a non-negative number.
pub open spec fn spec_render_nat(n: int) -> Seq<char>
    decreases n,
{
    if n <= 9 {
        seq![digit_char(if n < 0 {
            0
        } else {
            n
        })]
    } else {
        spec_render_nat(n / 10).push(digit_char(n % 10))
    }
}

/// The decimal rendering of an integer.
pub open spec fn spec_render_int(i: int) -> Seq<char> {
    if i < 0 {
        seq!['-'] + spec_render_nat(-i)
    } else {
        spec_render_nat(i)
    }
}

/// The rendering of a key: its text, or its digits.
pub open spec fn spec_render_key(k: DictKey) -> Seq<char> {
    match k {
        DictKey::Str(s) => s@,
        DictKey::Int(i) => spec_render_int(i as int),
    }
}

/// The rendering of a value.
pub open spec fn spec_render_value(v: ParsedValue) -> Seq<char>
    decreases v,
    via spec_render_value_decreases
{
    match v {
        ParsedValue::Null => "null"@,
        ParsedValue::Bool(b) => if b {
            "true"@
        } else {
            "false"@
        },
        ParsedValue::Int(i) => spec_render_int(i as int),
        ParsedValue::Float(s) => s@,
        ParsedValue::Str(s) => seq!['"'] + s@ + seq!['"'],
        ParsedValue::Array(elems) => seq!['['] + spec_render_items(elems@) + seq![']'],
        ParsedValue::Object(entries) => seq!['{'] + spec_render_entries(entries@) + seq!['}'],
    }
}

#[via_fn]
proof fn spec_render_value_decreases(v: ParsedValue) {
    match v {
        ParsedValue::Array(elems) => {
            assert(decreases_to!(v => elems));
            assert(decreases_to!(elems => elems@));
        },
        ParsedValue::Object(entries) => {
            assert(decreases_to!(v => entries));
            assert(decreases_to!(entries => entries@));
        },
        _ => (),
    }
}

/// The renderings of array elements, comma-separated.
pub open spec fn spec_render_items(s: Seq<ParsedValue>) -> Seq<char>
    decreases s,
    via spec_render_items_decreases
{
    if s.len() == 0 {
        Seq::empty()
    } else if s.len() == 1 {
        spec_render_value(s[0])
    } else {
        spec_render_items(s.drop_last()) + seq![',', ' '] + spec_render_value(s.last())
    }
}

#[via_fn]
proof fn spec_render_items_decreases(s: Seq<ParsedValue>) {
    if s.len() != 0 {
        assert(decreases_to!(s => s.drop_last()));
        assert(decreases_to!(s => s[0]));
        assert(decreases_to!(s => s[s.len() - 1]));
    }
}

/// The renderings of object entries, each `"key": value`, comma-separated.
pub open spec fn spec_render_entries(s: Seq<(DictKey, ParsedValue)>) -> Seq<char>
    decreases s,
    via spec_render_entries_decreases
{
    if s.len() == 0 {
        Seq::empty()
    } else if s.len() == 1 {
        seq!['"'] + spec_render_key(s[0].0) + seq!['"', ':', ' '] + spec_render_value(s[0].1)
    } else {
        spec_render_entries(s.drop_last()) + seq![',', ' '] + seq!['"'] + spec_render_key(
            s.last().0,
        ) + seq!['"', ':', ' '] + spec_render_value(s.last().1)
    }
}

#[via_fn]
proof fn spec_render_entries_decreases(s: Seq<(DictKey, ParsedValue)>) {
    if s.len() != 0 {
        assert(decreases_to!(s => s.drop_last()));
        assert(decreases_to!(s => s[0]));
        assert(decreases_to!(s => s[s.len() - 1]));
    }
}

/// The rendering of one object entry.
pub open spec fn spec_render_entry(k: DictKey, v: ParsedValue) -> Seq<char> {
    seq!['"'] + spec_render_key(k) + seq!['"', ':', ' '] + spec_render_value(v)
}

/// Appends the decimal digits of `n`.
fn push_nat(out: &mut Vec<char>, n: u64)
    ensures
        final(out)@ == old(out)@ + spec_render_nat(n as int),
    decreases n,
{
    if n <= 9 {
        let c: u8 = 48 + (n as u8);
        out.push(c as char);
        proof {
            assert(out@ =~= old(out)@ + spec_render_nat(n as int));
        }
    } else {
        push_nat(out, n / 10);
        let d: u8 = 48 + ((n % 10) as u8);
        out.push(d as char);
        proof {
            assert(out@ =~= old(out)@ + spec_render_nat(n as int));
        }
    }
}

/// Appends the decimal rendering of `i`.
fn push_int(out: &mut Vec<char>, i: i64)
    ensures
        final(out)@ == old(out)@ + spec_render_int(i as int),
{
    if i < 0 {
        out.push('-');
        let mag: u64 = if i == i64::MIN {
            0x8000_0000_0000_0000u64
        } else {
            (-i) as u64
        };
        let ghost mid = out@;
        push_nat(out, mag);
        proof {
            assert(out@ =~= old(out)@ + spec_render_int(i as int));
        }
    } else {
        push_nat(out, i as u64);
    }
}

impl DictKey {
    /// The display text of this key.
    pub fn to_display_string(&self) -> (r: String)
        ensures
            r@ == spec_render_key(*self),
    {
        match self {
            DictKey::Str(s) => s.clone(),
            DictKey::Int(i) => {
                let mut out: Vec<char> = Vec::new();
                push_int(&mut out, *i);
                chars_to_string(&out)
            },
        }
    }
}

fn push_str_chars(out: &mut Vec<char>, s: &str)
    ensures
        final(out)@ == old(out)@ + s@,
{
    let cs = crate::strutil::str_to_chars(s);
    let mut i: usize = 0;
    while i < cs.len()
        invariant
            i <= cs@.len(),
            cs@ == s@,
            out@ == old(out)@ + s@.subrange(0, i as int),
        decreases cs@.len() - i,
    {
        out.push(cs[i]);
        proof {
            assert(out@ =~= old(out)@ + s@.subrange(0, i + 1 as int));
        }
        i = i + 1;
    }
    proof {
        assert(s@.subrange(0, s@.len() as int) =~= s@);
    }
}

fn push_value(out: &mut Vec<char>, v: &ParsedValue)
    ensures
        final(out)@ == old(out)@ + spec_render_value(*v),
    decreases *v,
{
    match v {
        ParsedValue::Null => {
            push_str_chars(out, "null");
        },
        ParsedValue::Bool(b) => {
            if *b {
                push_str_chars(out, "true");
            } else {
                push_str_chars(out, "false");
            }
        },
        ParsedValue::Int(i) => {
            push_int(out, *i);
        },
        ParsedValue::Float(s) => {
            push_str_chars(out, s.as_str());
        },
        ParsedValue::Str(s) => {
            out.push('"');
            push_str_chars(out, s.as_str());
            out.push('"');
            proof {
                assert(out@ =~= old(out)@ + spec_render_value(*v));
            }
        },
        ParsedValue::Array(elems) => {
            out.push('[');
            let ghost mid0 = out@;
            let mut i: usize = 0;
            while i < elems.len()
                invariant
                    *v == ParsedValue::Array(*elems),
                    i <= elems@.len(),
                    out@ == mid0 + spec_render_items(elems@.subrange(0, i as int)),
                decreases elems@.len() - i,
            {
                let ghost pre = elems@.subrange(0, i as int);
                let ghost post = elems@.subrange(0, i + 1 as int);
                let ghost before = out@;
                if i > 0 {
                    out.push(',');
                    out.push(' ');
                }
                proof {
                    assert(*elems == v->Array_0);
                    assert(decreases_to!(*v => v->Array_0));
                    assert(decreases_to!(*elems => elems@));
                    assert(decreases_to!(elems@ => elems@[i as int]));
                }
                push_value(out, &elems[i]);
                proof {
                    assert(post.drop_last() =~= pre);
                    assert(post.last() == elems@[i as int]);
                    if i == 0 {
                        assert(spec_render_items(post) =~= spec_render_value(elems@[0]));
                        assert(out@ =~= mid0 + spec_render_items(post));
                    } else {
                        assert(spec_render_items(post) =~= spec_render_items(pre) + seq![',', ' ']
                            + spec_render_value(elems@[i as int]));
                        assert(out@ =~= mid0 + spec_render_items(post));
                    }
                }
                i = i + 1;
            }
            out.push(']');
            proof {
                assert(elems@.subrange(0, elems@.len() as int) =~= elems@);
                assert(out@ =~= old(out)@ + spec_render_value(*v));
            }
        },
        ParsedValue::Object(entries) => {
            out.push('{');
            let ghost mid0 = out@;
            let mut i: usize = 0;
            while i < entries.len()
                invariant
                    *v == ParsedValue::Object(*entries),
                    i <= entries@.len(),
                    out@ == mid0 + spec_render_entries(entries@.subrange(0, i as int)),
                decreases entries@.len() - i,
            {
                let ghost pre = entries@.subrange(0, i as int);
                let ghost post = entries@.subrange(0, i + 1 as int);
                if i > 0 {
                    out.push(',');
                    out.push(' ');
                }
                let ghost before_entry = out@;
                let entry = &entries[i];
                out.push('"');
                let key_text = entry.0.to_display_string();
                push_str_chars(out, key_text.as_str());
                out.push('"');
                out.push(':');
                out.push(' ');
                proof {
                    assert(*entries == v->Object_0);
                    assert(decreases_to!(*v => v->Object_0));
                    assert(decreases_to!(*entries => entries@));
                    assert(decreases_to!(entries@ => entries@[i as int]));
                    assert(decreases_to!(entries@[i as int] => entries@[i as int].1));
                }
                push_value(out, &entry.1);
                proof {
                    assert(post.drop_last() =~= pre);
                    assert(post.last() == entries@[i as int]);
                    assert(out@ =~= before_entry + spec_render_entry(
                        entries@[i as int].0,
                        entries@[i as int].1,
                    ));
                    if i == 0 {
                        assert(spec_render_entries(post) =~= spec_render_entry(
                            entries@[0].0,
                            entries@[0].1,
                        ));
                        assert(out@ =~= mid0 + spec_render_entries(post));
                    } else {
                        assert(spec_render_entries(post) =~= spec_render_entries(pre) + seq![
                            ',',
                            ' ',
                        ] + spec_render_entry(entries@[i as int].0, entries@[i as int].1));
                        assert(out@ =~= mid0 + spec_render_entries(post));
                    }
                }
                i = i + 1;
            }
            out.push('}');
            proof {
                assert(entries@.subrange(0, entries@.len() as int) =~= entries@);
                assert(out@ =~= old(out)@ + spec_render_value(*v));
            }
        },
    }
}

impl ParsedValue {
    /// The display text of this value.
    pub fn to_display_string(&self) -> (r: String)
        ensures
            r@ == spec_render_value(*self),
    {
        let mut out: Vec<char> = Vec::new();
        push_value(&mut out, self);
        chars_to_string(&out)
    }
}

} // verus!
