//! The metadata extractor: maps a parsed top-level object to a normalized
//! metadata record.

use vstd::prelude::*;
use crate::value::DictKey;
use crate::value::ParsedValue;
use crate::value::SpecKey;
use crate::value::SpecValue;
use crate::value::entries_view;
use crate::value::values_view;
use crate::value::value_view;
use crate::value::lemma_values_view_index;
use crate::value::object_get;
use vstd::string::StrSliceExecFns;

verus! {

/// Specification-level mirror of a metadata record.
pub ghost struct SpecMeta {
    pub name: Seq<char>,
    pub version: Option<Seq<char>>,
    pub local_path: Seq<char>,
    pub dependencies: Seq<Seq<char>>,
    pub tags: Seq<Seq<char>>,
    pub remote_file_id: Option<Seq<char>>,
}

/// Normalized metadata of one mod.
#[derive(Debug, Clone, PartialEq)]
pub struct Meta {
    pub name: String,
    pub version: Option<String>,
    pub local_path: String,
    pub dependencies: Vec<String>,
    pub tags: Vec<String>,
    pub remote_file_id: Option<String>,
}

impl View for Meta {
    type V = SpecMeta;

    open spec fn view(&self) -> SpecMeta {
        SpecMeta {
            name: self.name@,
            version: self.version.deep_view(),
            local_path: self.local_path@,
            dependencies: self.dependencies.deep_view(),
            tags: self.tags.deep_view(),
            remote_file_id: self.remote_file_id.deep_view(),
        }
    }
}

/// Why a parsed object could not be read as metadata.
#[derive(Debug, Clone, Copy, PartialEq, Eq, Structural)]
pub enum ExtractError {
    /// The `name` key is absent or not bound to a string.
    MissingName,
    /// The `tags` key is bound to an array holding a non-string element.
    InvalidTag,
}

pub open spec fn is_str_val(v: SpecValue) -> bool {
    v is Str
}

pub open spec fn str_val(v: SpecValue) -> Seq<char> {
    match v {
        SpecValue::Str(t) => t,
        _ => Seq::empty(),
    }
}

/// The string bound to `key`, when there is one.
pub open spec fn opt_str_field(m: Map<SpecKey, SpecValue>, key: Seq<char>) -> Option<Seq<char>> {
    if m.contains_key(SpecKey::Str(key)) && is_str_val(m[SpecKey::Str(key)]) {
        Some(str_val(m[SpecKey::Str(key)]))
    } else {
        None
    }
}

/// The string elements of a value sequence, non-strings dropped.
pub open spec fn str_elements(vs: Seq<SpecValue>) -> Seq<Seq<char>>
    decreases vs.len(),
{
    if vs.len() == 0 {
        Seq::empty()
    } else {
        str_elements(vs.drop_last()) + (if is_str_val(vs.last()) {
            seq![str_val(vs.last())]
        } else {
            Seq::<Seq<char>>::empty()
        })
    }
}

/// The array bound to `key`, when there is one.
pub open spec fn opt_array_field(m: Map<SpecKey, SpecValue>, key: Seq<char>) -> Option<
    Seq<SpecValue>,
> {
    if m.contains_key(SpecKey::Str(key)) && m[SpecKey::Str(key)] is Array {
        Some(m[SpecKey::Str(key)]->Array_0)
    } else {
        None
    }
}

/// Whether the `tags` binding holds an array with a non-string element.
pub open spec fn tags_invalid(m: Map<SpecKey, SpecValue>) -> bool {
    match opt_array_field(m, "tags"@) {
        Some(vs) => exists|i: int| 0 <= i < vs.len() && !is_str_val(#[trigger] vs[i]),
        None => false,
    }
}

/// The extraction of a metadata record from a parsed top-level object:
/// `name` is required and must be a string; `version` and `remote_file_id`
/// are optional strings; `local_path` comes from the `path` key and
/// otherwise defaults to the descriptor's own path; `dependencies` keeps
/// the string elements of its array and drops the rest silently, while a
/// non-string element under `tags` fails the extraction — the source
/// format treats the two fields asymmetrically, and the asymmetry is kept.
pub open spec fn spec_extract(m: Map<SpecKey, SpecValue>, fallback: Seq<char>) -> Result<
    SpecMeta,
    ExtractError,
> {
    if opt_str_field(m, "name"@) is None {
        Err(ExtractError::MissingName)
    } else if tags_invalid(m) {
        Err(ExtractError::InvalidTag)
    } else {
        Ok(
            SpecMeta {
                name: opt_str_field(m, "name"@)->0,
                version: opt_str_field(m, "version"@),
                local_path: match opt_str_field(m, "path"@) {
                    Some(p) => p,
                    None => fallback,
                },
                dependencies: match opt_array_field(m, "dependencies"@) {
                    Some(vs) => str_elements(vs),
                    None => Seq::empty(),
                },
                tags: match opt_array_field(m, "tags"@) {
                    Some(vs) => str_elements(vs),
                    None => Seq::empty(),
                },
                remote_file_id: opt_str_field(m, "remote_file_id"@),
            },
        )
    }
}

/// The owned string elements of an array value, non-strings dropped.
fn collect_str_elements(elems: &Vec<ParsedValue>) -> (r: Vec<String>)
    ensures
        r.deep_view() == str_elements(values_view(elems@)),
{
    let ghost vs = values_view(elems@);
    proof {
        lemma_values_view_index(elems@);
    }
    let mut out: Vec<String> = Vec::new();
    let mut i: usize = 0;
    while i < elems.len()
        invariant
            i <= elems@.len(),
            vs == values_view(elems@),
            vs.len() == elems@.len(),
            forall|j: int| 0 <= j < elems@.len() ==> vs[j] == value_view(#[trigger] elems@[j]),
            out.deep_view() == str_elements(vs.subrange(0, i as int)),
        decreases elems@.len() - i,
    {
        let ghost pre = vs.subrange(0, i as int);
        let ghost post = vs.subrange(0, i + 1 as int);
        proof {
            assert(post.drop_last() =~= pre);
            assert(post.last() == vs[i as int]);
        }
        match &elems[i] {
            ParsedValue::Str(s) => {
                let ghost pre_out = out.deep_view();
                out.push(s.clone());
                proof {
                    assert(out.deep_view() =~= pre_out.push(s@));
                    assert(str_elements(post) =~= pre_out.push(s@));
                }
            },
            _ => {
                proof {
                    assert(str_elements(post) =~= str_elements(pre));
                }
            },
        }
        i = i + 1;
    }
    proof {
        assert(vs.subrange(0, vs.len() as int) =~= vs);
    }
    out
}

/// Whether every element of an array value is a string.
fn all_str_elements(elems: &Vec<ParsedValue>) -> (r: bool)
    ensures
        r == (forall|i: int|
            0 <= i < values_view(elems@).len() ==> is_str_val(#[trigger] values_view(elems@)[i])),
{
    let ghost vs = values_view(elems@);
    proof {
        lemma_values_view_index(elems@);
    }
    let mut i: usize = 0;
    while i < elems.len()
        invariant
            i <= elems@.len(),
            vs == values_view(elems@),
            vs.len() == elems@.len(),
            forall|j: int| 0 <= j < elems@.len() ==> vs[j] == value_view(#[trigger] elems@[j]),
            forall|j: int| 0 <= j < i ==> is_str_val(#[trigger] vs[j]),
        decreases elems@.len() - i,
    {
        match &elems[i] {
            ParsedValue::Str(_) => {},
            _ => {
                proof {
                    assert(!is_str_val(vs[i as int]));
                }
                return false;
            },
        }
        i = i + 1;
    }
    true
}

impl Meta {
    /// A record with the given fields, no tags and no remote id.
    pub fn new(name: String, version: String, local_path: String, dependencies: Vec<String>) -> (m:
        Meta)
        ensures
            m.name == name,
            m.version == Some(version),
            m.local_path == local_path,
            m.dependencies == dependencies,
            m.tags@ == Seq::<String>::empty(),
            m.remote_file_id is None,
    {
        Meta {
            name,
            version: Some(version),
            local_path,
            dependencies,
            tags: Vec::new(),
            remote_file_id: None,
        }
    }

    /// Reads a metadata record out of a parsed top-level object;
    /// `fallback_path` stands in for a missing `path` key.
    pub fn extract(entries: &Vec<(DictKey, ParsedValue)>, fallback_path: &str) -> (r: Result<
        Meta,
        ExtractError,
    >)
        ensures
            match r {
                Ok(m) => spec_extract(entries_view(entries@), fallback_path@) == Ok::<
                    SpecMeta,
                    ExtractError,
                >(m@),
                Err(e) => spec_extract(entries_view(entries@), fallback_path@) == Err::<
                    SpecMeta,
                    ExtractError,
                >(e),
            },
    {
        let ghost m = entries_view(entries@);
        let name: String = match object_get(entries, "name") {
            Some(v) => match v.as_string() {
                Some(s) => s,
                None => {
                    return Err(ExtractError::MissingName);
                },
            },
            None => {
                return Err(ExtractError::MissingName);
            },
        };
        let tags: Vec<String> = match object_get(entries, "tags") {
            Some(v) => match v.as_array() {
                Some(elems) => {
                    if !all_str_elements(elems) {
                        return Err(ExtractError::InvalidTag);
                    }
                    collect_str_elements(elems)
                },
                None => Vec::new(),
            },
            None => Vec::new(),
        };
        proof {
            assert(!tags_invalid(m));
        }
        let version: Option<String> = match object_get(entries, "version") {
            Some(v) => v.as_string(),
            None => None,
        };
        let local_path: String = match object_get(entries, "path") {
            Some(v) => match v.as_string() {
                Some(p) => p,
                None => fallback_path.to_owned(),
            },
            None => fallback_path.to_owned(),
        };
        let dependencies: Vec<String> = match object_get(entries, "dependencies") {
            Some(v) => match v.as_array() {
                Some(elems) => collect_str_elements(elems),
                None => Vec::new(),
            },
            None => Vec::new(),
        };
        let remote_file_id: Option<String> = match object_get(entries, "remote_file_id") {
            Some(v) => v.as_string(),
            None => None,
        };
        let result = Meta { name, version, local_path, dependencies, tags, remote_file_id };
        proof {
            let expected = spec_extract(m, fallback_path@)->Ok_0;
            assert(result@.name =~= expected.name);
            assert(result@.version =~~= expected.version);
            assert(result@.local_path =~= expected.local_path);
            assert(result@.dependencies =~~= expected.dependencies);
            assert(result@.tags =~~= expected.tags);
            assert(result@.remote_file_id =~~= expected.remote_file_id);
            assert(result@ == expected);
        }
        Ok(result)
    }
}

} // verus!
