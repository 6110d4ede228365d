//! A normalized mod descriptor record, with set-like dependency and tag
//! updates and a JSON rendering for persistence.

use vstd::prelude::*;
use crate::strutil::string_eq_str;
use crate::strutil::str_to_chars;
use crate::strutil::chars_to_string;
use vstd::string::StringExecFns;

verus! {

/// Specification-level mirror of a descriptor record.
pub ghost struct SpecDescriptor {
    pub name: Seq<char>,
    pub version: Seq<char>,
    pub dependencies: Seq<Seq<char>>,
    pub tags: Seq<Seq<char>>,
    pub supported_version: Seq<char>,
    pub local_path: Seq<char>,
    pub remote_file_id: Seq<char>,
}

/// Normalized metadata of one mod, as read from its descriptor file.
#[derive(Debug, Clone, PartialEq)]
pub struct ModDescriptor {
    pub name: String,
    pub version: String,
    pub dependencies: Vec<String>,
    pub tags: Vec<String>,
    pub supported_version: String,
    pub local_path: String,
    pub remote_file_id: String,
}

impl ModDescriptor {
    /// A descriptor with the given fields.
    pub fn new(
        name: String,
        version: String,
        dependencies: Vec<String>,
        tags: Vec<String>,
        supported_version: String,
        local_path: String,
        remote_file_id: String,
    ) -> (r: ModDescriptor)
        ensures
            r.name == name,
            r.version == version,
            r.dependencies == dependencies,
            r.tags == tags,
            r.supported_version == supported_version,
            r.local_path == local_path,
            r.remote_file_id == remote_file_id,
    {
        ModDescriptor { name, version, dependencies, tags, supported_version, local_path, remote_file_id }
    }

    /// Whether `name` is among the declared dependencies.
    pub fn has_dependency(&self, name: &str) -> (r: bool)
        ensures
            r == self.dependencies.deep_view().contains(name@),
    {
        contains_string(&self.dependencies, name)
    }

    /// Whether `tag` is among the declared tags.
    pub fn has_tag(&self, tag: &str) -> (r: bool)
        ensures
            r == self.tags.deep_view().contains(tag@),
    {
        contains_string(&self.tags, tag)
    }

    /// Adds a dependency unless an equal one is already declared.
    pub fn add_dependency(&mut self, dep: String)
        ensures
            old(self).dependencies.deep_view().contains(dep@) ==> *final(self) == *old(self),
            !old(self).dependencies.deep_view().contains(dep@) ==> *final(self) == (ModDescriptor {
                dependencies: final(self).dependencies,
                ..*old(self)
            }) && final(self).dependencies@ == old(self).dependencies@.push(dep),
    {
        if !contains_string(&self.dependencies, dep.as_str()) {
            self.dependencies.push(dep);
        }
    }

    /// Adds a tag unless an equal one is already declared.
    pub fn add_tag(&mut self, tag: String)
        ensures
            old(self).tags.deep_view().contains(tag@) ==> *final(self) == *old(self),
            !old(self).tags.deep_view().contains(tag@) ==> *final(self) == (ModDescriptor {
                tags: final(self).tags,
                ..*old(self)
            }) && final(self).tags@ == old(self).tags@.push(tag),
    {
        if !contains_string(&self.tags, tag.as_str()) {
            self.tags.push(tag);
        }
    }
}

impl View for ModDescriptor {
    type V = SpecDescriptor;

    open spec fn view(&self) -> SpecDescriptor {
        SpecDescriptor {
            name: self.name@,
            version: self.version@,
            dependencies: self.dependencies.deep_view(),
            tags: self.tags.deep_view(),
            supported_version: self.supported_version@,
            local_path: self.local_path@,
            remote_file_id: self.remote_file_id@,
        }
    }
}

/// The text, with each double quote and backslash preceded by a backslash.
pub open spec fn json_escape(s: Seq<char>) -> Seq<char>
    decreases s.len(),
{
    if s.len() == 0 {
        Seq::empty()
    } else {
        (if s[0] == '"' || s[0] == '\\' {
            seq!['\\', s[0]]
        } else {
            seq![s[0]]
        }) + json_escape(s.drop_first())
    }
}

/// The text as a JSON string token.
pub open spec fn json_str(s: Seq<char>) -> Seq<char> {
    seq!['"'] + json_escape(s) + seq!['"']
}

/// Comma-separated JSON string tokens.
pub open spec fn json_str_list(ss: Seq<Seq<char>>) -> Seq<char>
    decreases ss.len(),
{
    if ss.len() == 0 {
        Seq::empty()
    } else if ss.len() == 1 {
        json_str(ss[0])
    } else {
        json_str_list(ss.drop_last()) + seq![','] + json_str(ss.last())
    }
}

/// The JSON rendering of a descriptor: one object, fields in a fixed
/// order, string arrays for the dependency and tag lists.
pub open spec fn spec_json_of(d: SpecDescriptor) -> Seq<char> {
    ("{\"name\":")@ + json_str(d.name) + (",\"version\":")@ + json_str(d.version) + (",\"dependencies\":[")@
        + json_str_list(d.dependencies) + ("],\"tags\":[")@ + json_str_list(d.tags)
        + ("],\"supported_version\":")@ + json_str(d.supported_version) + (",\"local_path\":")@
        + json_str(d.local_path) + (",\"remote_file_id\":")@ + json_str(d.remote_file_id) + ("}")@
}

pub proof fn lemma_json_escape_app(a: Seq<char>, b: Seq<char>)
    ensures
        json_escape(a + b) == json_escape(a) + json_escape(b),
    decreases a.len(),
{
    if a.len() == 0 {
        assert(a + b =~= b);
        assert(json_escape(a) =~= Seq::<char>::empty());
        assert(json_escape(a) + json_escape(b) =~= json_escape(b));
    } else {
        lemma_json_escape_app(a.drop_first(), b);
        assert((a + b).drop_first() =~= a.drop_first() + b);
        assert((a + b)[0] == a[0]);
        assert(json_escape(a + b) =~= json_escape(a) + json_escape(b));
    }
}

/// The escaped text.
fn escape_chars(v: &Vec<char>) -> (r: Vec<char>)
    ensures
        r@ == json_escape(v@),
{
    let mut r: Vec<char> = Vec::new();
    let mut i: usize = 0;
    proof {
        assert(v@.subrange(0, 0) =~= Seq::<char>::empty());
        assert(r@ =~= json_escape(v@.subrange(0, 0)));
    }
    while i < v.len()
        invariant
            i <= v@.len(),
            r@ == json_escape(v@.subrange(0, i as int)),
        decreases v@.len() - i,
    {
        let ghost pre = v@.subrange(0, i as int);
        let ghost pre_r = r@;
        let c = v[i];
        if c == '"' || c == '\\' {
            r.push('\\');
            r.push(c);
        } else {
            r.push(c);
        }
        proof {
            let one = seq![v@[i as int]];
            assert(v@.subrange(0, i + 1 as int) =~= pre + one);
            lemma_json_escape_app(pre, one);
            assert(one.drop_first() =~= Seq::<char>::empty());
            assert(json_escape(Seq::<char>::empty()) =~= Seq::<char>::empty());
            if c == '"' || c == '\\' {
                assert(json_escape(one) =~= seq!['\\', c]);
                assert(r@ =~= pre_r + seq!['\\', c]);
            } else {
                assert(json_escape(one) =~= seq![c]);
                assert(r@ =~= pre_r + seq![c]);
            }
            assert(r@ =~= json_escape(v@.subrange(0, i + 1 as int)));
        }
        i = i + 1;
    }
    proof {
        assert(v@.subrange(0, v@.len() as int) =~= v@);
    }
    r
}

/// Appends the JSON string token of `s`.
fn push_json_str(out: &mut String, s: &str)
    ensures
        final(out)@ == old(out)@ + json_str(s@),
{
    let chars = str_to_chars(s);
    let escaped = escape_chars(&chars);
    let body = chars_to_string(&escaped);
    out.append("\"");
    out.append(body.as_str());
    out.append("\"");
    proof {
        assert(("\"")@ =~= seq!['"']) by {
            reveal_strlit("\"");
        }
        assert(out@ =~= old(out)@ + json_str(s@));
    }
}

/// Appends the string tokens of the list, comma-separated.
fn push_json_list_body(out: &mut String, ss: &Vec<String>)
    ensures
        final(out)@ == old(out)@ + json_str_list(ss.deep_view()),
{
    let ghost all = ss.deep_view();
    proof {
        assert(json_str_list(all.subrange(0, 0)) =~= Seq::<char>::empty());
        assert(out@ =~= old(out)@ + json_str_list(all.subrange(0, 0)));
    }
    let mut i: usize = 0;
    while i < ss.len()
        invariant
            i <= ss@.len(),
            all == ss.deep_view(),
            all.len() == ss@.len(),
            forall|j: int| 0 <= j < ss@.len() ==> all[j] == #[trigger] ss@[j]@,
            out@ == old(out)@ + json_str_list(all.subrange(0, i as int)),
        decreases ss@.len() - i,
    {
        let ghost pre = all.subrange(0, i as int);
        let ghost post = all.subrange(0, i + 1 as int);
        if i > 0 {
            out.append(",");
            proof {
                assert((",")@ =~= seq![',']) by {
                    reveal_strlit(",");
                }
            }
        }
        push_json_str(out, ss[i].as_str());
        proof {
            assert(post.drop_last() =~= pre);
            assert(post.last() == all[i as int]);
            if i == 0 {
                assert(json_str_list(post) =~= json_str(all[0]));
                assert(pre =~= Seq::<Seq<char>>::empty());
                assert(json_str_list(pre) =~= Seq::<char>::empty());
            } else {
                assert(json_str_list(post) =~= json_str_list(pre) + seq![','] + json_str(
                    all[i as int],
                ));
            }
            assert(out@ =~= old(out)@ + json_str_list(post));
        }
        i = i + 1;
    }
    proof {
        assert(all.subrange(0, all.len() as int) =~= all);
    }
}

/// Whether some element of `v` has the characters of `s`.
pub fn contains_string(v: &Vec<String>, s: &str) -> (r: bool)
    ensures
        r == v.deep_view().contains(s@),
{
    let mut i: usize = 0;
    while i < v.len()
        invariant
            i <= v@.len(),
            forall|j: int| 0 <= j < i ==> v.deep_view()[j] != s@,
        decreases v@.len() - i,
    {
        if string_eq_str(&v[i], s) {
            proof {
                assert(v.deep_view()[i as int] == s@);
            }
            return true;
        }
        i = i + 1;
    }
    proof {
        assert forall|j: int| 0 <= j < v.deep_view().len() implies v.deep_view()[j] != s@ by {}
    }
    false
}

impl ModDescriptor {
    /// The JSON rendering of this descriptor.
    pub fn to_json_string(&self) -> (r: String)
        ensures
            r@ == spec_json_of(self@),
    {
        let mut out = String::new();
        out.append("{\"name\":");
        push_json_str(&mut out, self.name.as_str());
        out.append(",\"version\":");
        push_json_str(&mut out, self.version.as_str());
        out.append(",\"dependencies\":[");
        push_json_list_body(&mut out, &self.dependencies);
        out.append("],\"tags\":[");
        push_json_list_body(&mut out, &self.tags);
        out.append("],\"supported_version\":");
        push_json_str(&mut out, self.supported_version.as_str());
        out.append(",\"local_path\":");
        push_json_str(&mut out, self.local_path.as_str());
        out.append(",\"remote_file_id\":");
        push_json_str(&mut out, self.remote_file_id.as_str());
        out.append("}");
        proof {
            assert(out@ =~= spec_json_of(self@));
        }
        out
    }

    /// The descriptor a JSON text renders, when the text is in the fixed
    /// shape that [`ModDescriptor::to_json_string`] writes.
    pub fn from_json_string(s: &str) -> (r: Result<ModDescriptor, JsonError>)
        ensures
            match r {
                Ok(d) => sp_json_doc(s@) == Some(d@),
                Err(_) => sp_json_doc(s@) is None,
            },
    {
        let chars = str_to_chars(s);
        match parse_json_doc(&chars) {
            Some(d) => Ok(d),
            None => Err(JsonError),
        }
    }
}

/// A text that [`ModDescriptor::from_json_string`] cannot read.
#[derive(Debug, Clone, Copy, PartialEq, Eq, Structural)]
pub struct JsonError;

/// The position after `lit`, when `lit` stands at `i`.
pub open spec fn sp_expect(s: Seq<char>, i: int, lit: Seq<char>) -> Option<int> {
    if 0 <= i && i + lit.len() <= s.len() && s.subrange(i, i + lit.len() as int) == lit {
        Some(i + lit.len() as int)
    } else {
        None
    }
}

/// The unescaped content from `i` up to an unescaped closing quote, and
/// the position after that quote.
pub open spec fn sp_jstr_body(s: Seq<char>, i: int) -> Option<(Seq<char>, int)>
    decreases s.len() - i when 0 <= i <= s.len()
{
    if i < s.len() {
        if s[i] == '"' {
            Some((Seq::empty(), i + 1))
        } else if s[i] == '\\' {
            if i + 1 < s.len() && (s[i + 1] == '"' || s[i + 1] == '\\') {
                match sp_jstr_body(s, i + 2) {
                    Some((r, j)) => Some((seq![s[i + 1]] + r, j)),
                    None => None,
                }
            } else {
                None
            }
        } else {
            match sp_jstr_body(s, i + 1) {
                Some((r, j)) => Some((seq![s[i]] + r, j)),
                None => None,
            }
        }
    } else {
        None
    }
}

/// A JSON string token at `i`: its content and the position after it.
pub open spec fn sp_jstr(s: Seq<char>, i: int) -> Option<(Seq<char>, int)> {
    if 0 <= i && i < s.len() && s[i] == '"' {
        sp_jstr_body(s, i + 1)
    } else {
        None
    }
}

/// String tokens separated by commas up to and including a closing
/// bracket: the contents and the position after the bracket.
pub open spec fn sp_jlist(s: Seq<char>, i: int, fuel: nat) -> Option<(Seq<Seq<char>>, int)>
    decreases fuel,
{
    if fuel == 0 {
        None
    } else if 0 <= i && i < s.len() && s[i] == ']' {
        Some((Seq::empty(), i + 1))
    } else {
        match sp_jstr(s, i) {
            None => None,
            Some((t, j)) => {
                if j < s.len() && s[j] == ',' {
                    match sp_jlist(s, j + 1, (fuel - 1) as nat) {
                        Some((ts, e)) => Some((seq![t] + ts, e)),
                        None => None,
                    }
                } else if j < s.len() && s[j] == ']' {
                    Some((seq![t], j + 1))
                } else {
                    None
                }
            },
        }
    }
}

/// The descriptor denoted by a whole JSON text in the fixed rendering
/// shape, consuming all of it.
pub open spec fn sp_json_doc(s: Seq<char>) -> Option<SpecDescriptor> {
    match sp_expect(s, 0, ("{\"name\":")@) {
        None => None,
        Some(i1) => match sp_jstr(s, i1) {
            None => None,
            Some((name, i2)) => match sp_expect(s, i2, (",\"version\":")@) {
                None => None,
                Some(i3) => match sp_jstr(s, i3) {
                    None => None,
                    Some((version, i4)) => match sp_expect(s, i4, (",\"dependencies\":[")@) {
                        None => None,
                        Some(i5) => match sp_jlist(s, i5, s.len()) {
                            None => None,
                            Some((dependencies, i6)) => match sp_expect(s, i6 - 1, ("],\"tags\":[")@) {
                                None => None,
                                Some(i7) => match sp_jlist(s, i7, s.len()) {
                                    None => None,
                                    Some((tags, i8)) => match sp_expect(
                                        s,
                                        i8 - 1,
                                        ("],\"supported_version\":")@,
                                    ) {
                                        None => None,
                                        Some(i9) => match sp_jstr(s, i9) {
                                            None => None,
                                            Some((supported_version, i10)) => match sp_expect(
                                                s,
                                                i10,
                                                (",\"local_path\":")@,
                                            ) {
                                                None => None,
                                                Some(i11) => match sp_jstr(s, i11) {
                                                    None => None,
                                                    Some((local_path, i12)) => match sp_expect(
                                                        s,
                                                        i12,
                                                        (",\"remote_file_id\":")@,
                                                    ) {
                                                        None => None,
                                                        Some(i13) => match sp_jstr(s, i13) {
                                                            None => None,
                                                            Some((remote_file_id, i14)) => {
                                                                if i14 + 1 == s.len() && s[i14]
                                                                    == '}' {
                                                                    Some(
                                                                        SpecDescriptor {
                                                                            name,
                                                                            version,
                                                                            dependencies,
                                                                            tags,
                                                                            supported_version,
                                                                            local_path,
                                                                            remote_file_id,
                                                                        },
                                                                    )
                                                                } else {
                                                                    None
                                                                }
                                                            },
                                                        },
                                                    },
                                                },
                                            },
                                        },
                                    },
                                },
                            },
                        },
                    },
                },
            },
        },
    }
}

/// Whether `lit` stands at `i`.
fn expect_at(s: &Vec<char>, i: usize, lit: &str) -> (r: Option<usize>)
    requires
        i <= s@.len(),
    ensures
        match r {
            Some(j) => sp_expect(s@, i as int, lit@) == Some(j as int) && i <= j <= s@.len(),
            None => sp_expect(s@, i as int, lit@) is None,
        },
{
    let lc = str_to_chars(lit);
    if s.len() - i < lc.len() {
        return None;
    }
    let n = s.len();
    let mut x: usize = 0;
    while x < lc.len()
        invariant
            x <= lc@.len(),
            lc@ == lit@,
            n == s@.len(),
            i + lc@.len() <= s@.len(),
            forall|y: int| 0 <= y < x ==> s@[i + y] == #[trigger] lc@[y],
        decreases lc@.len() - x,
    {
        if s[i + x] != lc[x] {
            proof {
                assert(s@.subrange(i as int, i + lit@.len() as int)[x as int] != lit@[x as int]);
            }
            return None;
        }
        x = x + 1;
    }
    proof {
        assert(s@.subrange(i as int, i + lit@.len() as int) =~= lit@);
    }
    Some(i + lc.len())
}

/// The unescaped content from `i` up to an unescaped closing quote.
fn jstr_body_at(s: &Vec<char>, i: usize) -> (r: Option<(Vec<char>, usize)>)
    requires
        i <= s@.len(),
    ensures
        match r {
            Some((v, j)) => sp_jstr_body(s@, i as int) == Some((v@, j as int)) && i <= j
                <= s@.len(),
            None => sp_jstr_body(s@, i as int) is None,
        },
    decreases s@.len() - i,
{
    if i >= s.len() {
        return None;
    }
    let c = s[i];
    if c == '"' {
        let empty: Vec<char> = Vec::new();
        proof {
            assert(empty@ =~= Seq::<char>::empty());
        }
        Some((empty, i + 1))
    } else if c == '\\' {
        if i + 1 < s.len() && (s[i + 1] == '"' || s[i + 1] == '\\') {
            let e = s[i + 1];
            match jstr_body_at(s, i + 2) {
                Some((mut v, j)) => {
                    let ghost v0 = v@;
                    v.insert(0, e);
                    proof {
                        assert(v@ =~= seq![s@[i + 1]] + v0);
                    }
                    Some((v, j))
                },
                None => None,
            }
        } else {
            None
        }
    } else {
        match jstr_body_at(s, i + 1) {
            Some((mut v, j)) => {
                let ghost v0 = v@;
                v.insert(0, c);
                proof {
                    assert(v@ =~= seq![s@[i as int]] + v0);
                }
                Some((v, j))
            },
            None => None,
        }
    }
}

/// A JSON string token at `i`.
fn jstr_at(s: &Vec<char>, i: usize) -> (r: Option<(String, usize)>)
    requires
        i <= s@.len(),
    ensures
        match r {
            Some((t, j)) => sp_jstr(s@, i as int) == Some((t@, j as int)) && i <= j <= s@.len(),
            None => sp_jstr(s@, i as int) is None,
        },
{
    if i < s.len() && s[i] == '"' {
        match jstr_body_at(s, i + 1) {
            Some((v, j)) => Some((chars_to_string(&v), j)),
            None => None,
        }
    } else {
        None
    }
}

/// String tokens separated by commas up to and including a closing
/// bracket.
fn jlist_at(s: &Vec<char>, i: usize, fuel: usize) -> (r: Option<(Vec<String>, usize)>)
    requires
        i <= s@.len(),
    ensures
        match r {
            Some((ts, j)) => sp_jlist(s@, i as int, fuel as nat) == Some(
                (ts.deep_view(), j as int),
            ) && i <= j <= s@.len(),
            None => sp_jlist(s@, i as int, fuel as nat) is None,
        },
    decreases fuel,
{
    if fuel == 0 {
        return None;
    }
    if i < s.len() && s[i] == ']' {
        let empty: Vec<String> = Vec::new();
        proof {
            assert(empty.deep_view() =~= Seq::<Seq<char>>::empty());
        }
        return Some((empty, i + 1));
    }
    match jstr_at(s, i) {
        None => None,
        Some((t, j)) => {
            let ghost tv = t@;
            if j < s.len() && s[j] == ',' {
                match jlist_at(s, j + 1, fuel - 1) {
                    Some((mut ts, e)) => {
                        let ghost ts0 = ts.deep_view();
                        ts.insert(0, t);
                        proof {
                            assert(ts.deep_view() =~= seq![tv] + ts0);
                        }
                        Some((ts, e))
                    },
                    None => None,
                }
            } else if j < s.len() && s[j] == ']' {
                let mut ts: Vec<String> = Vec::new();
                ts.push(t);
                proof {
                    assert(ts.deep_view() =~= seq![tv]);
                }
                Some((ts, j + 1))
            } else {
                None
            }
        },
    }
}

/// The descriptor denoted by a whole JSON text in the fixed rendering
/// shape.
fn parse_json_doc(s: &Vec<char>) -> (r: Option<ModDescriptor>)
    ensures
        match r {
            Some(d) => sp_json_doc(s@) == Some(d@),
            None => sp_json_doc(s@) is None,
        },
{
    let i1 = match expect_at(s, 0, "{\"name\":") {
        Some(x) => x,
        None => {
            return None;
        },
    };
    let (name, i2) = match jstr_at(s, i1) {
        Some(x) => x,
        None => {
            return None;
        },
    };
    let i3 = match expect_at(s, i2, ",\"version\":") {
        Some(x) => x,
        None => {
            return None;
        },
    };
    let (version, i4) = match jstr_at(s, i3) {
        Some(x) => x,
        None => {
            return None;
        },
    };
    let i5 = match expect_at(s, i4, ",\"dependencies\":[") {
        Some(x) => x,
        None => {
            return None;
        },
    };
    let (dependencies, i6) = match jlist_at(s, i5, s.len()) {
        Some(x) => x,
        None => {
            return None;
        },
    };
    let i7 = match expect_at(s, i6 - 1, "],\"tags\":[") {
        Some(x) => x,
        None => {
            return None;
        },
    };
    let (tags, i8) = match jlist_at(s, i7, s.len()) {
        Some(x) => x,
        None => {
            return None;
        },
    };
    let i9 = match expect_at(s, i8 - 1, "],\"supported_version\":") {
        Some(x) => x,
        None => {
            return None;
        },
    };
    let (supported_version, i10) = match jstr_at(s, i9) {
        Some(x) => x,
        None => {
            return None;
        },
    };
    let i11 = match expect_at(s, i10, ",\"local_path\":") {
        Some(x) => x,
        None => {
            return None;
        },
    };
    let (local_path, i12) = match jstr_at(s, i11) {
        Some(x) => x,
        None => {
            return None;
        },
    };
    let i13 = match expect_at(s, i12, ",\"remote_file_id\":") {
        Some(x) => x,
        None => {
            return None;
        },
    };
    let (remote_file_id, i14) = match jstr_at(s, i13) {
        Some(x) => x,
        None => {
            return None;
        },
    };
    if i14 < s.len() && i14 + 1 == s.len() && s[i14] == '}' {
        Some(
            ModDescriptor {
                name,
                version,
                dependencies,
                tags,
                supported_version,
                local_path,
                remote_file_id,
            },
        )
    } else {
        None
    }
}

proof fn lemma_jstr_body_round(s: Seq<char>, i: int, t: Seq<char>)
    requires
        0 <= i,
        i + json_escape(t).len() + 1 <= s.len(),
        s.subrange(i, i + json_escape(t).len() as int) == json_escape(t),
        s[i + json_escape(t).len()] == '"',
    ensures
        sp_jstr_body(s, i) == Some((t, i + json_escape(t).len() + 1)),
    decreases t.len(),
{
    let esc = json_escape(t);
    assert forall|x: int| 0 <= x < esc.len() implies s[i + x] == esc[x] by {
        assert(s.subrange(i, i + esc.len() as int)[x] == s[i + x]);
    }
    if t.len() == 0 {
        assert(esc =~= Seq::<char>::empty());
        assert(s[i] == '"');
        assert(Seq::<char>::empty() =~= t);
    } else {
        let c = t[0];
        let rest = t.drop_first();
        let esc_rest = json_escape(rest);
        if c == '"' || c == '\\' {
            assert(esc =~= seq!['\\', c] + esc_rest);
            assert(s[i] == '\\' && s[i + 1] == c) by {
                assert(s[i + 0] == esc[0]);
                assert(s[i + 1] == esc[1]);
                assert(esc[0] == (seq!['\\', c] + esc_rest)[0]);
                assert(esc[1] == (seq!['\\', c] + esc_rest)[1]);
            }
            assert(s.subrange(i + 2, i + 2 + esc_rest.len() as int) =~= esc_rest) by {
                assert forall|x: int| 0 <= x < esc_rest.len() implies s.subrange(
                    i + 2,
                    i + 2 + esc_rest.len() as int,
                )[x] == esc_rest[x] by {
                    assert(s[i + 2 + x] == esc[2 + x]);
                    assert(esc[2 + x] == (seq!['\\', c] + esc_rest)[2 + x]);
                }
            }
            assert(s[i + 2 + esc_rest.len()] == '"');
            lemma_jstr_body_round(s, i + 2, rest);
            assert(seq![s[i + 1]] + rest =~= t);
        } else {
            assert(esc =~= seq![c] + esc_rest);
            assert(s[i] == c) by {
                assert(s[i + 0] == esc[0]);
                assert(esc[0] == (seq![c] + esc_rest)[0]);
            }
            assert(s.subrange(i + 1, i + 1 + esc_rest.len() as int) =~= esc_rest) by {
                assert forall|x: int| 0 <= x < esc_rest.len() implies s.subrange(
                    i + 1,
                    i + 1 + esc_rest.len() as int,
                )[x] == esc_rest[x] by {
                    assert(s[i + 1 + x] == esc[1 + x]);
                    assert(esc[1 + x] == (seq![c] + esc_rest)[1 + x]);
                }
            }
            assert(s[i + 1 + esc_rest.len()] == '"');
            lemma_jstr_body_round(s, i + 1, rest);
            assert(seq![s[i]] + rest =~= t);
        }
    }
}

proof fn lemma_jstr_round(s: Seq<char>, i: int, t: Seq<char>)
    requires
        0 <= i,
        i + json_str(t).len() <= s.len(),
        s.subrange(i, i + json_str(t).len() as int) == json_str(t),
    ensures
        sp_jstr(s, i) == Some((t, i + json_str(t).len())),
{
    let js = json_str(t);
    let esc = json_escape(t);
    assert(js.len() == esc.len() + 2);
    assert forall|x: int| 0 <= x < js.len() implies s[i + x] == js[x] by {
        assert(s.subrange(i, i + js.len() as int)[x] == s[i + x]);
    }
    assert(s[i] == '"') by {
        assert(js[0] == (seq!['"'] + esc + seq!['"'])[0]);
    }
    assert forall|x: int| 0 <= x < esc.len() implies s.subrange(
        i + 1,
        i + 1 + esc.len() as int,
    )[x] == esc[x] by {
        assert(s[i + 1 + x] == js[1 + x]);
        assert(js[1 + x] == (seq!['"'] + esc + seq!['"'])[1 + x]);
        assert((seq!['"'] + esc + seq!['"'])[1 + x] == esc[x]);
    }
    assert(s.subrange(i + 1, i + 1 + esc.len() as int) =~= esc);
    assert(s[i + 1 + esc.len()] == '"') by {
        assert(js[1 + esc.len() as int] == (seq!['"'] + esc + seq!['"'])[1 + esc.len() as int]);
    }
    lemma_jstr_body_round(s, i + 1, t);
}

proof fn lemma_jsl_front(ss: Seq<Seq<char>>)
    requires
        ss.len() >= 2,
    ensures
        json_str_list(ss) == json_str(ss.first()) + seq![','] + json_str_list(ss.drop_first()),
    decreases ss.len(),
{
    if ss.len() == 2 {
        assert(ss.drop_last() =~= seq![ss.first()]);
        assert(json_str_list(seq![ss.first()]) =~= json_str(ss.first()));
        assert(ss.drop_first() =~= seq![ss.last()]);
        assert(json_str_list(seq![ss.last()]) =~= json_str(ss.last()));
        assert(json_str_list(ss) =~= json_str(ss.first()) + seq![','] + json_str_list(
            ss.drop_first(),
        ));
    } else {
        let dl = ss.drop_last();
        lemma_jsl_front(dl);
        assert(dl.first() == ss.first());
        assert(ss.drop_first().drop_last() =~= dl.drop_first());
        assert(ss.drop_first().len() >= 2);
        assert(ss.drop_first().last() == ss.last());
        assert(json_str_list(ss.drop_first()) == json_str_list(dl.drop_first()) + seq![',']
            + json_str(ss.last()));
        assert(json_str_list(ss) =~= json_str(ss.first()) + seq![','] + json_str_list(
            ss.drop_first(),
        ));
    }
}

proof fn lemma_jlist_round(s: Seq<char>, i: int, ss: Seq<Seq<char>>, fuel: nat)
    requires
        0 <= i,
        i + json_str_list(ss).len() + 1 <= s.len(),
        s.subrange(i, i + json_str_list(ss).len() + 1) == json_str_list(ss) + seq![']'],
        fuel >= ss.len() + 1,
    ensures
        sp_jlist(s, i, fuel) == Some((ss, i + json_str_list(ss).len() + 1)),
    decreases ss.len(),
{
    let jsl = json_str_list(ss);
    assert forall|x: int| 0 <= x < jsl.len() + 1 implies s[i + x] == (jsl + seq![']'])[x] by {
        assert(s.subrange(i, i + jsl.len() + 1)[x] == s[i + x]);
    }
    if ss.len() == 0 {
        assert(jsl =~= Seq::<char>::empty());
        assert(s[i] == ']') by {
            assert(s[i + 0] == (jsl + seq![']'])[0]);
        }
    } else if ss.len() == 1 {
        let js = json_str(ss[0]);
        assert(jsl == js);
        assert(s[i] != ']') by {
            assert(s[i] == (jsl + seq![']'])[0]);
            assert(js[0] == (seq!['"'] + json_escape(ss[0]) + seq!['"'])[0]);
        }
        assert forall|x: int| 0 <= x < js.len() implies s.subrange(i, i + js.len() as int)[x]
            == js[x] by {
            assert(s[i + x] == (jsl + seq![']'])[x]);
        }
        assert(s.subrange(i, i + js.len() as int) =~= js);
        lemma_jstr_round(s, i, ss[0]);
        let j = i + js.len() as int;
        assert(s[j] == ']') by {
            assert(s[j] == (jsl + seq![']'])[js.len() as int]);
        }
        assert(seq![ss[0]] =~= ss);
    } else {
        lemma_jsl_front(ss);
        let head = ss.first();
        let tail = ss.drop_first();
        let js = json_str(head);
        let jsl_tail = json_str_list(tail);
        assert(jsl == js + seq![','] + jsl_tail);
        assert(s[i] != ']') by {
            assert(s[i] == (jsl + seq![']'])[0]);
            assert(jsl[0] == (js + seq![','] + jsl_tail)[0]);
            assert(js[0] == (seq!['"'] + json_escape(head) + seq!['"'])[0]);
        }
        assert forall|x: int| 0 <= x < js.len() implies s.subrange(i, i + js.len() as int)[x]
            == js[x] by {
            assert(s[i + x] == (jsl + seq![']'])[x]);
            assert(jsl[x] == (js + seq![','] + jsl_tail)[x]);
            assert((js + seq![','] + jsl_tail)[x] == (js + seq![','])[x]);
        }
        assert(s.subrange(i, i + js.len() as int) =~= js);
        lemma_jstr_round(s, i, head);
        let j = i + js.len() as int;
        assert(s[j] == ',') by {
            assert(s[j] == (jsl + seq![']'])[js.len() as int]);
            assert(jsl[js.len() as int] == (js + seq![','] + jsl_tail)[js.len() as int]);
            assert((js + seq![','] + jsl_tail)[js.len() as int] == (js + seq![','])[js.len() as int]);
        }
        assert forall|x: int| 0 <= x < jsl_tail.len() + 1 implies s.subrange(
            j + 1,
            j + 1 + jsl_tail.len() + 1,
        )[x] == (jsl_tail + seq![']'])[x] by {
            assert(s[j + 1 + x] == (jsl + seq![']'])[js.len() + 1 + x]);
            if x < jsl_tail.len() {
                assert((jsl + seq![']'])[js.len() + 1 + x] == jsl[js.len() + 1 + x]);
                assert(jsl[js.len() + 1 + x] == (js + seq![','] + jsl_tail)[js.len() + 1 + x]);
            }
        }
        assert(s.subrange(j + 1, j + 1 + jsl_tail.len() + 1) =~= jsl_tail + seq![']']);
        lemma_jlist_round(s, j + 1, tail, (fuel - 1) as nat);
        assert(seq![head] + tail =~= ss);
    }
}


proof fn cs_left(p: Seq<char>, q: Seq<char>, a: int, b: int)
    requires
        0 <= a <= b <= p.len(),
    ensures
        (p + q).subrange(a, b) == p.subrange(a, b),
{
    assert((p + q).subrange(a, b) =~= p.subrange(a, b));
}

proof fn cs_right(p: Seq<char>, q: Seq<char>, a: int, b: int)
    requires
        p.len() <= a <= b <= p.len() + q.len(),
    ensures
        (p + q).subrange(a, b) == q.subrange(a - p.len(), b - p.len()),
{
    assert((p + q).subrange(a, b) =~= q.subrange(a - p.len(), b - p.len()));
}

proof fn cs_span(p: Seq<char>, q: Seq<char>, a: int, b: int)
    requires
        0 <= a <= p.len() <= b <= p.len() + q.len(),
    ensures
        (p + q).subrange(a, b) == p.subrange(a, p.len() as int) + q.subrange(0, b - p.len()),
{
    assert((p + q).subrange(a, b) =~= p.subrange(a, p.len() as int) + q.subrange(
        0,
        b - p.len(),
    ));
}

proof fn lemma_jsl_len(ss: Seq<Seq<char>>)
    ensures
        json_str_list(ss).len() >= ss.len(),
    decreases ss.len(),
{
    if ss.len() >= 2 {
        lemma_jsl_len(ss.drop_last());
    }
}

/// Reading back the fixed JSON rendering of a descriptor yields the
/// descriptor itself: the codec round-trips.
#[verifier::rlimit(100)]
pub proof fn lemma_descriptor_json_round_trip(d: SpecDescriptor)
    ensures
        sp_json_doc(spec_json_of(d)) == Some(d),
{
    let s = spec_json_of(d);
    reveal_strlit("{\"name\":");
    reveal_strlit(",\"version\":");
    reveal_strlit(",\"dependencies\":[");
    reveal_strlit("],\"tags\":[");
    reveal_strlit("],\"supported_version\":");
    reveal_strlit(",\"local_path\":");
    reveal_strlit(",\"remote_file_id\":");
    reveal_strlit("}");
    let l1 = ("{\"name\":")@;
    let jsn = json_str(d.name);
    let l2 = (",\"version\":")@;
    let jsv = json_str(d.version);
    let l3 = (",\"dependencies\":[")@;
    let jld = json_str_list(d.dependencies);
    let l4 = ("],\"tags\":[")@;
    let jlt = json_str_list(d.tags);
    let l5 = ("],\"supported_version\":")@;
    let jsv2 = json_str(d.supported_version);
    let l6 = (",\"local_path\":")@;
    let jlp = json_str(d.local_path);
    let l7 = (",\"remote_file_id\":")@;
    let jrf = json_str(d.remote_file_id);
    let l8 = ("}")@;
    let c0 = l1;
    let c1 = c0 + jsn;
    let c2 = c1 + l2;
    let c3 = c2 + jsv;
    let c4 = c3 + l3;
    let c5 = c4 + jld;
    let c6 = c5 + l4;
    let c7 = c6 + jlt;
    let c8 = c7 + l5;
    let c9 = c8 + jsv2;
    let c10 = c9 + l6;
    let c11 = c10 + jlp;
    let c12 = c11 + l7;
    let c13 = c12 + jrf;
    assert(s == c13 + l8);
    cs_left(c13, l8, 0, l1.len() as int);
    cs_left(c12, jrf, 0, l1.len() as int);
    cs_left(c11, l7, 0, l1.len() as int);
    cs_left(c10, jlp, 0, l1.len() as int);
    cs_left(c9, l6, 0, l1.len() as int);
    cs_left(c8, jsv2, 0, l1.len() as int);
    cs_left(c7, l5, 0, l1.len() as int);
    cs_left(c6, jlt, 0, l1.len() as int);
    cs_left(c5, l4, 0, l1.len() as int);
    cs_left(c4, jld, 0, l1.len() as int);
    cs_left(c3, l3, 0, l1.len() as int);
    cs_left(c2, jsv, 0, l1.len() as int);
    cs_left(c1, l2, 0, l1.len() as int);
    cs_left(c0, jsn, 0, l1.len() as int);
    assert(l1.subrange(0, l1.len() as int) =~= l1);
    assert(s.subrange(0, l1.len() as int) == l1);
    cs_left(c13, l8, c0.len() as int, c1.len() as int);
    cs_left(c12, jrf, c0.len() as int, c1.len() as int);
    cs_left(c11, l7, c0.len() as int, c1.len() as int);
    cs_left(c10, jlp, c0.len() as int, c1.len() as int);
    cs_left(c9, l6, c0.len() as int, c1.len() as int);
    cs_left(c8, jsv2, c0.len() as int, c1.len() as int);
    cs_left(c7, l5, c0.len() as int, c1.len() as int);
    cs_left(c6, jlt, c0.len() as int, c1.len() as int);
    cs_left(c5, l4, c0.len() as int, c1.len() as int);
    cs_left(c4, jld, c0.len() as int, c1.len() as int);
    cs_left(c3, l3, c0.len() as int, c1.len() as int);
    cs_left(c2, jsv, c0.len() as int, c1.len() as int);
    cs_left(c1, l2, c0.len() as int, c1.len() as int);
    cs_right(c0, jsn, c0.len() as int, c1.len() as int);
    assert(jsn.subrange(0, jsn.len() as int) =~= jsn);
    assert(s.subrange(c0.len() as int, c1.len() as int) == jsn);
    cs_left(c13, l8, c1.len() as int, c2.len() as int);
    cs_left(c12, jrf, c1.len() as int, c2.len() as int);
    cs_left(c11, l7, c1.len() as int, c2.len() as int);
    cs_left(c10, jlp, c1.len() as int, c2.len() as int);
    cs_left(c9, l6, c1.len() as int, c2.len() as int);
    cs_left(c8, jsv2, c1.len() as int, c2.len() as int);
    cs_left(c7, l5, c1.len() as int, c2.len() as int);
    cs_left(c6, jlt, c1.len() as int, c2.len() as int);
    cs_left(c5, l4, c1.len() as int, c2.len() as int);
    cs_left(c4, jld, c1.len() as int, c2.len() as int);
    cs_left(c3, l3, c1.len() as int, c2.len() as int);
    cs_left(c2, jsv, c1.len() as int, c2.len() as int);
    cs_right(c1, l2, c1.len() as int, c2.len() as int);
    assert(l2.subrange(0, l2.len() as int) =~= l2);
    assert(s.subrange(c1.len() as int, c2.len() as int) == l2);
    cs_left(c13, l8, c2.len() as int, c3.len() as int);
    cs_left(c12, jrf, c2.len() as int, c3.len() as int);
    cs_left(c11, l7, c2.len() as int, c3.len() as int);
    cs_left(c10, jlp, c2.len() as int, c3.len() as int);
    cs_left(c9, l6, c2.len() as int, c3.len() as int);
    cs_left(c8, jsv2, c2.len() as int, c3.len() as int);
    cs_left(c7, l5, c2.len() as int, c3.len() as int);
    cs_left(c6, jlt, c2.len() as int, c3.len() as int);
    cs_left(c5, l4, c2.len() as int, c3.len() as int);
    cs_left(c4, jld, c2.len() as int, c3.len() as int);
    cs_left(c3, l3, c2.len() as int, c3.len() as int);
    cs_right(c2, jsv, c2.len() as int, c3.len() as int);
    assert(jsv.subrange(0, jsv.len() as int) =~= jsv);
    assert(s.subrange(c2.len() as int, c3.len() as int) == jsv);
    cs_left(c13, l8, c3.len() as int, c4.len() as int);
    cs_left(c12, jrf, c3.len() as int, c4.len() as int);
    cs_left(c11, l7, c3.len() as int, c4.len() as int);
    cs_left(c10, jlp, c3.len() as int, c4.len() as int);
    cs_left(c9, l6, c3.len() as int, c4.len() as int);
    cs_left(c8, jsv2, c3.len() as int, c4.len() as int);
    cs_left(c7, l5, c3.len() as int, c4.len() as int);
    cs_left(c6, jlt, c3.len() as int, c4.len() as int);
    cs_left(c5, l4, c3.len() as int, c4.len() as int);
    cs_left(c4, jld, c3.len() as int, c4.len() as int);
    cs_right(c3, l3, c3.len() as int, c4.len() as int);
    assert(l3.subrange(0, l3.len() as int) =~= l3);
    assert(s.subrange(c3.len() as int, c4.len() as int) == l3);
    cs_left(c13, l8, c4.len() as int, c5.len() as int + 1);
    cs_left(c12, jrf, c4.len() as int, c5.len() as int + 1);
    cs_left(c11, l7, c4.len() as int, c5.len() as int + 1);
    cs_left(c10, jlp, c4.len() as int, c5.len() as int + 1);
    cs_left(c9, l6, c4.len() as int, c5.len() as int + 1);
    cs_left(c8, jsv2, c4.len() as int, c5.len() as int + 1);
    cs_left(c7, l5, c4.len() as int, c5.len() as int + 1);
    cs_left(c6, jlt, c4.len() as int, c5.len() as int + 1);
    cs_span(c5, l4, c4.len() as int, c5.len() as int + 1);
    cs_right(c4, jld, c4.len() as int, c5.len() as int);
    assert(jld.subrange(0, jld.len() as int) =~= jld);
    assert(l4.subrange(0, 1) =~= seq![']']) by {
        reveal_strlit("],\"tags\":[");
    }
    assert(s.subrange(c4.len() as int, c5.len() as int + 1) == jld + seq![']']);
    cs_left(c13, l8, c5.len() as int, c6.len() as int);
    cs_left(c12, jrf, c5.len() as int, c6.len() as int);
    cs_left(c11, l7, c5.len() as int, c6.len() as int);
    cs_left(c10, jlp, c5.len() as int, c6.len() as int);
    cs_left(c9, l6, c5.len() as int, c6.len() as int);
    cs_left(c8, jsv2, c5.len() as int, c6.len() as int);
    cs_left(c7, l5, c5.len() as int, c6.len() as int);
    cs_left(c6, jlt, c5.len() as int, c6.len() as int);
    cs_right(c5, l4, c5.len() as int, c6.len() as int);
    assert(l4.subrange(0, l4.len() as int) =~= l4);
    assert(s.subrange(c5.len() as int, c6.len() as int) == l4);
    cs_left(c13, l8, c6.len() as int, c7.len() as int + 1);
    cs_left(c12, jrf, c6.len() as int, c7.len() as int + 1);
    cs_left(c11, l7, c6.len() as int, c7.len() as int + 1);
    cs_left(c10, jlp, c6.len() as int, c7.len() as int + 1);
    cs_left(c9, l6, c6.len() as int, c7.len() as int + 1);
    cs_left(c8, jsv2, c6.len() as int, c7.len() as int + 1);
    cs_span(c7, l5, c6.len() as int, c7.len() as int + 1);
    cs_right(c6, jlt, c6.len() as int, c7.len() as int);
    assert(jlt.subrange(0, jlt.len() as int) =~= jlt);
    assert(l5.subrange(0, 1) =~= seq![']']) by {
        reveal_strlit("],\"supported_version\":");
    }
    assert(s.subrange(c6.len() as int, c7.len() as int + 1) == jlt + seq![']']);
    cs_left(c13, l8, c7.len() as int, c8.len() as int);
    cs_left(c12, jrf, c7.len() as int, c8.len() as int);
    cs_left(c11, l7, c7.len() as int, c8.len() as int);
    cs_left(c10, jlp, c7.len() as int, c8.len() as int);
    cs_left(c9, l6, c7.len() as int, c8.len() as int);
    cs_left(c8, jsv2, c7.len() as int, c8.len() as int);
    cs_right(c7, l5, c7.len() as int, c8.len() as int);
    assert(l5.subrange(0, l5.len() as int) =~= l5);
    assert(s.subrange(c7.len() as int, c8.len() as int) == l5);
    cs_left(c13, l8, c8.len() as int, c9.len() as int);
    cs_left(c12, jrf, c8.len() as int, c9.len() as int);
    cs_left(c11, l7, c8.len() as int, c9.len() as int);
    cs_left(c10, jlp, c8.len() as int, c9.len() as int);
    cs_left(c9, l6, c8.len() as int, c9.len() as int);
    cs_right(c8, jsv2, c8.len() as int, c9.len() as int);
    assert(jsv2.subrange(0, jsv2.len() as int) =~= jsv2);
    assert(s.subrange(c8.len() as int, c9.len() as int) == jsv2);
    cs_left(c13, l8, c9.len() as int, c10.len() as int);
    cs_left(c12, jrf, c9.len() as int, c10.len() as int);
    cs_left(c11, l7, c9.len() as int, c10.len() as int);
    cs_left(c10, jlp, c9.len() as int, c10.len() as int);
    cs_right(c9, l6, c9.len() as int, c10.len() as int);
    assert(l6.subrange(0, l6.len() as int) =~= l6);
    assert(s.subrange(c9.len() as int, c10.len() as int) == l6);
    cs_left(c13, l8, c10.len() as int, c11.len() as int);
    cs_left(c12, jrf, c10.len() as int, c11.len() as int);
    cs_left(c11, l7, c10.len() as int, c11.len() as int);
    cs_right(c10, jlp, c10.len() as int, c11.len() as int);
    assert(jlp.subrange(0, jlp.len() as int) =~= jlp);
    assert(s.subrange(c10.len() as int, c11.len() as int) == jlp);
    cs_left(c13, l8, c11.len() as int, c12.len() as int);
    cs_left(c12, jrf, c11.len() as int, c12.len() as int);
    cs_right(c11, l7, c11.len() as int, c12.len() as int);
    assert(l7.subrange(0, l7.len() as int) =~= l7);
    assert(s.subrange(c11.len() as int, c12.len() as int) == l7);
    cs_left(c13, l8, c12.len() as int, c13.len() as int);
    cs_right(c12, jrf, c12.len() as int, c13.len() as int);
    assert(jrf.subrange(0, jrf.len() as int) =~= jrf);
    assert(s.subrange(c12.len() as int, c13.len() as int) == jrf);
    assert(l8.len() == 1 && l8[0] == '}') by {
        reveal_strlit("}");
    }
    assert(s.len() == c13.len() + 1);
    assert(s[c13.len() as int] == '}') by {
        cs_right(c13, l8, c13.len() as int, c13.len() as int + 1);
        assert(s.subrange(c13.len() as int, c13.len() as int + 1)[0] == s[c13.len() as int]);
        assert(l8.subrange(0, 1) =~= l8);
    }
    // step the parser through the pieces
    assert(sp_expect(s, 0, l1) == Some(l1.len() as int));
    lemma_jstr_round(s, c0.len() as int, d.name);
    assert(sp_expect(s, c1.len() as int, l2) == Some(c2.len() as int));
    lemma_jstr_round(s, c2.len() as int, d.version);
    assert(sp_expect(s, c3.len() as int, l3) == Some(c4.len() as int));
    lemma_jsl_len(d.dependencies);
    lemma_jlist_round(s, c4.len() as int, d.dependencies, s.len());
    assert(sp_expect(s, c5.len() as int, l4) == Some(c6.len() as int));
    lemma_jsl_len(d.tags);
    lemma_jlist_round(s, c6.len() as int, d.tags, s.len());
    assert(sp_expect(s, c7.len() as int, l5) == Some(c8.len() as int));
    lemma_jstr_round(s, c8.len() as int, d.supported_version);
    assert(sp_expect(s, c9.len() as int, l6) == Some(c10.len() as int));
    lemma_jstr_round(s, c10.len() as int, d.local_path);
    assert(sp_expect(s, c11.len() as int, l7) == Some(c12.len() as int));
    lemma_jstr_round(s, c12.len() as int, d.remote_file_id);
    assert(sp_json_doc(s) == Some(d));
}

} // verus!
