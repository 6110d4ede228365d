//! The component hasher: content-addresses a mod's files, one digest per
//! file, for later change detection.

use vstd::prelude::*;

verus! {

/// Name for the 16-byte content digest that the outside hasher computes:
/// it depends on the input bytes alone.
pub uninterp spec fn digest_of(bytes: Seq<u8>) -> Seq<u8>;

/// Relies on `md5::compute`: a 16-byte digest that is a function of the
/// input bytes alone.
#[verifier::external_body]
fn md5_digest(data: &Vec<u8>) -> (r: [u8; 16])
    ensures
        r@ == digest_of(data@),
{
    md5::compute(data.as_slice()).0
}

/// Specification-level mirror of a component record.
pub ghost struct SpecComponent {
    pub name: Seq<char>,
    pub relative_path: Seq<char>,
    pub hash: Seq<u8>,
}

/// One file belonging to a mod, with its content digest.
#[derive(Debug, Clone, PartialEq)]
pub struct Component {
    pub name: String,
    pub relative_path: String,
    pub hash: [u8; 16],
}

impl View for Component {
    type V = SpecComponent;

    open spec fn view(&self) -> SpecComponent {
        SpecComponent { name: self.name@, relative_path: self.relative_path@, hash: self.hash@ }
    }
}

impl DeepView for Component {
    type V = SpecComponent;

    open spec fn deep_view(&self) -> SpecComponent {
        self.view()
    }
}

impl Component {
    /// A component for a file with the given content.
    pub fn from_file_content(name: String, relative_path: String, content: &Vec<u8>) -> (c:
        Component)
        ensures
            c@.name == name@,
            c@.relative_path == relative_path@,
            c@.hash == digest_of(content@),
    {
        let hash = md5_digest(content);
        Component { name, relative_path, hash }
    }
}

/// Specification-level mirror of a file found by a directory scan.
pub ghost struct SpecFileEntry {
    pub name: Seq<char>,
    pub relative_path: Seq<char>,
    pub content: Option<Seq<u8>>,
}

/// One file of a scanned directory, as handed in by the caller that read
/// it: the content is absent when the file could not be read.
#[derive(Debug, Clone, PartialEq)]
pub struct FileEntry {
    pub name: String,
    pub relative_path: String,
    pub content: Option<Vec<u8>>,
}

impl View for FileEntry {
    type V = SpecFileEntry;

    open spec fn view(&self) -> SpecFileEntry {
        SpecFileEntry {
            name: self.name@,
            relative_path: self.relative_path@,
            content: self.content.deep_view(),
        }
    }
}

impl DeepView for FileEntry {
    type V = SpecFileEntry;

    open spec fn deep_view(&self) -> SpecFileEntry {
        self.view()
    }
}

/// The components of a scanned file list: one per readable file, in scan
/// order; an unreadable file is skipped and does not abort the scan.
pub open spec fn scan_components(files: Seq<SpecFileEntry>) -> Seq<SpecComponent>
    decreases files.len(),
{
    if files.len() == 0 {
        Seq::empty()
    } else {
        scan_components(files.drop_last()) + (match files.last().content {
            Some(bytes) => seq![
                SpecComponent {
                    name: files.last().name,
                    relative_path: files.last().relative_path,
                    hash: digest_of(bytes),
                },
            ],
            None => Seq::<SpecComponent>::empty(),
        })
    }
}

/// Hashes every readable file of a scan into a component record.
pub fn components_from_files(files: &Vec<FileEntry>) -> (cs: Vec<Component>)
    ensures
        cs.deep_view() == scan_components(files.deep_view()),
{
    let ghost fv = files.deep_view();
    let mut cs: Vec<Component> = Vec::new();
    let mut i: usize = 0;
    while i < files.len()
        invariant
            i <= files@.len(),
            fv == files.deep_view(),
            fv.len() == files@.len(),
            forall|j: int| 0 <= j < files@.len() ==> fv[j] == #[trigger] files@[j].deep_view(),
            cs.deep_view() == scan_components(fv.subrange(0, i as int)),
        decreases files@.len() - i,
    {
        let ghost pre = fv.subrange(0, i as int);
        let ghost post = fv.subrange(0, i + 1 as int);
        proof {
            assert(post.drop_last() =~= pre);
            assert(post.last() == fv[i as int]);
        }
        let entry = &files[i];
        match &entry.content {
            Some(bytes) => {
                let ghost pre_cs = cs.deep_view();
                let c = Component::from_file_content(
                    entry.name.clone(),
                    entry.relative_path.clone(),
                    bytes,
                );
                cs.push(c);
                proof {
                    assert(*entry == files@[i as int]);
                    assert(fv[i as int] == files@[i as int].deep_view());
                    assert(fv[i as int].content == Some(bytes@));
                    assert(c@.name == fv[i as int].name);
                    assert(c@.relative_path == fv[i as int].relative_path);
                    assert(c@.hash == digest_of(bytes@));
                    assert(cs.deep_view() =~= pre_cs.push(c@));
                    assert(scan_components(post) =~= scan_components(pre) + seq![c@]);
                    assert(scan_components(post) =~= pre_cs.push(c@));
                }
            },
            None => {
                proof {
                    assert(scan_components(post) =~= scan_components(pre));
                }
            },
        }
        i = i + 1;
    }
    proof {
        assert(fv.subrange(0, fv.len() as int) =~= fv);
    }
    cs
}

/// One file of the game's own data tree, with an optional content digest.
#[derive(Debug, Clone, PartialEq)]
pub struct FileStruct {
    pub name: String,
    pub base_dir: String,
    pub relative_path: String,
    pub hash: Option<[u8; 16]>,
}

impl FileStruct {
    /// A record for the file, with no digest yet.
    pub fn new(name: String, base_dir: String, relative_path: String) -> (f: FileStruct)
        ensures
            f.name == name,
            f.base_dir == base_dir,
            f.relative_path == relative_path,
            f.hash is None,
    {
        FileStruct { name, base_dir, relative_path, hash: None }
    }

    /// Sets the digest from the file's content, read by the caller.
    pub fn compute_hash(&mut self, content: &Vec<u8>)
        ensures
            final(self).name == old(self).name,
            final(self).base_dir == old(self).base_dir,
            final(self).relative_path == old(self).relative_path,
            final(self).hash is Some && final(self).hash->0@ == digest_of(content@),
    {
        self.hash = Some(md5_digest(content));
    }
}

} // verus!
