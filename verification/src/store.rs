//! The template store: an in-memory image of the template root
//! directory, mapping relative file paths to file contents, plus the
//! global data map. The surrounding application fills it from disk;
//! resolution, name validation and path arithmetic are verified here.

use vstd::prelude::*;

use crate::text::{contains_sub, contains_bytes, append_bytes};
use crate::value::DataMap;

verus! {

/// The path separator `/`.
pub open spec fn slash() -> u8 {
    47u8
}

/// The parent-directory segment `..`, forbidden in template names.
pub open spec fn dotdot() -> Seq<u8> {
    seq![46u8, 46]
}

/// Whether a template name may be resolved at all: it must be
/// non-empty and must not contain `..`.
pub open spec fn valid_name(name: Seq<u8>) -> bool {
    name.len() > 0 && !contains_sub(name, dotdot())
}

/// Checks a template name, as `valid_name` describes.
pub fn check_name(name: &Vec<u8>) -> (r: bool)
    ensures
        r == valid_name(name@),
{
    if name.len() == 0 {
        return false;
    }
    let mut pat: Vec<u8> = Vec::new();
    pat.push(46);
    pat.push(46);
    assert(pat@ =~= dotdot());
    !contains_bytes(name, &pat)
}

/// The extension of a template body file, `.meel`.
pub open spec fn meel_ext() -> Seq<u8> {
    seq![46u8, 109, 101, 101, 108]
}

/// The extension of a plain-text counterpart, `.txt`.
pub open spec fn txt_ext() -> Seq<u8> {
    seq![46u8, 116, 120, 116]
}

/// `name` with the template body extension appended.
pub open spec fn meel_path(name: Seq<u8>) -> Seq<u8> {
    name + meel_ext()
}

/// `name` with the plain-text extension appended.
pub open spec fn txt_path(name: Seq<u8>) -> Seq<u8> {
    name + txt_ext()
}

/// The position of the last `/` strictly below `below`, if any.
pub open spec fn last_slash(s: Seq<u8>, below: int) -> Option<int>
    decreases below,
{
    if below <= 0 || below > s.len() {
        None
    } else if s[below - 1] == slash() {
        Some(below - 1)
    } else {
        last_slash(s, below - 1)
    }
}

pub proof fn lemma_last_slash_bounds(s: Seq<u8>, below: int)
    ensures
        match last_slash(s, below) {
            Some(k) => 0 <= k < below && k < s.len() && s[k] == slash(),
            None => true,
        },
    decreases below,
{
    if 0 < below <= s.len() && s[below - 1] != slash() {
        lemma_last_slash_bounds(s, below - 1);
    }
}

/// The directory part of a path: everything before the last `/`, or
/// the empty root when there is none.
pub open spec fn parent_dir(s: Seq<u8>) -> Seq<u8> {
    match last_slash(s, s.len() as int) {
        None => Seq::empty(),
        Some(k) => s.subrange(0, k),
    }
}

/// The directory part of a path, as `parent_dir` describes.
pub fn parent_of(s: &Vec<u8>) -> (r: Vec<u8>)
    ensures
        r@ == parent_dir(s@),
{
    let n: usize = s.len();
    let mut below: usize = n;
    while below > 0
        invariant
            0 <= below <= n,
            n == s@.len(),
            last_slash(s@, n as int) == last_slash(s@, below as int),
        decreases below,
    {
        if s[below - 1] == 47 {
            let r = crate::text::slice_range(s, 0, below - 1);
            return r;
        }
        below = below - 1;
    }
    let r: Vec<u8> = Vec::new();
    assert(r@ =~= Seq::<u8>::empty());
    r
}

/// The in-memory template root: relative paths with their file
/// contents, and the global data file's map. Lookup returns the first
/// entry with a path.
pub struct TemplateStore {
    pub files: Vec<(Vec<u8>, Vec<u8>)>,
    pub globals: DataMap,
}

/// First content bound to `path` in a file list, or `None`.
pub open spec fn file_at(files: Seq<(Seq<u8>, Seq<u8>)>, path: Seq<u8>) -> Option<Seq<u8>>
    decreases files.len(),
{
    if files.len() == 0 {
        None
    } else if files[0].0 == path {
        Some(files[0].1)
    } else {
        file_at(files.drop_first(), path)
    }
}

impl TemplateStore {
    /// The path-to-content list this store stands for.
    pub open spec fn files_model(self) -> Seq<(Seq<u8>, Seq<u8>)> {
        Seq::new(self.files@.len(), |i: int| (self.files@[i].0@, self.files@[i].1@))
    }

    /// An empty store.
    pub fn new() -> (r: TemplateStore)
        ensures
            r.files_model() =~= Seq::<(Seq<u8>, Seq<u8>)>::empty(),
            r.globals.model() =~= Seq::<(Seq<u8>, crate::value::Val)>::empty(),
    {
        TemplateStore { files: Vec::new(), globals: DataMap::new() }
    }

    /// Adds a file under `path`; an existing entry for the path keeps
    /// precedence.
    pub fn add_file(&mut self, path: Vec<u8>, content: Vec<u8>)
        ensures
            final(self).files_model() =~= old(self).files_model().push((path@, content@)),
            final(self).globals == old(self).globals,
    {
        self.files.push((path, content));
    }

    /// The content stored under `path`, if any.
    pub fn lookup_file(&self, path: &Vec<u8>) -> (r: Option<&Vec<u8>>)
        ensures
            match r {
                Some(c) => file_at(self.files_model(), path@) == Some(c@),
                None => file_at(self.files_model(), path@) is None,
            },
    {
        let n: usize = self.files.len();
        let mut i: usize = 0;
        proof {
            assert(self.files_model().skip(0) =~= self.files_model());
        }
        while i < n
            invariant
                0 <= i <= n,
                n == self.files@.len(),
                file_at(self.files_model(), path@) == file_at(
                    self.files_model().skip(i as int),
                    path@,
                ),
            decreases n - i,
        {
            proof {
                let ii = i as int;
                assert(self.files_model()[ii] == (self.files@[ii].0@, self.files@[ii].1@));
                assert(self.files_model().skip(ii).drop_first() =~= self.files_model().skip(ii + 1));
            }
            if crate::text::bytes_eq(&self.files[i].0, path) {
                return Some(&self.files[i].1);
            }
            i = i + 1;
        }
        None
    }
}

/// A template name joined with the body extension, as `meel_path`
/// describes.
pub fn meel_path_of(name: &Vec<u8>) -> (r: Vec<u8>)
    ensures
        r@ == meel_path(name@),
{
    let mut r: Vec<u8> = Vec::new();
    append_bytes(&mut r, name);
    r.push(46);
    r.push(109);
    r.push(101);
    r.push(101);
    r.push(108);
    assert(r@ =~= meel_path(name@));
    r
}

/// A template name joined with the plain-text extension, as `txt_path`
/// describes.
pub fn txt_path_of(name: &Vec<u8>) -> (r: Vec<u8>)
    ensures
        r@ == txt_path(name@),
{
    let mut r: Vec<u8> = Vec::new();
    append_bytes(&mut r, name);
    r.push(46);
    r.push(116);
    r.push(120);
    r.push(116);
    assert(r@ =~= txt_path(name@));
    r
}

/// The layout file name, `layout.meel`.
pub open spec fn layout_file() -> Seq<u8> {
    seq![108u8, 97, 121, 111, 117, 116, 46, 109, 101, 101, 108]
}

/// The path of the layout file of directory `dir`: `layout.meel` at
/// the root, else the directory with `/layout.meel` appended.
pub open spec fn layout_path(dir: Seq<u8>) -> Seq<u8> {
    if dir.len() == 0 {
        layout_file()
    } else {
        dir + seq![47u8] + layout_file()
    }
}

/// The layout file path of a directory, as `layout_path` describes.
pub fn layout_path_of(dir: &Vec<u8>) -> (r: Vec<u8>)
    ensures
        r@ == layout_path(dir@),
{
    let mut r: Vec<u8> = Vec::new();
    if dir.len() > 0 {
        append_bytes(&mut r, dir);
        r.push(47);
    }
    r.push(108);
    r.push(97);
    r.push(121);
    r.push(111);
    r.push(117);
    r.push(116);
    r.push(46);
    r.push(109);
    r.push(101);
    r.push(101);
    r.push(108);
    assert(r@ =~= layout_path(dir@));
    r
}

/// The subdirectory of the data directory that holds the templates.
pub open spec fn templates_segment() -> Seq<u8> {
    seq![47u8, 116, 101, 109, 112, 108, 97, 116, 101, 115]
}

/// The template root under a configured data directory: the directory
/// with `/templates` appended.
pub fn get_template_directory(data_directory: &Vec<u8>) -> (r: Vec<u8>)
    ensures
        r@ == data_directory@ + templates_segment(),
{
    let mut r: Vec<u8> = Vec::new();
    append_bytes(&mut r, data_directory);
    r.push(47);
    r.push(116);
    r.push(101);
    r.push(109);
    r.push(112);
    r.push(108);
    r.push(97);
    r.push(116);
    r.push(101);
    r.push(115);
    assert(r@ =~= data_directory@ + templates_segment());
    r
}

} // verus!
