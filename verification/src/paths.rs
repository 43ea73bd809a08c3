//! Paths of inputs: telling objects from raw files, deriving the name under
//! which a file is known to C code, and finding a file under the search
//! directories.
//!
//! Paths are taken apart and put together by `std::path` alone, for the
//! platform the crate is built for. The functions that call it are trusted
//! and only name what it returns.

use crate::error::{outcome, Failure, LinkError};
use vstd::prelude::*;
use vstd::string::StringExecFns;

verus! {

/// The extension that marks a relocatable object.
pub const OBJECT_EXTENSION: &'static str = "o";

/// What every name for C code starts with.
pub const NAME_PREFIX: &'static str = "RLD_FID";

/// One component of a path.
#[derive(Debug, Clone, PartialEq, Eq)]
pub enum PathPart {
    /// A drive or share, where the platform has them.
    Prefix,
    /// The root directory.
    RootDir,
    /// `.`
    CurDir,
    /// `..`
    ParentDir,
    /// A directory or file name.
    Normal(String),
}

/// [`PathPart`] in specifications.
pub enum PartView {
    Prefix,
    RootDir,
    CurDir,
    ParentDir,
    Normal(Seq<char>),
}

impl View for PathPart {
    type V = PartView;

    open spec fn view(&self) -> PartView {
        match self {
            PathPart::Prefix => PartView::Prefix,
            PathPart::RootDir => PartView::RootDir,
            PathPart::CurDir => PartView::CurDir,
            PathPart::ParentDir => PartView::ParentDir,
            PathPart::Normal(name) => PartView::Normal(name@),
        }
    }
}

/// The parts of a list, each as specifications speak of it.
pub open spec fn part_views(parts: Seq<PathPart>) -> Seq<PartView> {
    Seq::new(parts.len(), |i: int| parts[i]@)
}

/// The texts of a list, each as a sequence of characters.
pub open spec fn text_views(texts: Seq<String>) -> Seq<Seq<char>> {
    Seq::new(texts.len(), |i: int| texts[i]@)
}

/// What `Path::extension` returns for `path`.
pub uninterp spec fn path_extension(path: Seq<char>) -> Option<Seq<char>>;

/// What `Path::file_stem` returns for `path`.
pub uninterp spec fn path_file_stem(path: Seq<char>) -> Option<Seq<char>>;

/// What `Path::parent` returns for `path`.
pub uninterp spec fn path_parent(path: Seq<char>) -> Option<Seq<char>>;

/// What `Path::components` yields for `path`.
pub uninterp spec fn path_components(path: Seq<char>) -> Seq<PartView>;

/// What `Path::join` returns for `dir` and `file`.
pub uninterp spec fn path_join(dir: Seq<char>, file: Seq<char>) -> Seq<char>;

/// Trusted: calls `Path::extension`; the contract only names the result.
#[verifier::external_body]
fn extension_of(path: &str) -> (r: Option<String>)
    ensures
        r matches Some(ext) ==> path_extension(path@) == Some(ext@),
        r is None ==> path_extension(path@) is None,
{
    std::path::Path::new(path).extension().map(|ext| ext.to_string_lossy().into_owned())
}

/// Trusted: calls `Path::file_stem`; the contract only names the result.
#[verifier::external_body]
fn file_stem_of(path: &str) -> (r: Option<String>)
    ensures
        r matches Some(stem) ==> path_file_stem(path@) == Some(stem@),
        r is None ==> path_file_stem(path@) is None,
{
    std::path::Path::new(path).file_stem().map(|stem| stem.to_string_lossy().into_owned())
}

/// Trusted: calls `Path::parent`; the contract only names the result.
#[verifier::external_body]
fn parent_of(path: &str) -> (r: Option<String>)
    ensures
        r matches Some(parent) ==> path_parent(path@) == Some(parent@),
        r is None ==> path_parent(path@) is None,
{
    std::path::Path::new(path).parent().map(|parent| parent.to_string_lossy().into_owned())
}

/// Trusted: calls `Path::components` and copies each component; the
/// contract only names the result.
#[verifier::external_body]
fn components_of(path: &str) -> (r: Vec<PathPart>)
    ensures
        part_views(r@) == path_components(path@),
{
    std::path::Path::new(path).components().map(|part| match part {
        std::path::Component::Prefix(_) => PathPart::Prefix,
        std::path::Component::RootDir => PathPart::RootDir,
        std::path::Component::CurDir => PathPart::CurDir,
        std::path::Component::ParentDir => PathPart::ParentDir,
        std::path::Component::Normal(name) => PathPart::Normal(name.to_string_lossy().into_owned()),
    }).collect()
}

/// Trusted: calls `Path::join`; the contract only names the result.
#[verifier::external_body]
fn join_paths(dir: &str, file: &str) -> (r: String)
    ensures
        r@ == path_join(dir@, file@),
{
    std::path::Path::new(dir).join(file).to_string_lossy().into_owned()
}

/// Trusted: calls `String::push`, which appends one character.
#[verifier::external_body]
fn push_char(s: &mut String, c: char)
    ensures
        final(s)@ == old(s)@.push(c),
{
    s.push(c)
}

/// Whether an extension is the one of a relocatable object: `o`, in lower
/// case.
pub open spec fn object_extension(ext: Option<Seq<char>>) -> bool {
    ext == Some(OBJECT_EXTENSION@)
}

/// Whether an input is taken for a relocatable object, by its extension.
pub fn extension_is_object(ext: Option<&str>) -> (r: bool)
    ensures
        r == object_extension(
            match ext {
                Some(e) => Some(e@),
                None => None,
            },
        ),
{
    match ext {
        Some(e) => {
            let found = e.to_owned();
            let wanted = OBJECT_EXTENSION.to_owned();
            found == wanted
        },
        None => false,
    }
}

/// Whether the file at `path` is taken for a relocatable object: when and
/// only when its extension is `o`. Every other file is a raw blob.
pub fn is_object(path: &str) -> (r: bool)
    ensures
        r == object_extension(path_extension(path@)),
{
    match extension_of(path) {
        Some(ext) => extension_is_object(Some(ext.as_str())),
        None => extension_is_object(None),
    }
}

/// An ASCII letter in upper case; any other character as it is.
pub open spec fn upper(c: char) -> char {
    if 'a' <= c && c <= 'z' {
        ((c as u8 - 32) as u8) as char
    } else {
        c
    }
}

/// A text with its ASCII letters in upper case.
pub open spec fn uppercase(s: Seq<char>) -> Seq<char> {
    Seq::new(s.len(), |i: int| upper(s[i]))
}

/// What one name adds to a name for C code: an underscore and the name in
/// upper case.
pub open spec fn name_text(name: Seq<char>) -> Seq<char> {
    seq!['_'] + uppercase(name)
}

/// What the first `n` parts of a directory add to a name for C code. Only
/// directory names add anything.
pub open spec fn parts_text(parts: Seq<PartView>, n: int) -> Seq<char>
    decreases n,
{
    if n <= 0 {
        Seq::empty()
    } else {
        parts_text(parts, n - 1) + match parts[n - 1] {
            PartView::Normal(name) => name_text(name),
            _ => Seq::empty(),
        }
    }
}

/// The name for C code of a file in the directory made of `parts` whose
/// name without extension is `stem`.
pub open spec fn header_name(parts: Seq<PartView>, stem: Option<Seq<char>>) -> Seq<char> {
    NAME_PREFIX@ + parts_text(parts, parts.len() as int) + match stem {
        Some(stem) => name_text(stem),
        None => Seq::empty(),
    }
}

/// The name for C code of the file at `path`.
pub open spec fn header_name_of(path: Seq<char>) -> Seq<char> {
    header_name(
        match path_parent(path) {
            Some(parent) => path_components(parent),
            None => Seq::empty(),
        },
        path_file_stem(path),
    )
}

fn push_name(out: &mut String, name: &str)
    ensures
        final(out)@ == old(out)@ + name_text(name@),
{
    push_char(out, '_');
    let n = name.unicode_len();
    let mut i: usize = 0;
    assert(out@ =~= old(out)@ + seq!['_'] + uppercase(name@).take(0));
    while i < n
        invariant
            i <= n,
            n == name@.len(),
            out@ == old(out)@ + seq!['_'] + uppercase(name@).take(i as int),
        decreases n - i,
    {
        let c = name.get_char(i);
        let up = if 'a' <= c && c <= 'z' {
            ((c as u8 - 32) as u8) as char
        } else {
            c
        };
        push_char(out, up);
        assert(out@ =~= old(out)@ + seq!['_'] + uppercase(name@).take(i + 1));
        i += 1;
    }
    assert(uppercase(name@).take(n as int) =~= uppercase(name@));
    assert(out@ =~= old(out)@ + name_text(name@));
}

/// Derives the name for C code from the parts of a file's directory and the
/// file's name without extension: `RLD_FID`, then an underscore and the
/// upper-case name of each directory, then an underscore and the upper-case
/// name of the file.
pub fn header_name_from_parts(parts: &Vec<PathPart>, stem: Option<&str>) -> (r: String)
    ensures
        r@ == header_name(
            part_views(parts@),
            match stem {
                Some(s) => Some(s@),
                None => None,
            },
        ),
{
    let mut s = String::from_str(NAME_PREFIX);
    let ghost views = part_views(parts@);
    let mut i: usize = 0;
    assert(s@ =~= NAME_PREFIX@ + parts_text(views, 0));
    while i < parts.len()
        invariant
            i <= parts.len(),
            views == part_views(parts@),
            s@ == NAME_PREFIX@ + parts_text(views, i as int),
        decreases parts.len() - i,
    {
        assert(views[i as int] == parts[i as int]@);
        match &parts[i] {
            PathPart::Normal(name) => {
                push_name(&mut s, name.as_str());
            },
            _ => {},
        }
        assert(s@ =~= NAME_PREFIX@ + parts_text(views, i + 1));
        i += 1;
    }
    match stem {
        Some(stem) => {
            push_name(&mut s, stem);
        },
        None => {},
    }
    assert(s@ =~= header_name(
        views,
        match stem {
            Some(s) => Some(s@),
            None => None,
        },
    ));
    s
}

/// Derives the name under which the file at `path` is known to C code.
pub fn fmt_filename(path: &str) -> (r: String)
    ensures
        r@ == header_name_of(path@),
{
    let parts = match parent_of(path) {
        Some(parent) => components_of(parent.as_str()),
        None => Vec::new(),
    };
    assert(path_parent(path@) is None ==> part_views(parts@) =~= Seq::<PartView>::empty());
    match file_stem_of(path) {
        Some(stem) => header_name_from_parts(&parts, Some(stem.as_str())),
        None => header_name_from_parts(&parts, None),
    }
}

/// Where a file is looked for: as it is named, then under each search
/// directory in order.
pub open spec fn candidates(file: Seq<char>, dirs: Option<Seq<Seq<char>>>) -> Seq<Seq<char>> {
    match dirs {
        Some(dirs) => seq![file] + Seq::new(dirs.len(), |i: int| path_join(dirs[i], file)),
        None => seq![file],
    }
}

/// The first place that holds a regular file, if any does.
pub open spec fn first_found(found: Seq<bool>) -> Option<int> {
    if exists|i: int| 0 <= i < found.len() && found[i] {
        Some(choose|i: int| 0 <= i < found.len() && found[i] && forall|j: int| 0 <= j < i ==> !found[j])
    } else {
        None
    }
}

/// Lists the places where `file` is looked for: as it is named, then joined
/// to each search directory in order.
pub fn search_candidates(file: &str, search_dirs: Option<&Vec<String>>) -> (r: Vec<String>)
    ensures
        text_views(r@) == candidates(
            file@,
            match search_dirs {
                Some(dirs) => Some(text_views(dirs@)),
                None => None,
            },
        ),
{
    let mut out: Vec<String> = Vec::new();
    out.push(file.to_owned());
    match search_dirs {
        Some(dirs) => {
            let mut i: usize = 0;
            assert(text_views(out@) =~= seq![file@] + Seq::new(
                0,
                |j: int| path_join(text_views(dirs@)[j], file@),
            ));
            while i < dirs.len()
                invariant
                    i <= dirs.len(),
                    out.len() == i + 1,
                    text_views(out@) == seq![file@] + Seq::new(
                        i as nat,
                        |j: int| path_join(text_views(dirs@)[j], file@),
                    ),
                decreases dirs.len() - i,
            {
                let ghost before = out@;
                out.push(join_paths(dirs[i].as_str(), file));
                proof {
                    let wanted = seq![file@] + Seq::new(
                        (i + 1) as nat,
                        |j: int| path_join(text_views(dirs@)[j], file@),
                    );
                    assert forall|k: int| 0 <= k < wanted.len() implies text_views(out@)[k]
                        == wanted[k] by {
                        let earlier = seq![file@] + Seq::new(
                            i as nat,
                            |j: int| path_join(text_views(dirs@)[j], file@),
                        );
                        assert(text_views(before) == earlier);
                        assert(text_views(out@)[k] == out@[k]@);
                        if k < before.len() {
                            assert(text_views(before)[k] == before[k]@);
                            assert(earlier[k] == wanted[k]);
                        } else {
                            assert(text_views(dirs@)[i as int] == dirs@[i as int]@);
                        }
                    }
                    assert(text_views(out@) =~= wanted);
                }
                i += 1;
            }
            assert(text_views(out@) =~= candidates(file@, Some(text_views(dirs@))));
        },
        None => {
            assert(text_views(out@) =~= candidates(file@, None));
        },
    }
    out
}

/// The answers that belong to `n` places: answers past the last place are
/// left out, and a place without an answer holds no file.
pub open spec fn answers(found: Seq<bool>, n: int) -> Seq<bool> {
    if found.len() <= n {
        found
    } else {
        found.take(n)
    }
}

/// Resolves `file`. The places where it may be are those that
/// [`search_candidates`] lists, and `found` says of each, in that order,
/// whether it holds a regular file. `file` becomes the first place that
/// does; where none does, `file` stays as it is and the failure names it.
pub fn locate_file(file: &mut String, search_dirs: Option<&Vec<String>>, found: &Vec<bool>) -> (r:
    Result<(), LinkError>)
    ensures
        ({
            let places = candidates(
                old(file)@,
                match search_dirs {
                    Some(dirs) => Some(text_views(dirs@)),
                    None => None,
                },
            );
            match first_found(answers(found@, places.len() as int)) {
                Some(i) => r is Ok && final(file)@ == places[i],
                None => outcome(r) == Err::<(), Failure>(
                    Failure::FileNotFound {
                        file: old(file)@,
                        search_dirs: match search_dirs {
                            Some(dirs) => Some(text_views(dirs@)),
                            None => None,
                        },
                    },
                ) && final(file)@ == old(file)@,
            }
        }),
{
    let places = search_candidates(file.as_str(), search_dirs);
    let ghost asked = answers(found@, places.len() as int);
    let mut i: usize = 0;
    while i < places.len() && i < found.len()
        invariant
            i <= places.len(),
            i <= found.len(),
            asked == answers(found@, places.len() as int),
            text_views(places@) == candidates(
                old(file)@,
                match search_dirs {
                    Some(dirs) => Some(text_views(dirs@)),
                    None => None,
                },
            ),
            forall|j: int| 0 <= j < i ==> !asked[j],
            *file == *old(file),
        decreases places.len() - i,
    {
        if found[i] {
            *file = places[i].clone();
            proof {
                assert(asked[i as int]);
                let k = first_found(asked)->Some_0;
                assert(k == i) by {
                    if k < i {
                        assert(!asked[k]);
                    }
                    if i < k {
                        assert(!asked[i as int]);
                    }
                }
                assert(text_views(places@)[i as int] == places@[i as int]@);
            }
            return Ok(());
        }
        i += 1;
    }
    let tried = match search_dirs {
        Some(dirs) => Some(copy_texts(dirs)),
        None => None,
    };
    let err = LinkError::FileNotFound { file: file.clone(), search_dirs: tried };
    proof {
        match search_dirs {
            Some(dirs) => {
                let copied = tried->Some_0;
                assert(Seq::new(copied@.len(), |i: int| copied@[i]@) =~= text_views(dirs@));
            },
            None => {},
        }
    }
    Err(err)
}

/// Copies a list of texts.
pub fn copy_texts(texts: &Vec<String>) -> (r: Vec<String>)
    ensures
        text_views(r@) == text_views(texts@),
{
    let mut out: Vec<String> = Vec::with_capacity(texts.len());
    let mut i: usize = 0;
    while i < texts.len()
        invariant
            i <= texts.len(),
            out@.len() == i,
            forall|j: int| 0 <= j < i ==> (#[trigger] out@[j])@ == texts@[j]@,
        decreases texts.len() - i,
    {
        out.push(texts[i].clone());
        i += 1;
    }
    assert(text_views(out@) =~= text_views(texts@));
    out
}

} // verus!
