//! File paths as text: joining and taking the parent directory, through
//! `std::path`, and the file name of a `/`-separated path.

use vstd::prelude::*;
use vstd::string::StringExecFns;
use crate::text::push_char;

verus! {

/// What `Path::join` gives for `base` and `rel`, as text.
pub uninterp spec fn path_join_of(base: Seq<char>, rel: Seq<char>) -> Seq<char>;

/// `base` joined with `rel` by `std::path::Path::join`. Trusted: the result
/// is `path_join_of(base, rel)`, and, as the documentation of `join` says,
/// an absolute `rel` (one starting with `/`) replaces `base`. The rest of
/// what `join` does (separator handling) is left unstated.
#[verifier::external_body]
pub(crate) fn path_join(base: &str, rel: &str) -> (r: String)
    ensures
        r@ == path_join_of(base@, rel@),
        rel@.len() > 0 && rel@[0] == '/' ==> r@ == rel@,
{
    std::path::Path::new(base).join(rel).to_string_lossy().into_owned()
}

/// What `Path::parent` gives for `p`, as text.
pub uninterp spec fn path_parent_of(p: Seq<char>) -> Option<Seq<char>>;

/// The parent directory of `p` by `std::path::Path::parent`. Trusted: the
/// result is `path_parent_of(p)`, and, as its documentation says, there is
/// none for the empty path. How components are normalised is left
/// unstated.
#[verifier::external_body]
pub(crate) fn path_parent(p: &str) -> (r: Option<String>)
    ensures
        match r {
            Some(q) => path_parent_of(p@) == Some(q@),
            None => path_parent_of(p@) is None,
        },
        p@.len() == 0 ==> r is None,
{
    std::path::Path::new(p).parent().map(|q| q.to_string_lossy().into_owned())
}

/// The part of `path` after its last `/` (all of it when there is none):
/// the last item of `path.split("/")`.
pub open spec fn last_segment(path: Seq<char>) -> Seq<char>
    decreases path.len(),
{
    if path.len() == 0 {
        Seq::empty()
    } else if path.last() == '/' {
        Seq::empty()
    } else {
        last_segment(path.drop_last()).push(path.last())
    }
}

/// Why a path names no usable file.
#[derive(Debug, Clone, Copy, PartialEq, Eq, Structural)]
pub enum PathError {
    NoFileName,
    EmptyFileName,
    UnknownFileType,
}

impl PathError {
    pub open spec fn spec_message(&self) -> Seq<char> {
        match self {
            PathError::NoFileName => "get_file_name_from_path: Couldn't find a file of this file path"@,
            PathError::EmptyFileName => "get_book_folder_name: This file has an emtpy name"@,
            PathError::UnknownFileType => "get_book_folder_name: Unknown file types"@,
        }
    }

    pub fn message(&self) -> (s: String)
        ensures
            s@ == self.spec_message(),
    {
        match self {
            PathError::NoFileName => String::from_str(
                "get_file_name_from_path: Couldn't find a file of this file path",
            ),
            PathError::EmptyFileName => String::from_str(
                "get_book_folder_name: This file has an emtpy name",
            ),
            PathError::UnknownFileType => String::from_str(
                "get_book_folder_name: Unknown file types",
            ),
        }
    }
}

/// The file name of a `/`-separated path: what follows its last `/`.
/// Every path has one, possibly empty.
pub fn get_file_name_from_path(file_path: &str) -> (r: Result<String, PathError>)
    ensures
        r matches Ok(name) && name@ == last_segment(file_path@),
{
    broadcast use vstd::string::group_string_axioms;

    let mut name = String::new();
    let ghost mut seen: Seq<char> = Seq::empty();
    for c in it: file_path.chars()
        invariant
            it.seq() == file_path@,
            seen == file_path@.take(it.index()),
            name@ == last_segment(seen),
    {
        proof {
            let prev = seen;
            seen = seen.push(c);
            assert(seen.drop_last() =~= prev);
            assert(file_path@.take(it.index() + 1) =~= seen);
        }
        if c == '/' {
            name = String::new();
        } else {
            push_char(&mut name, c);
        }
    }
    proof {
        assert(file_path@.take(file_path@.len() as int) =~= file_path@);
    }
    Ok(name)
}

} // verus!
