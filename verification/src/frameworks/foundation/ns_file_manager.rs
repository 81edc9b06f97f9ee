//! `NSFileManager` and the functions that name the directories of a program.
#![allow(non_snake_case)]
#![allow(non_upper_case_globals)]

use crate::ascii::SLASH;
use crate::bytes::push_bytes;
use crate::frameworks::foundation::NSUInteger;
use crate::objc::id;
use vstd::prelude::*;

verus! {

pub type NSSearchPathDirectory = NSUInteger;

pub const NSDocumentDirectory: NSSearchPathDirectory = 9;

pub type NSSearchPathDomainMask = NSUInteger;

pub const NSUserDomainMask: NSSearchPathDomainMask = 1;

/// The state of the class: the shared manager, once it has been made.
pub struct State {
    pub default_manager: Option<id>,
}

/// Why no search path could be given.
#[derive(Clone, Copy, Debug, PartialEq, Eq, Structural)]
pub enum SearchPathError {
    /// A directory other than the documents directory was asked for.
    UnsupportedDirectory,
    /// A domain other than the user's was asked for.
    UnsupportedDomain,
    /// The path was asked for with its tilde left in place.
    TildeNotExpanded,
}

/// The text `Documents`.
pub open spec fn documents_name() -> Seq<u8> {
    seq![68, 111, 99, 117, 109, 101, 110, 116, 115]
}

/// A path with one more component: the two with a slash between them.
pub open spec fn joined_path(path: Seq<u8>, component: Seq<u8>) -> Seq<u8> {
    path + seq![SLASH] + component
}

/// What a search for directories is answered with: for the documents
/// directory of the user's domain, the one path of `Documents` in the home
/// directory.
pub open spec fn search_paths(
    home: Seq<u8>,
    directory: NSSearchPathDirectory,
    domain_mask: NSSearchPathDomainMask,
    expand_tilde: bool,
) -> Result<Seq<Seq<u8>>, SearchPathError> {
    if directory != NSDocumentDirectory {
        Err(SearchPathError::UnsupportedDirectory)
    } else if domain_mask != NSUserDomainMask {
        Err(SearchPathError::UnsupportedDomain)
    } else if !expand_tilde {
        Err(SearchPathError::TildeNotExpanded)
    } else {
        Ok(seq![joined_path(home, documents_name())])
    }
}

/// The paths of the directories of a kind in a domain, given the home
/// directory of the program.
pub fn NSSearchPathForDirectoriesInDomains(
    home: &[u8],
    directory: NSSearchPathDirectory,
    domain_mask: NSSearchPathDomainMask,
    expand_tilde: bool,
) -> (res: Result<Vec<Vec<u8>>, SearchPathError>)
    ensures
        match res {
            Ok(paths) => search_paths(home@, directory, domain_mask, expand_tilde) == Ok::<
                Seq<Seq<u8>>,
                SearchPathError,
            >(crate::libc::stdio::printf::text_views(paths@)),
            Err(e) => search_paths(home@, directory, domain_mask, expand_tilde) == Err::<
                Seq<Seq<u8>>,
                SearchPathError,
            >(e),
        },
{
    if directory != NSDocumentDirectory {
        return Err(SearchPathError::UnsupportedDirectory);
    }
    if domain_mask != NSUserDomainMask {
        return Err(SearchPathError::UnsupportedDomain);
    }
    if !expand_tilde {
        return Err(SearchPathError::TildeNotExpanded);
    }
    let mut dir: Vec<u8> = Vec::new();
    push_bytes(&mut dir, home);
    dir.push(SLASH);
    dir.push(68);
    dir.push(111);
    dir.push(99);
    dir.push(117);
    dir.push(109);
    dir.push(101);
    dir.push(110);
    dir.push(116);
    dir.push(115);
    assert(dir@ =~= joined_path(home@, documents_name()));
    let mut paths: Vec<Vec<u8>> = Vec::new();
    paths.push(dir);
    assert(crate::libc::stdio::printf::text_views(paths@) =~= seq![
        joined_path(home@, documents_name()),
    ]);
    Ok(paths)
}

/// `+defaultManager`: the shared manager, where one has been made. Where
/// none has, the caller makes one and hands it to
/// [`set_default_manager`].
pub fn default_manager(state: &State) -> (res: Option<id>)
    ensures
        res == state.default_manager,
{
    state.default_manager
}

/// Keeps the manager that was made as the shared one.
pub fn set_default_manager(state: &mut State, manager: id)
    ensures
        final(state).default_manager == Some(manager),
{
    state.default_manager = Some(manager);
}

} // verus!
