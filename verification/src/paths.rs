//! The files carried by a drag that enters from outside the application.

use smallvec::SmallVec;
use std::path::PathBuf;
use vstd::prelude::*;

verus! {

/// `std::path::PathBuf`, carried as an opaque value.
#[verifier::external_type_specification]
#[verifier::external_body]
pub struct ExPathBuf(PathBuf);

/// The filesystem paths of the files being dragged, in the order in which the
/// platform reported them.
///
/// The paths are kept in a `smallvec::SmallVec`, which stores up to two of
/// them in place. The verifier does not look inside it: what it holds is
/// spoken of through [`held_paths`].
#[verifier::external_body]
#[derive(Debug)]
pub struct ExternalPaths(pub(crate) SmallVec<[PathBuf; 2]>);

/// The paths that a drag holds, in order.
pub uninterp spec fn held_paths(paths: ExternalPaths) -> Seq<PathBuf>;

/// `SmallVec::new`: the vector it makes holds nothing.
#[verifier::external_body]
fn no_paths() -> (r: ExternalPaths)
    ensures
        held_paths(r) == Seq::<PathBuf>::empty(),
{
    ExternalPaths(SmallVec::new())
}

/// `SmallVec::from_vec`: the vector it makes holds the elements of `paths`,
/// in the same order.
#[verifier::external_body]
fn paths_from_vec(paths: Vec<PathBuf>) -> (r: ExternalPaths)
    ensures
        held_paths(r) == paths@,
{
    ExternalPaths(SmallVec::from_vec(paths))
}

/// `SmallVec::as_slice`: the slice is the whole contents, in order.
#[verifier::external_body]
fn paths_as_slice(paths: &ExternalPaths) -> (r: &[PathBuf])
    ensures
        r@ == held_paths(*paths),
{
    paths.0.as_slice()
}

/// `SmallVec::clone`: the clone holds a clone of each path, in the same order.
/// A clone of a path is taken to be the same path.
#[verifier::external_body]
fn clone_paths(paths: &ExternalPaths) -> (r: ExternalPaths)
    ensures
        held_paths(r) == held_paths(*paths),
{
    ExternalPaths(paths.0.clone())
}

impl View for ExternalPaths {
    type V = Seq<PathBuf>;

    open spec fn view(&self) -> Seq<PathBuf> {
        held_paths(*self)
    }
}

impl ExternalPaths {
    /// The drag that carries `paths`.
    pub fn new(paths: Vec<PathBuf>) -> (r: ExternalPaths)
        ensures
            r@ == paths@,
    {
        paths_from_vec(paths)
    }

    /// The dragged paths.
    pub fn paths(&self) -> (r: &[PathBuf])
        ensures
            r@ == self@,
    {
        paths_as_slice(self)
    }
}

impl Clone for ExternalPaths {
    fn clone(&self) -> (r: ExternalPaths)
        ensures
            r@ == self@,
    {
        clone_paths(self)
    }
}

impl Default for ExternalPaths {
    /// A drag that carries no path.
    fn default() -> (r: ExternalPaths)
        ensures
            r@ == Seq::<PathBuf>::empty(),
    {
        no_paths()
    }
}

} // verus!
