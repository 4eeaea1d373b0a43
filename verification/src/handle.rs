//! Shared, individually lockable resource handles.

use crate::assets::Asset;
use crate::assets::AssetError;
use crate::assets::AssetErrorKind;
use crate::assets::SimpleAsset;
use vstd::prelude::*;

verus! {

/// Declares `std::sync::Mutex` to the verifier. The type stays opaque: a
/// value inside a cell is reached only through the trusted methods below,
/// and nothing is assumed about what the cell holds at any moment.
#[verifier::external_type_specification]
#[verifier::external_body]
#[verifier::reject_recursive_types(T)]
pub struct ExMutex<T: ?Sized>(std::sync::Mutex<T>);

/// A reference-counted, independently lockable cell holding one resource.
///
/// The registry holds one handle per resource, and every caller of `get`
/// holds a clone; all of them reach the same resource under the same lock,
/// so a reload through one is seen through all, and no handle is
/// invalidated by a reload or by the removal of the registry entry. Two
/// different resources never share a cell, so locking one never waits on
/// the other.
///
/// To the verifier the cell's content is opaque. What a well-behaved
/// resource does on each operation is stated by the [`Asset`] contract of
/// its type; the methods here report whatever the resource reports at the
/// time of the call, and report the lock as poisoned when a prior holder
/// panicked while holding it.
#[verifier::reject_recursive_types(A)]
pub struct Handle<A> {
    cell: std::sync::Arc<std::sync::Mutex<A>>,
}

impl<A> Clone for Handle<A> {
    /// Relies on `std::sync::Arc::clone`: the clone shares the same cell.
    #[verifier::external_body]
    fn clone(&self) -> (r: Self)
        ensures
            r == *self,
    {
        Handle { cell: std::sync::Arc::clone(&self.cell) }
    }
}

impl<A: Asset> Handle<A> {
    /// Relies on `std::sync::Mutex::new`: the new cell holds the given
    /// resource, shared with nobody yet; nothing is stated of the cell,
    /// whose content stays opaque.
    #[verifier::external_body]
    pub(crate) fn new_cell(asset: A) -> Handle<A> {
        Handle { cell: std::sync::Arc::new(std::sync::Mutex::new(asset)) }
    }

    /// Locks the cell and applies `f` to the resource with exclusive
    /// access, handing back what `f` returns. What value the resource has
    /// at that moment is not modeled, so nothing is assumed of the result.
    /// Relies on `std::sync::Mutex::lock`: it yields exclusive access to
    /// the resource, or an error when a prior holder panicked.
    #[verifier::external_body]
    fn modify<R, F: FnOnce(&mut A) -> R>(&self, f: F) -> Result<R, AssetError> {
        match self.cell.lock() {
            Ok(mut guard) => Ok(f(&mut guard)),
            Err(_) => Err(
                AssetError::new("asset lock poisoned", AssetErrorKind::Poisoned, None),
            ),
        }
    }

    /// Locks the cell and reloads the resource in place; the dispatch to
    /// the resource's own reload runs as verified code.
    pub fn reload(&self) -> Result<(), AssetError> {
        match self.modify(|a: &mut A| a.reload()) {
            Ok(r) => r,
            Err(e) => Err(e),
        }
    }

    /// Locks the cell and destroys the resource; the dispatch to the
    /// resource's own destroy runs as verified code.
    pub fn destroy(&self) -> Result<(), AssetError> {
        match self.modify(|a: &mut A| a.destroy()) {
            Ok(r) => r,
            Err(e) => Err(e),
        }
    }

    /// Locks the cell and reports the resource's load state; the dispatch
    /// to the resource's own accessor runs as verified code.
    pub fn is_loaded(&self) -> Result<bool, AssetError> {
        self.read(|a: &A| a.is_loaded())
    }

    /// Locks the cell and applies `f` to the resource, handing back what
    /// `f` returns: how holders such as a rendering layer reach the
    /// accessors of a concrete resource type. What value the resource has
    /// at that moment is not modeled, so nothing is assumed of the result.
    /// Relies on `std::sync::Mutex::lock`, as `modify` does.
    #[verifier::external_body]
    pub fn read<R, F: FnOnce(&A) -> R>(&self, f: F) -> Result<R, AssetError> {
        match self.cell.lock() {
            Ok(guard) => Ok(f(&guard)),
            Err(_) => Err(
                AssetError::new("asset lock poisoned", AssetErrorKind::Poisoned, None),
            ),
        }
    }

    /// Locks the cell and reports the resource's source file path; the
    /// dispatch to the resource's own accessor runs as verified code.
    pub fn get_src_file_path(&self) -> Result<String, AssetError> {
        self.read(|a: &A| a.get_src_file_path())
    }
}

impl Handle<SimpleAsset> {
    /// Locks the cell and reports the resource's generation counter; the
    /// dispatch to the resource's own accessor runs as verified code.
    pub fn generation(&self) -> Result<u64, AssetError> {
        self.read(|a: &SimpleAsset| a.generation())
    }

    /// Locks the cell and tells the resource to fail (or again allow) its
    /// reloads; the dispatch runs as verified code.
    pub fn set_fail_reloads(&self, fail: bool) -> Result<(), AssetError> {
        match self.modify(|a: &mut SimpleAsset| a.set_fail_reloads(fail)) {
            Ok(_) => Ok(()),
            Err(e) => Err(e),
        }
    }
}

} // verus!
