//! Lazily loaded assets: a slot that is either empty or holds a loaded value,
//! filled on first use and reloadable after an explicit unload.

use vstd::prelude::*;

verus! {

/// Something that can be loaded from parameters; implemented by the driver's
/// asset types.  Nothing is assumed about `load` beyond its signature.
pub trait Asset: Sized {
    type LoadParams;

    type LoadError;

    fn load(params: &Self::LoadParams) -> Result<Self, Self::LoadError>;
}

/// A lazily filled asset slot.
#[derive(Debug)]
pub struct LazyLoad<T> {
    asset: Option<T>,
}

impl<T: Asset> LazyLoad<T> {
    /// The held asset, if loaded.
    pub closed spec fn spec_asset(self) -> Option<T> {
        self.asset
    }

    /// Is an asset currently loaded?
    pub open spec fn is_loaded(self) -> bool {
        self.spec_asset() is Some
    }

    /// An empty slot.
    pub fn new() -> (r: LazyLoad<T>)
        ensures
            !r.is_loaded(),
    {
        LazyLoad { asset: None }
    }

    /// Load the asset if the slot is empty; a slot that is already loaded is
    /// left as it is and reports success.  A failed load leaves the slot
    /// empty and hands back the loader's error.
    pub fn load(&mut self, params: &T::LoadParams) -> (r: Result<(), T::LoadError>)
        ensures
            old(self).is_loaded() ==> r is Ok && *final(self) == *old(self),
            !old(self).is_loaded() ==> match r {
                Result::Ok(()) => final(self).is_loaded(),
                Result::Err(_) => !final(self).is_loaded(),
            },
    {
        if self.asset.is_none() {
            match T::load(params) {
                Result::Ok(asset) => {
                    self.asset = Some(asset);
                },
                Result::Err(e) => {
                    return Err(e);
                },
            }
        }
        Ok(())
    }

    /// Drop the held asset, if any.
    pub fn unload(&mut self)
        ensures
            !final(self).is_loaded(),
    {
        self.asset = None;
    }

    /// Take the asset out, or hand the slot back unchanged if it is empty.
    pub fn into_loaded(self) -> (r: Result<T, LazyLoad<T>>)
        ensures
            match r {
                Result::Ok(asset) => self.spec_asset() == Some(asset),
                Result::Err(slot) => !self.is_loaded() && slot == self,
            },
    {
        match self.asset {
            Some(asset) => Ok(asset),
            None => Err(LazyLoad { asset: None }),
        }
    }

    /// Borrow the asset, or report that nothing is loaded.
    pub fn get(&self) -> (r: Result<&T, NotLoadedError>)
        ensures
            match r {
                Result::Ok(asset) => self.spec_asset() == Some(*asset),
                Result::Err(_) => !self.is_loaded(),
            },
    {
        match &self.asset {
            Some(asset) => Ok(asset),
            None => Err(NotLoadedError(())),
        }
    }

    /// Borrow the asset mutably, or report that nothing is loaded.
    pub fn get_mut(&mut self) -> (r: Result<&mut T, NotLoadedError>)
        ensures
            old(self).is_loaded() == r is Ok,
    {
        match &mut self.asset {
            Some(asset) => Ok(asset),
            None => Err(NotLoadedError(())),
        }
    }
}

/// Asked for an asset that has not been loaded.
#[derive(Debug)]
pub struct NotLoadedError(());

impl NotLoadedError {
    /// A human-readable description of the error.
    pub fn message(&self) -> (r: &'static str)
        ensures
            r@ =~= "Lazy asset not loaded"@,
    {
        "Lazy asset not loaded"
    }
}

} // verus!
