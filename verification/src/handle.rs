//! Shared ownership of a mesh.
//!
//! A handle is one of several owners of one mesh. Meshes are the one kind of
//! value that is shared. The owners of one mesh have one key, the address at
//! which the mesh is kept, read once when the mesh is put under a handle. It
//! sets them apart from the owners of every other mesh that is alive at the
//! same time; of this nothing is proved.

use std::rc::Rc;
use vstd::prelude::*;
use crate::geometry::{GeometryData, GeometryDataView};

verus! {

/// What a handle holds: the key of the mesh, and the mesh.
pub struct HandleView {
    pub key: usize,
    pub data: GeometryDataView,
}

/// One of the owners of a shared mesh.
#[derive(Debug)]
pub struct Handle {
    key: usize,
    data: Rc<GeometryData>,
}

impl View for Handle {
    type V = HandleView;

    closed spec fn view(&self) -> HandleView {
        HandleView { key: self.key, data: (*self.data)@ }
    }
}

/// `Rc::as_ptr`, as a number: the address at which the shared value is
/// kept. Nothing is claimed of the number.
#[verifier::external_body]
fn address(data: &Rc<GeometryData>) -> usize {
    Rc::as_ptr(data) as usize
}

/// `Rc::clone`: one more owner of the same value. It is relied on to hold
/// the value that the owner it was made from holds.
#[verifier::external_body]
fn another(data: &Rc<GeometryData>) -> (r: Rc<GeometryData>)
    ensures
        r == data,
{
    Rc::clone(data)
}

impl Handle {
    /// Puts a mesh under shared ownership, with this handle as its one owner.
    pub fn new(data: GeometryData) -> (h: Handle)
        ensures
            h@.data == data@,
    {
        let data = Rc::new(data);
        let key = address(&data);
        Handle { key, data }
    }

    /// The key of the mesh.
    pub fn key(&self) -> (k: usize)
        ensures
            k == self@.key,
    {
        self.key
    }

    /// The mesh.
    pub fn get(&self) -> (data: &GeometryData)
        ensures
            data@ == self@.data,
    {
        &*self.data
    }

    /// Gives this owner's share up.
    pub fn release(self) {
    }

    /// Gives the mesh out if this handle is its only owner, and the handle
    /// back if it is not.
    pub fn try_unwrap(self) -> (r: Result<GeometryData, Handle>)
        ensures
            match r {
                Ok(data) => data@ == self@.data,
                Err(h) => h@ == self@,
            },
    {
        let key = self.key;
        match Rc::try_unwrap(self.data) {
            Ok(data) => Ok(data),
            Err(data) => Err(Handle { key, data }),
        }
    }
}

impl Clone for Handle {
    /// One more owner of the same mesh.
    fn clone(&self) -> (h: Handle)
        ensures
            h@ == self@,
    {
        Handle { key: self.key, data: another(&self.data) }
    }
}

} // verus!
