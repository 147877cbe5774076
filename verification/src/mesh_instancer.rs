//! A per-mesh instance collector: the handle of one registered object and
//! the instance records queued against it.

use vstd::prelude::*;

verus! {

use crate::renderer::RenderInstance;

/// Gathers instance records for one registered object.
pub struct MeshInstancer {
    pub object_handle: u32,
    pub instances: Vec<RenderInstance>,
}

impl MeshInstancer {
    /// An empty collector for the object registered under `object_handle`.
    pub fn new(object_handle: u32) -> (r: Self)
        ensures
            r.object_handle == object_handle,
            r.instances@.len() == 0,
    {
        MeshInstancer { object_handle, instances: Vec::new() }
    }

    /// Appends one instance record.
    pub fn add_instance(&mut self, instance: RenderInstance)
        ensures
            final(self).object_handle == old(self).object_handle,
            final(self).instances@ == old(self).instances@.push(instance),
    {
        self.instances.push(instance);
    }
}

} // verus!
