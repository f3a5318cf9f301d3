use std::time::Duration;
use vstd::prelude::*;
use crate::manager::{ChunkManager, ManagerView};
use crate::raycasting::{Ray, RayResult};

verus! {

/// Something that lives in the world and is moved along with it.
pub trait Entity {
    /// Moves the entity on by the time `dt`.
    fn update(&mut self, dt: Duration);

    /// Takes the input that arrived for the entity.
    fn input(&mut self);
}

impl ManagerView {
    /// The world after a left click along a ray that met `hit`: the block
    /// that the ray met, if any, is taken away.
    pub open spec fn after_left_click(self, hit: RayResult) -> ManagerView {
        match hit {
            RayResult::Block { loc, step } => match self.chunk_for(loc.x as int, loc.y as int) {
                Some(c) => if c.occupied(loc.x as int, loc.y as int, loc.z as int) {
                    self.with_chunk(c.cleared(loc.x as int, loc.y as int, loc.z as int))
                } else {
                    self
                },
                None => self,
            },
            _ => self,
        }
    }
}

/// Breaks the block that `ray` meets, if it meets one.
pub fn player_left_click(ray: &Ray, chunk_manager: &mut ChunkManager)
    requires
        old(chunk_manager).wf(),
    ensures
        final(chunk_manager).wf(),
        final(chunk_manager)@ == old(chunk_manager)@.after_left_click(
            old(chunk_manager)@.cast(ray.steps@),
        ),
{
    let ray_res = chunk_manager.cast_ray(ray);
    match ray_res {
        RayResult::Block { loc, step } => {
            let _ = chunk_manager.remove_block(loc);
        },
        _ => {},
    }
}

/// Does nothing: a right click has no effect yet.
pub fn player_right_click() {
}

} // verus!
