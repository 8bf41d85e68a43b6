//! `upgrade`: newer images. `docker upgrade` is `compose pull` then the
//! docker half of apply; the bare `upgrade` runs the pct half first so a
//! volume added to the document lands before the stack restarts. There is
//! no `pct upgrade`: the wrapper's base does not change.

use vstd::prelude::*;

use crate::ops::{Ctx, apply};
use crate::ops::apply::Options;
use crate::world::{self, Stop, World};

verus! {

pub fn docker_upgrade(w: &mut World, ctx: &Ctx, vmid: u32, o: Options) -> (r: Result<(), Stop>)
    ensures
        (final(w)@, world::res(r)) == apply::docker_apply_s(old(w)@, ctx@, vmid, o),
{
    apply::docker_apply(w, ctx, vmid, o)
}

pub fn upgrade(w: &mut World, ctx: &Ctx, vmid: u32, o: Options) -> (r: Result<(), Stop>)
    ensures
        (final(w)@, world::res(r)) == apply::apply_s(old(w)@, ctx@, vmid, o),
{
    apply::apply(w, ctx, vmid, o)
}

} // verus!
