//! A real-time second-order response filter: given a stream of target values,
//! it produces a smoothly animated "current" value that tracks the target with
//! configurable natural frequency, damping and response character, and stays
//! numerically stable under variable and large time steps.
//!
//! All quantities are signed 64-bit fixed-point numbers with 32 fractional
//! bits (see `fx`); every arithmetic step saturates instead of wrapping, so
//! the whole pipeline is total and the filter state is bounded by
//! construction.
use vstd::prelude::*;

pub mod fx;
pub mod value;
pub mod state;
pub mod component;
pub mod world;
pub mod props;

pub use crate::state::TickMode;
pub use crate::world::World;

pub use crate::component::AnimHandle;
pub use crate::component::Binding;
pub use crate::component::Dynamics;
pub use crate::component::DynamicsSource;
pub use crate::state::DynamicsParams;
pub use crate::state::DynamicsState;
pub use crate::value::AnimValue;
pub use crate::world::DynamicsSet;
pub use crate::world::Entity;

verus! {

/// The session-wide default integration strategy, handed to every filter
/// created without an explicit choice.
#[derive(Clone, Copy, PartialEq, Eq, Structural, Debug)]
pub struct DefaultTickMode(pub TickMode);

/// Session configuration: installs the default integration strategy into
/// a session before filters are created.
#[derive(Clone, Copy, PartialEq, Eq, Structural, Debug)]
pub struct DynamicsPlugin {
    pub default_tick_mode: TickMode,
}

impl DynamicsPlugin {
    /// Install the configured default strategy; nothing else changes.
    pub fn build(&self, world: &mut World)
        ensures
            final(world).default_mode.0 == self.default_tick_mode,
            final(world).slots == old(world).slots,
            final(world).props == old(world).props,
            final(world).states == old(world).states,
            final(world).dynamics == old(world).dynamics,
            old(world).wf() ==> final(world).wf(),
    {
        world.default_mode = DefaultTickMode(self.default_tick_mode);
    }
}

impl Default for DynamicsPlugin {
    /// The Stable strategy, bounded at any step size.
    fn default() -> (r: Self)
        ensures
            r.default_tick_mode == TickMode::Stable,
    {
        DynamicsPlugin { default_tick_mode: TickMode::Stable }
    }
}

} // verus!
