use vstd::prelude::*;

verus! {

/// The compile-time side-channel: a type-keyed, type-erased store
/// (`anymap::AnyMap`) that individual functions may use for private,
/// persistent bookkeeping across multiple calls in one compilation. What it
/// stores is private to those functions and never interpreted by the
/// compiler itself, so the store is held opaquely; the compiler only ever
/// creates one and moves it around whole.
#[verifier::external_body]
pub struct SideChannel {
    map: anymap::AnyMap,
}

impl SideChannel {
    /// Relies on `anymap::Map::new`: creates an empty type-keyed map.
    #[verifier::external_body]
    pub fn new() -> SideChannel {
        SideChannel { map: anymap::AnyMap::new() }
    }
}

/// Compile-time state scoped to the block being compiled. The expression
/// forms covered by this core introduce no local bindings, so the local
/// scope carries no entries; it is threaded through every compile operation
/// so that forms which do bind variables can extend it.
pub struct LocalEnv {}

impl LocalEnv {
    pub fn new() -> LocalEnv {
        LocalEnv {  }
    }
}

impl Default for LocalEnv {
    fn default() -> LocalEnv {
        LocalEnv {  }
    }
}

/// Program-wide compile-time state. Besides whatever the host configures,
/// it owns an opaque side-channel that individual functions may use for
/// private, persistent bookkeeping across multiple calls in one compilation.
pub struct ExternalEnv {
    custom: SideChannel,
}

impl ExternalEnv {
    /// The side-channel currently owned by this environment.
    pub closed spec fn side_channel(self) -> SideChannel {
        self.custom
    }

    pub fn new() -> ExternalEnv {
        ExternalEnv { custom: SideChannel::new() }
    }

    /// Replaces the owned side-channel with `ctx` and hands the previous one
    /// back, so a function hook can hold it while the rest of the compiler
    /// state stays immutably borrowed.
    pub fn swap_external_context(&mut self, ctx: SideChannel) -> (prev: SideChannel)
        ensures
            final(self).side_channel() == ctx,
            prev == old(self).side_channel(),
    {
        let mut tmp = ctx;
        core::mem::swap(&mut self.custom, &mut tmp);
        tmp
    }
}

impl Default for ExternalEnv {
    fn default() -> ExternalEnv {
        ExternalEnv::new()
    }
}

} // verus!
