//! A module to run, and the decisions of the compiled-module cache.
use vstd::prelude::*;

verus! {

/// The WebAssembly module that serves a request, as bytes.
pub struct App {
    wasm: Vec<u8>,
}

impl App {
    pub closed spec fn module_bytes(&self) -> Seq<u8> {
        self.wasm@
    }

    pub fn new(wasm: Vec<u8>) -> (r: Self)
        ensures
            r.module_bytes() == wasm@,
    {
        App { wasm }
    }

    /// The module's bytes.
    pub fn wasm(&self) -> (r: &[u8])
        ensures
            r@ == self.module_bytes(),
    {
        self.wasm.as_slice()
    }
}

/// What reading a module's cached artifact gave.
#[derive(Debug, Clone, Copy, PartialEq, Eq, Structural)]
pub enum CacheLookup {
    /// An artifact was read and loaded.
    Loaded,
    /// No artifact is stored for this module yet.
    Missing,
    /// An artifact is stored but could not be loaded (corrupt, or made for
    /// another host).
    Unusable,
}

/// What to do after a cache lookup.
#[derive(Debug, Clone, Copy, PartialEq, Eq, Structural)]
pub enum CacheStep {
    /// Use the artifact that was loaded.
    UseCached,
    /// Compile the module and store the artifact; `warn` asks for a warning
    /// that the stored artifact was unusable.
    CompileAndStore { warn: bool },
}

/// A loaded artifact is used as it is; otherwise the module is compiled and
/// stored, with a warning when the old artifact was unusable.
pub open spec fn cache_step(lookup: CacheLookup) -> CacheStep {
    match lookup {
        CacheLookup::Loaded => CacheStep::UseCached,
        CacheLookup::Missing => CacheStep::CompileAndStore { warn: false },
        CacheLookup::Unusable => CacheStep::CompileAndStore { warn: true },
    }
}

pub fn after_lookup(lookup: CacheLookup) -> (r: CacheStep)
    ensures
        r == cache_step(lookup),
{
    match lookup {
        CacheLookup::Loaded => CacheStep::UseCached,
        CacheLookup::Missing => CacheStep::CompileAndStore { warn: false },
        CacheLookup::Unusable => CacheStep::CompileAndStore { warn: true },
    }
}

/// After storing a fresh artifact, the request goes on with the compiled
/// module either way: `true` asks for a warning that the store failed.
pub fn warn_after_store(stored: bool) -> (r: bool)
    ensures
        r == !stored,
{
    !stored
}

/// The artifact on disk is written only when a lookup did not load one, so a
/// module whose artifact loads is never written again, and no lookup leads to
/// more than one write.
pub proof fn lemma_store_only_on_miss(lookup: CacheLookup)
    ensures
        (cache_step(lookup) is CompileAndStore) <==> lookup != CacheLookup::Loaded,
        cache_step(lookup) matches CacheStep::CompileAndStore { warn } ==> (warn
            <==> lookup == CacheLookup::Unusable),
{
}

} // verus!
