//! The deobfuscation pipeline's own types, as far as they hold no outside
//! state: the pipeline itself drives the JavaScript toolchain and runs in
//! the program around this library.
use vstd::prelude::*;
use oxc_allocator::Allocator;
use core::marker::PhantomData;

verus! {

/// Marker for the whole-script string decoding pipeline.
pub struct MaStringDecoder;

/// A pass that inlines proxy functions; it keeps no state of its own.
pub struct ProxyFunctions<'a> {
    _phantom: PhantomData<&'a ()>,
}

impl<'a> ProxyFunctions<'a> {
    /// A pass tied to the lifetime of the given arena.
    pub fn new(_allocator: &'a Allocator) -> (r: Self) {
        ProxyFunctions { _phantom: PhantomData }
    }
}

} // verus!
