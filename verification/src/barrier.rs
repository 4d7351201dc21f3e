//! Memory-ordering barriers for descriptor rings shared with PCI bus
//! masters. On x86 DMA is cache coherent, so ordering is all that is needed.
use vstd::prelude::*;
use core::sync::atomic::Ordering;

verus! {

/// Calls `core::sync::atomic::compiler_fence` with release ordering. Nothing
/// is claimed about it beyond that it returns.
#[verifier::external_body]
fn compiler_fence_release() {
    core::sync::atomic::compiler_fence(Ordering::Release);
}

/// Calls `core::sync::atomic::compiler_fence` with acquire ordering. Nothing
/// is claimed about it beyond that it returns.
#[verifier::external_body]
fn compiler_fence_acquire() {
    core::sync::atomic::compiler_fence(Ordering::Acquire);
}

/// Calls `core::sync::atomic::fence` with sequentially consistent ordering.
/// Nothing is claimed about it beyond that it returns.
#[verifier::external_body]
fn full_fence() {
    core::sync::atomic::fence(Ordering::SeqCst);
}

/// Order earlier descriptor/payload writes before later ones.
pub fn dma_wmb() {
    compiler_fence_release();
}

/// Order earlier reads before later ones.
pub fn dma_rmb() {
    compiler_fence_acquire();
}

/// Full ordering point.
pub fn dma_mb() {
    full_fence();
}

} // verus!
