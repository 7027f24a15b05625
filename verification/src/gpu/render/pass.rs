//! Render pass attachment actions.

use crate::gpu::ffi;
use crate::gpu::ffi::NSUInteger;
use vstd::prelude::*;

verus! {

/// What happens to attachment contents at pass start (`MTLLoadAction`).
#[derive(Debug, Clone, Copy)]
pub enum LoadAction {
    DontCare,
    Load,
    Clear,
}

impl LoadAction {
    /// The `MTLLoadAction` code.
    pub fn code(self) -> (c: NSUInteger)
        ensures
            c == match self {
                LoadAction::DontCare => ffi::MTLLoadActionDontCare,
                LoadAction::Load => ffi::MTLLoadActionLoad,
                LoadAction::Clear => ffi::MTLLoadActionClear,
            },
    {
        match self {
            LoadAction::DontCare => ffi::MTLLoadActionDontCare,
            LoadAction::Load => ffi::MTLLoadActionLoad,
            LoadAction::Clear => ffi::MTLLoadActionClear,
        }
    }
}

/// What happens to attachment contents at pass end (`MTLStoreAction`).
#[derive(Debug, Clone, Copy)]
pub enum StoreAction {
    DontCare,
    Store,
    MultisampleResolve,
    StoreAndMultisampleResolve,
}

impl StoreAction {
    /// The `MTLStoreAction` code.
    pub fn code(self) -> (c: NSUInteger)
        ensures
            c == match self {
                StoreAction::DontCare => ffi::MTLStoreActionDontCare,
                StoreAction::Store => ffi::MTLStoreActionStore,
                StoreAction::MultisampleResolve => ffi::MTLStoreActionMultisampleResolve,
                StoreAction::StoreAndMultisampleResolve => ffi::MTLStoreActionStoreAndMultisampleResolve,
            },
    {
        match self {
            StoreAction::DontCare => ffi::MTLStoreActionDontCare,
            StoreAction::Store => ffi::MTLStoreActionStore,
            StoreAction::MultisampleResolve => ffi::MTLStoreActionMultisampleResolve,
            StoreAction::StoreAndMultisampleResolve => ffi::MTLStoreActionStoreAndMultisampleResolve,
        }
    }
}

} // verus!
