//! The Windows Event Log plugin's entry points; its tools are not implemented yet.
use vstd::prelude::*;

verus! {

/// Search strategy for Windows Event Log files.
pub struct EvtxPlugin {}

/// The tools this plugin exposes. Each is optional to callers, so an unsupported tool should
/// report an error rather than a fabricated result.
pub struct EvtxTools {}

impl EvtxPlugin {
    pub fn new() -> (plugin: EvtxPlugin) {
        EvtxPlugin {}
    }

    pub fn tools(&self) -> (tools: EvtxTools) {
        EvtxTools {}
    }
}

/// The sum of two integers, which must fit in an `i32`.
pub fn add(left: i32, right: i32) -> (sum: i32)
    requires
        i32::MIN <= left + right <= i32::MAX,
    ensures
        sum == left + right,
{
    left + right
}

} // verus!
