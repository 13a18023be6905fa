//! Events of the reader.
use vstd::prelude::*;
use crate::property::DelayedProperties;

verus! {

/// Information in the FBX file header.
#[derive(Debug, Clone, Copy)]
pub struct FbxHeaderInfo {
    /// FBX version: for FBX x.y, x * 1000 + y * 100.
    pub version: i32,
}

/// One event of an FBX stream.
#[derive(Debug)]
pub enum FbxEvent {
    /// The start of the data, after the magic.
    StartFbx(FbxHeaderInfo),
    /// The end of the data. The footer after it is not read.
    EndFbx,
    /// The start of a node.
    StartNode {
        /// The node name.
        name: String,
        /// The node properties.
        properties: DelayedProperties,
    },
    /// The end of a node.
    EndNode,
}

/// An event as plain data.
pub enum EventView {
    StartFbx(i32),
    EndFbx,
    /// Name, undecoded property bytes, declared number of properties.
    StartNode(Seq<char>, Seq<u8>, nat),
    EndNode,
}

impl View for FbxEvent {
    type V = EventView;

    open spec fn view(&self) -> EventView {
        match self {
            FbxEvent::StartFbx(h) => EventView::StartFbx(h.version),
            FbxEvent::EndFbx => EventView::EndFbx,
            FbxEvent::StartNode { name, properties } => EventView::StartNode(
                name@,
                properties.bytes(),
                properties.count(),
            ),
            FbxEvent::EndNode => EventView::EndNode,
        }
    }
}

} // verus!
