//! The data the synchronizer moves around: clipboard content, the wire
//! messages a transport carries, and the per-session peer state.

use vstd::prelude::*;

verus! {

/// Mathematical model of a clipboard content value.
pub enum ContentModel {
    Text { content: Seq<u8> },
    Image { width: u64, height: u64, bytes: Seq<u8> },
}

impl ContentModel {
    /// An image's pixel buffer holds exactly `width * height * 4` RGBA bytes.
    pub open spec fn wf(self) -> bool {
        match self {
            ContentModel::Text { .. } => true,
            ContentModel::Image { width, height, bytes } => bytes.len() == width * height * 4,
        }
    }
}

/// What the clipboard currently holds: UTF-8 text, or an RGBA8 row-major image.
/// Equality is structural: text equality, or byte-for-byte pixel equality.
#[derive(Debug, PartialEq, Eq)]
pub enum ClipboardContent {
    Text { content: Vec<u8> },
    Image { width: u64, height: u64, bytes: Vec<u8> },
}

impl View for ClipboardContent {
    type V = ContentModel;

    open spec fn view(&self) -> ContentModel {
        match self {
            ClipboardContent::Text { content } => ContentModel::Text { content: content@ },
            ClipboardContent::Image { width, height, bytes } => ContentModel::Image {
                width: *width,
                height: *height,
                bytes: bytes@,
            },
        }
    }
}

/// Mathematical model of one transport message.
pub enum MessageModel {
    Text { data: Seq<u8> },
    Binary { data: Seq<u8> },
}

/// One message of the transport channel: a UTF-8 text frame (always a
/// serialized change notification) or a binary frame (always a compressed
/// pixel payload).
#[derive(Debug, PartialEq, Eq)]
pub enum WireMessage {
    Text { data: Vec<u8> },
    Binary { data: Vec<u8> },
}

impl View for WireMessage {
    type V = MessageModel;

    open spec fn view(&self) -> MessageModel {
        match self {
            WireMessage::Text { data } => MessageModel::Text { data: data@ },
            WireMessage::Binary { data } => MessageModel::Binary { data: data@ },
        }
    }
}

impl WireMessage {
    /// A fresh message holding the same frame.
    pub fn duplicate(&self) -> (r: WireMessage)
        ensures
            r@ == self@,
    {
        match self {
            WireMessage::Text { data } => WireMessage::Text { data: crate::bytes::copy_bytes(data) },
            WireMessage::Binary { data } => WireMessage::Binary {
                data: crate::bytes::copy_bytes(data),
            },
        }
    }
}

/// The dimensions announced by an image header notification.
#[derive(Debug, PartialEq, Eq, Structural, Clone, Copy)]
pub struct ImageHeader {
    pub width: u64,
    pub height: u64,
}

/// Per-session mutable state: the last clipboard content applied or sent on
/// this session, and a buffered image header whose pixel payload has not
/// arrived yet.
#[derive(Debug)]
pub struct PeerState {
    pub cache: ClipboardContent,
    pub pending: Option<ImageHeader>,
}

impl PeerState {
    /// The state a session starts from: an empty text cache, no pending header.
    pub fn new() -> (r: PeerState)
        ensures
            r.cache@ == (ContentModel::Text { content: Seq::<u8>::empty() }),
            r.pending is None,
    {
        PeerState { cache: ClipboardContent::Text { content: Vec::new() }, pending: None }
    }
}

} // verus!
