//! The change detector: on each poll tick it compares what the clipboard
//! holds against the session cache and, only on a byte-exact change, produces
//! the outbound message pair (image header then compressed payload) or the
//! single text message, updating the cache. An unchanged clipboard produces
//! nothing, which is what keeps a received change from echoing back out.

use vstd::prelude::*;
use crate::bytes::bytes_eq;
use crate::codec::{deflate_of, encode};
use crate::content::{ClipboardContent, ContentModel, MessageModel, PeerState, WireMessage};
use crate::envelope::{serialize_notification, spec_serialize, ChangeNotification, NotificationModel};
use crate::registry::messages_view;

verus! {

/// Mathematical model of one clipboard poll result.
pub enum ReadingModel {
    Image { width: u64, height: u64, bytes: Seq<u8> },
    Text { content: Seq<u8> },
    Unavailable,
}

/// What one poll of the local clipboard produced: an image, text (when no
/// image is available), or nothing (clipboard empty or a transient failure).
#[derive(Debug)]
pub enum ClipboardReading {
    Image { width: u64, height: u64, bytes: Vec<u8> },
    Text { content: Vec<u8> },
    Unavailable,
}

impl View for ClipboardReading {
    type V = ReadingModel;

    open spec fn view(&self) -> ReadingModel {
        match self {
            ClipboardReading::Image { width, height, bytes } => ReadingModel::Image {
                width: *width,
                height: *height,
                bytes: bytes@,
            },
            ClipboardReading::Text { content } => ReadingModel::Text { content: content@ },
            ClipboardReading::Unavailable => ReadingModel::Unavailable,
        }
    }
}

/// Whether the reading differs from the cached content: byte-exact pixel
/// comparison for images, exact text comparison for text. A reading of a
/// different kind than the cache is always a change; an unavailable reading
/// never is.
pub open spec fn is_change(cache: ContentModel, reading: ReadingModel) -> bool {
    match reading {
        ReadingModel::Unavailable => false,
        ReadingModel::Image { bytes, .. } => match cache {
            ContentModel::Image { bytes: cached, .. } => bytes != cached,
            _ => true,
        },
        ReadingModel::Text { content } => match cache {
            ContentModel::Text { content: cached } => content != cached,
            _ => true,
        },
    }
}

/// The messages a tick enqueues for a detected change: for an image, the
/// header envelope followed by the compressed pixel bytes; for text, the text
/// envelope alone.
pub open spec fn change_messages(reading: ReadingModel) -> Seq<MessageModel> {
    match reading {
        ReadingModel::Image { width, height, bytes } => seq![
            MessageModel::Text {
                data: spec_serialize(NotificationModel::Image { width, height }),
            },
            MessageModel::Binary { data: deflate_of(bytes) },
        ],
        ReadingModel::Text { content } => seq![
            MessageModel::Text { data: spec_serialize(NotificationModel::Text { content }) },
        ],
        ReadingModel::Unavailable => Seq::empty(),
    }
}

/// The cache after a tick: the new content on a change, untouched otherwise.
pub open spec fn cache_after_tick(cache: ContentModel, reading: ReadingModel) -> ContentModel {
    if is_change(cache, reading) {
        match reading {
            ReadingModel::Image { width, height, bytes } => ContentModel::Image {
                width,
                height,
                bytes,
            },
            ReadingModel::Text { content } => ContentModel::Text { content },
            ReadingModel::Unavailable => cache,
        }
    } else {
        cache
    }
}

/// One tick of the change detector: decides from the poll result whether the
/// clipboard changed, and on a change produces the messages to enqueue (in
/// order) and updates the cache. At most one notification pair per tick;
/// nothing is sent when the content is unchanged.
pub fn detector_tick(state: &mut PeerState, reading: ClipboardReading) -> (out: Vec<WireMessage>)
    ensures
        final(state).pending == old(state).pending,
        final(state).cache@ == cache_after_tick(old(state).cache@, reading@),
        messages_view(out@) == if is_change(old(state).cache@, reading@) {
            change_messages(reading@)
        } else {
            Seq::<MessageModel>::empty()
        },
{
    let ghost rv = reading@;
    match reading {
        ClipboardReading::Image { width, height, bytes } => {
            let unchanged = match &state.cache {
                ClipboardContent::Image { bytes: cached, .. } => bytes_eq(&bytes, cached),
                _ => false,
            };
            if unchanged {
                let out: Vec<WireMessage> = Vec::new();
                proof {
                    assert(messages_view(out@) =~= Seq::<MessageModel>::empty());
                }
                return out;
            }
            let header = serialize_notification(&ChangeNotification::Image { width, height });
            let payload = encode(&bytes);
            let mut out: Vec<WireMessage> = Vec::new();
            out.push(WireMessage::Text { data: header });
            out.push(WireMessage::Binary { data: payload });
            state.cache = ClipboardContent::Image { width, height, bytes };
            proof {
                assert(messages_view(out@) =~= change_messages(rv));
            }
            out
        },
        ClipboardReading::Text { content } => {
            let unchanged = match &state.cache {
                ClipboardContent::Text { content: cached } => bytes_eq(&content, cached),
                _ => false,
            };
            if unchanged {
                let out: Vec<WireMessage> = Vec::new();
                proof {
                    assert(messages_view(out@) =~= Seq::<MessageModel>::empty());
                }
                return out;
            }
            let data = serialize_notification(
                &ChangeNotification::Text { content: crate::bytes::copy_bytes(&content) },
            );
            let mut out: Vec<WireMessage> = Vec::new();
            out.push(WireMessage::Text { data });
            state.cache = ClipboardContent::Text { content };
            proof {
                assert(messages_view(out@) =~= change_messages(rv));
            }
            out
        },
        ClipboardReading::Unavailable => {
            let out: Vec<WireMessage> = Vec::new();
            proof {
                assert(messages_view(out@) =~= Seq::<MessageModel>::empty());
            }
            out
        },
    }
}

/// The poll result that reads back exactly the cached content.
pub open spec fn reading_of(cache: ContentModel) -> ReadingModel {
    match cache {
        ContentModel::Text { content } => ReadingModel::Text { content },
        ContentModel::Image { width, height, bytes } => ReadingModel::Image {
            width,
            height,
            bytes,
        },
    }
}

/// Law (echo suppression): when the clipboard reads back exactly what the
/// cache holds — as it does after a received change was applied and cached —
/// a detector tick is not a change: it sends nothing and leaves the cache
/// untouched.
pub proof fn lemma_echo_suppression(cache: ContentModel)
    ensures
        !is_change(cache, reading_of(cache)),
        cache_after_tick(cache, reading_of(cache)) == cache,
        change_messages(ReadingModel::Unavailable) == Seq::<MessageModel>::empty(),
{
    assert(change_messages(ReadingModel::Unavailable) =~= Seq::<MessageModel>::empty());
}

} // verus!
