//! The inbound half of a session: applying one received transport message to
//! the peer state. A text frame is parsed as a change notification — text is
//! applied and cached, an image header is buffered until its payload arrives.
//! A binary frame is decompressed against the buffered header and applied; one
//! without a buffered header is a protocol violation and is dropped. A message
//! that cannot be decoded is dropped with its error; the session goes on.

use vstd::prelude::*;
use crate::codec::{decode, inflate_of, CodecError};
use crate::content::{ClipboardContent, ContentModel, ImageHeader, MessageModel, PeerState, WireMessage};
use crate::envelope::{deserialize_notification, spec_deserialize, ChangeNotification, NotificationModel};

verus! {

/// Mathematical model of what applying a message decided.
pub enum OutcomeModel {
    SetText { content: Seq<u8> },
    StoredHeader,
    SetImage { width: u64, height: u64, bytes: Seq<u8> },
    DroppedViolation,
}

/// What the session should do after applying one inbound message: write text
/// or an image to the local clipboard, or nothing.
#[derive(Debug, PartialEq, Eq)]
pub enum ApplyOutcome {
    /// Write this text to the local clipboard.
    SetText { content: Vec<u8> },
    /// An image header was buffered; nothing to apply yet.
    StoredHeader,
    /// Write this reconstructed image to the local clipboard.
    SetImage { width: u64, height: u64, bytes: Vec<u8> },
    /// A binary payload arrived with no buffered header; it was dropped.
    DroppedViolation,
}

impl View for ApplyOutcome {
    type V = OutcomeModel;

    open spec fn view(&self) -> OutcomeModel {
        match self {
            ApplyOutcome::SetText { content } => OutcomeModel::SetText { content: content@ },
            ApplyOutcome::StoredHeader => OutcomeModel::StoredHeader,
            ApplyOutcome::SetImage { width, height, bytes } => OutcomeModel::SetImage {
                width: *width,
                height: *height,
                bytes: bytes@,
            },
            ApplyOutcome::DroppedViolation => OutcomeModel::DroppedViolation,
        }
    }
}

/// What applying a message yields, given the buffered header: the outcome, or
/// the error on which the message is dropped.
pub open spec fn apply_verdict(pending: Option<ImageHeader>, m: MessageModel) -> Result<
    OutcomeModel,
    CodecError,
> {
    match m {
        MessageModel::Text { data } => match spec_deserialize(data) {
            Option::None => Result::Err(CodecError::MalformedEnvelope),
            Option::Some(n) => match n {
                NotificationModel::Text { content } => Result::Ok(
                    OutcomeModel::SetText { content },
                ),
                NotificationModel::Image { .. } => Result::Ok(OutcomeModel::StoredHeader),
            },
        },
        MessageModel::Binary { data } => match pending {
            Option::None => Result::Ok(OutcomeModel::DroppedViolation),
            Option::Some(h) => match inflate_of(data) {
                Option::None => Result::Err(CodecError::CorruptPayload),
                Option::Some(bytes) => if bytes.len() == h.width * h.height * 4 {
                    Result::Ok(
                        OutcomeModel::SetImage { width: h.width, height: h.height, bytes },
                    )
                } else {
                    Result::Err(CodecError::PayloadSizeMismatch)
                },
            },
        },
    }
}

/// The cache after applying a message: the applied content, or untouched when
/// nothing was applied.
pub open spec fn cache_after_apply(
    cache: ContentModel,
    pending: Option<ImageHeader>,
    m: MessageModel,
) -> ContentModel {
    match apply_verdict(pending, m) {
        Result::Ok(OutcomeModel::SetText { content }) => ContentModel::Text { content },
        Result::Ok(OutcomeModel::SetImage { width, height, bytes }) => ContentModel::Image {
            width,
            height,
            bytes,
        },
        _ => cache,
    }
}

/// The buffered header after applying a message: a received header replaces
/// any buffered one (the superseded header is discarded, never applied); any
/// binary frame consumes the buffer; a text notification leaves it untouched.
pub open spec fn pending_after_apply(
    pending: Option<ImageHeader>,
    m: MessageModel,
) -> Option<ImageHeader> {
    match m {
        MessageModel::Text { data } => match spec_deserialize(data) {
            Option::Some(NotificationModel::Image { width, height }) => Option::Some(
                ImageHeader { width, height },
            ),
            _ => pending,
        },
        MessageModel::Binary { .. } => Option::None,
    }
}

/// Applies one received transport message to the peer state, returning what
/// to do to the local clipboard, or the error on which the message was
/// dropped (the state is then unchanged but for a consumed header buffer).
pub fn apply_message(state: &mut PeerState, msg: &WireMessage) -> (r: Result<
    ApplyOutcome,
    CodecError,
>)
    ensures
        final(state).cache@ == cache_after_apply(old(state).cache@, old(state).pending, msg@),
        final(state).pending == pending_after_apply(old(state).pending, msg@),
        match r {
            Ok(o) => apply_verdict(old(state).pending, msg@) == Result::<
                OutcomeModel,
                CodecError,
            >::Ok(o@),
            Err(e) => apply_verdict(old(state).pending, msg@) == Result::<
                OutcomeModel,
                CodecError,
            >::Err(e),
        },
        old(state).cache@.wf() ==> final(state).cache@.wf(),
{
    match msg {
        WireMessage::Text { data } => {
            match deserialize_notification(data) {
                Err(e) => Err(e),
                Ok(ChangeNotification::Text { content }) => {
                    state.cache = ClipboardContent::Text {
                        content: crate::bytes::copy_bytes(&content),
                    };
                    Ok(ApplyOutcome::SetText { content })
                },
                Ok(ChangeNotification::Image { width, height }) => {
                    state.pending = Some(ImageHeader { width, height });
                    Ok(ApplyOutcome::StoredHeader)
                },
            }
        },
        WireMessage::Binary { data } => {
            let header = match &state.pending {
                None => {
                    return Ok(ApplyOutcome::DroppedViolation);
                },
                Some(h) => *h,
            };
            state.pending = None;
            match decode(data) {
                Err(e) => Err(e),
                Ok(bytes) => {
                    let blen: u64 = bytes.len() as u64;
                    let size_ok = match header.width.checked_mul(header.height) {
                        Some(p) => match p.checked_mul(4) {
                            Some(q) => q == blen,
                            None => false,
                        },
                        None => false,
                    };
                    proof {
                        assert(size_ok == (bytes@.len() == header.width * header.height * 4));
                    }
                    if size_ok {
                        state.cache = ClipboardContent::Image {
                            width: header.width,
                            height: header.height,
                            bytes: crate::bytes::copy_bytes(&bytes),
                        };
                        Ok(
                            ApplyOutcome::SetImage {
                                width: header.width,
                                height: header.height,
                                bytes,
                            },
                        )
                    } else {
                        Err(CodecError::PayloadSizeMismatch)
                    }
                },
            }
        },
    }
}

/// Law (header/payload atomicity): an image header received while another
/// header is buffered replaces it — the superseded header is discarded and
/// never reaches the cache.
pub proof fn lemma_header_superseded(
    cache: ContentModel,
    pending: Option<ImageHeader>,
    data: Seq<u8>,
    width: u64,
    height: u64,
)
    requires
        spec_deserialize(data) == Some(NotificationModel::Image { width, height }),
    ensures
        cache_after_apply(cache, pending, MessageModel::Text { data }) == cache,
        pending_after_apply(pending, MessageModel::Text { data }) == Some(
            ImageHeader { width, height },
        ),
{
}

/// Law (protocol violation): a binary frame with no buffered header is
/// dropped — state untouched, nothing applied.
pub proof fn lemma_violation_dropped(cache: ContentModel, data: Seq<u8>)
    ensures
        apply_verdict(None, MessageModel::Binary { data }) == Result::<
            OutcomeModel,
            CodecError,
        >::Ok(OutcomeModel::DroppedViolation),
        cache_after_apply(cache, None, MessageModel::Binary { data }) == cache,
{
}

} // verus!
