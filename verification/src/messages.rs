//! The signed application messages that cross the wire.
//!
//! A reaction request, its acknowledgement, and a broadcast post.  Each is an
//! opaque signed payload produced by an external signing capability; the codec
//! treats the fields as typed binary blobs.  The views project each message to
//! plain byte sequences for use in contracts.

use vstd::prelude::*;

verus! {

/// A reaction to a piece of content, signed by its author, sent point-to-point.
#[derive(Debug, Clone, PartialEq, Eq)]
pub struct SignedReaction {
    /// Reference to the content reacted to.
    pub content_ref: Vec<u8>,
    /// Which reaction this is.
    pub kind: u32,
    /// Identity of the signer.
    pub signer_id: Vec<u8>,
    /// Signature over the other fields, made externally.
    pub signature: Vec<u8>,
}

/// Mathematical value of a `SignedReaction`.
pub struct ReactionView {
    pub content_ref: Seq<u8>,
    pub kind: u32,
    pub signer_id: Seq<u8>,
    pub signature: Seq<u8>,
}

impl View for SignedReaction {
    type V = ReactionView;

    open spec fn view(&self) -> ReactionView {
        ReactionView {
            content_ref: self.content_ref@,
            kind: self.kind,
            signer_id: self.signer_id@,
            signature: self.signature@,
        }
    }
}

/// The acknowledgement answering one delivered `SignedReaction`.
#[derive(Debug, Clone, PartialEq, Eq)]
pub struct SignedAck {
    /// Copied from the reaction being answered: the correlation key.
    pub content_ref: Vec<u8>,
    /// Identity of the answering node.
    pub signer_id: Vec<u8>,
    /// Signature over the other fields, made externally.
    pub signature: Vec<u8>,
}

/// Mathematical value of a `SignedAck`.
pub struct AckView {
    pub content_ref: Seq<u8>,
    pub signer_id: Seq<u8>,
    pub signature: Seq<u8>,
}

impl View for SignedAck {
    type V = AckView;

    open spec fn view(&self) -> AckView {
        AckView {
            content_ref: self.content_ref@,
            signer_id: self.signer_id@,
            signature: self.signature@,
        }
    }
}

/// A post broadcast over a gossip topic, signed by its author.
#[derive(Debug, Clone, PartialEq, Eq)]
pub struct SignedPost {
    /// The post's content.
    pub content: Vec<u8>,
    /// Identity of the author.
    pub author_id: Vec<u8>,
    /// Signature over the other fields, made externally.
    pub signature: Vec<u8>,
}

/// Mathematical value of a `SignedPost`.
pub struct PostView {
    pub content: Seq<u8>,
    pub author_id: Seq<u8>,
    pub signature: Seq<u8>,
}

impl View for SignedPost {
    type V = PostView;

    open spec fn view(&self) -> PostView {
        PostView {
            content: self.content@,
            author_id: self.author_id@,
            signature: self.signature@,
        }
    }
}

/// Build the acknowledgement for `reaction`: it carries the reaction's content
/// reference, so that the answer is correlated one-to-one with the request,
/// and the local node's identity and externally produced signature.
pub fn make_ack(reaction: &SignedReaction, signer_id: Vec<u8>, signature: Vec<u8>) -> (ack:
    SignedAck)
    ensures
        ack@.content_ref == reaction@.content_ref,
        ack@.signer_id == signer_id@,
        ack@.signature == signature@,
{
    SignedAck { content_ref: reaction.content_ref.clone(), signer_id, signature }
}

} // verus!
