//! The delivery-service seam.
//!
//! In MLS terms (RFC 9420) the stash is an untrusted delivery service: it stores and forwards
//! opaque group messages without the keys to read them. [`PassthroughDelivery`] admits every
//! envelope unchanged; a delivery service that knows MLS framing can take its place.

use vstd::prelude::*;

verus! {

/// An incoming envelope, described without decrypting it.
#[derive(Debug, Clone, Copy)]
pub struct EnvelopeRef<'a> {
    /// The namespace that the entry belongs to.
    pub namespace: &'a [u8; 32],
    /// The author, as encoded into the entry's key.
    pub author: &'a [u8],
    /// The author's sequence number.
    pub seq: u64,
    /// The sealed envelope, to be treated as uninterpreted bytes.
    pub bytes: &'a [u8],
}

/// What an [`EnvelopeRef`] refers to.
#[verifier::ext_equal]
pub struct EnvelopeView {
    pub namespace: [u8; 32],
    pub author: Seq<u8>,
    pub seq: u64,
    pub bytes: Seq<u8>,
}

impl<'a> View for EnvelopeRef<'a> {
    type V = EnvelopeView;

    open spec fn view(&self) -> EnvelopeView {
        EnvelopeView {
            namespace: *self.namespace,
            author: self.author@,
            seq: self.seq,
            bytes: self.bytes@,
        }
    }
}

/// The delivery service's verdict on an envelope.
#[derive(Debug, Clone, PartialEq, Eq)]
pub enum Admission {
    /// Store and replicate the envelope as it is.
    Accept,
    /// Refuse it, with a short reason for logs and metrics.
    Reject(String),
}

/// Decides whether an incoming envelope is admitted. The stash never changes envelope bytes and
/// never has group secrets, so the verdict is all there is to decide.
pub trait DeliveryService: Send + Sync {
    /// The verdict on `envelope`.
    fn admission(&self, envelope: &EnvelopeRef<'_>) -> Admission;
}

/// Treats every envelope as an opaque blob and admits it unchanged.
#[derive(Debug, Default, Clone, Copy)]
pub struct PassthroughDelivery;

impl DeliveryService for PassthroughDelivery {
    fn admission(&self, _envelope: &EnvelopeRef<'_>) -> (r: Admission)
        ensures
            r is Accept,
    {
        Admission::Accept
    }
}

/// Law: the passthrough refuses nothing.
pub proof fn law_passthrough_refuses_nothing(
    delivery: PassthroughDelivery,
    envelope: EnvelopeRef<'_>,
    verdict: Admission,
)
    requires
        call_ensures(
            <PassthroughDelivery as DeliveryService>::admission,
            (&delivery, &envelope),
            verdict,
        ),
    ensures
        verdict is Accept,
{
}

} // verus!
