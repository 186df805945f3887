//! The delivery-service seam.

use trail_stash::mls::{Admission, DeliveryService, EnvelopeRef, PassthroughDelivery};

#[test]
fn passthrough_admits_any_envelope() {
    let ds = PassthroughDelivery;
    let ns = [9u8; 32];
    let author = [7u8; 32];
    let env = EnvelopeRef {
        namespace: &ns,
        author: &author,
        seq: 42,
        bytes: b"\x00\x01\x02opaque-ciphertext",
    };
    assert_eq!(ds.admission(&env), Admission::Accept);
}

#[test]
fn passthrough_admits_empty_bytes() {
    let ds = PassthroughDelivery;
    let ns = [0u8; 32];
    let author = [0u8; 32];
    let env = EnvelopeRef {
        namespace: &ns,
        author: &author,
        seq: 0,
        bytes: &[],
    };
    assert_eq!(ds.admission(&env), Admission::Accept);
}

// A hand-rolled "future MLS" impl compiles against the same trait — proves the seam is real
// and drop-in, without pulling any MLS dependency now.
struct RejectHandshakeStub;
impl DeliveryService for RejectHandshakeStub {
    fn admission(&self, env: &EnvelopeRef<'_>) -> Admission {
        if env.bytes.first() == Some(&0xff) {
            Admission::Reject("example: unexpected handshake framing".to_string())
        } else {
            Admission::Accept
        }
    }
}

#[test]
fn seam_supports_a_selective_delivery_service() {
    let ds = RejectHandshakeStub;
    let ns = [1u8; 32];
    let author = [2u8; 32];
    let ok = EnvelopeRef {
        namespace: &ns,
        author: &author,
        seq: 1,
        bytes: b"\x01app",
    };
    let bad = EnvelopeRef {
        namespace: &ns,
        author: &author,
        seq: 2,
        bytes: b"\xffhandshake",
    };
    assert_eq!(ds.admission(&ok), Admission::Accept);
    assert!(matches!(ds.admission(&bad), Admission::Reject(_)));
}
