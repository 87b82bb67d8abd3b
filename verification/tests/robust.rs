use kusanagi_kernel::{Freight, Segment, Signer, Trail, VerifyingKey};

/// What a genesis segment carries before its payload: tag, height, author,
/// commitment, acknowledgement, purpose and the declared payload length.
const HEADER: usize = 1 + 8 + 32 + 32 + 8 + 1 + 4;

/// Where the acknowledgement stands: inside the sealed part, outside what the
/// author signs.
const ACKNOWLEDGED: core::ops::Range<usize> = 73..81;

const SAID: &[u8] = b"a payload of ordinary size";

fn genesis() -> (Vec<u8>, VerifyingKey) {
    let signer = Signer::from_seed(&[9; 32]);
    let trail = Trail::from_seed([4; 32]);
    let segment =
        Segment::genesis(&signer, &trail, Freight::message(SAID.to_vec()).unwrap()).unwrap();
    (segment.to_canonical_bytes(), signer.verifying_key())
}

#[test]
fn one_spelling_per_segment() {
    let (bytes, author) = genesis();
    let again = Segment::from_canonical_bytes(&bytes, &author).unwrap();
    assert_eq!(again.to_canonical_bytes(), bytes);
    let mut padded = bytes.clone();
    padded.push(0);
    assert!(Segment::from_canonical_bytes(&padded, &author).is_err());
}

#[test]
fn a_flipped_bit_in_what_is_signed_is_refused_and_one_in_the_payload_is_not() {
    let (bytes, author) = genesis();
    let payload = HEADER..HEADER + SAID.len();
    let sampled = (payload.end..bytes.len()).step_by(8);
    for index in (0..HEADER).filter(|at| !ACKNOWLEDGED.contains(at)).chain(sampled) {
        let mut damaged = bytes.clone();
        damaged[index] ^= 0b0001_0000;
        assert!(
            Segment::from_canonical_bytes(&damaged, &author).is_err(),
            "a bit flipped at byte {index}, inside what the author signed, was accepted"
        );
    }
    let mut altered = bytes.clone();
    altered[payload.start] ^= 0b0001_0000;
    let read = Segment::from_canonical_bytes(&altered, &author)
        .expect("the payload is outside the signature, by design");
    assert_ne!(read.payload(), SAID);
}

#[test]
fn any_bytes_at_all_produce_an_answer() {
    let (whole, author) = genesis();
    let mut state: u32 = 0x1234_5678;
    for length in 0..600 {
        let bytes: Vec<u8> = (0..length)
            .map(|_| {
                state = state.wrapping_mul(1_664_525).wrapping_add(1_013_904_223);
                (state >> 24) as u8
            })
            .collect();
        let _ = Segment::from_canonical_bytes(&bytes, &author);
        let mut prefix = whole.clone();
        prefix.truncate(length.min(whole.len()));
        assert!(length >= whole.len() || Segment::from_canonical_bytes(&prefix, &author).is_err());
    }
}

#[test]
fn a_declared_length_is_never_believed() {
    let (whole, author) = genesis();
    for declared in [1_u32, 2, 1_000, 126_339, 126_340, 1 << 20, u32::MAX] {
        let mut bytes = whole[..HEADER - 4].to_vec();
        bytes.extend_from_slice(&declared.to_be_bytes());
        let error = Segment::from_canonical_bytes(&bytes, &author)
            .expect_err("a length nothing backs was accepted");
        assert!(
            matches!(error.code(), "segment.truncated" | "segment.payload_too_large"),
            "a declared length of {declared} was answered with {}",
            error.code()
        );
    }
}
