use kusanagi_kernel::{
    ChainHead, Freight, Purpose, Segment, SegmentError, Signer, Trail, VerifyingKey,
    MAX_PAYLOAD, MAX_SEGMENT,
};

fn alice() -> Signer {
    Signer::from_seed(&[1_u8; 32])
}

fn hers() -> VerifyingKey {
    alice().verifying_key()
}

fn trail() -> Trail {
    Trail::from_seed([5_u8; 32])
}

fn said(payload: &[u8]) -> Freight {
    Freight::message(payload.to_vec()).unwrap()
}

fn genesis() -> Segment {
    Segment::genesis(&alice(), &trail(), said(b"first")).unwrap()
}

#[test]
fn canonical_bytes_are_stable() {
    let segment = genesis();
    assert_eq!(segment.to_canonical_bytes(), segment.to_canonical_bytes());
}

#[test]
fn genesis_round_trips() {
    let segment = genesis();
    let decoded = Segment::from_canonical_bytes(&segment.to_canonical_bytes(), &hers()).unwrap();
    assert_eq!(decoded, segment);
    assert_eq!(decoded.id(), segment.id());
    assert_eq!(decoded.author(), alice().handle());
}

#[test]
fn extend_round_trips_and_links() {
    let first = genesis();
    let second = Segment::extend(&trail(), alice().handle(), said(b"second"), first.head()).unwrap();
    assert_eq!(second.index(), 1);
    assert_eq!(second.previous(), Some(first.id()));
    let decoded = Segment::from_canonical_bytes(&second.to_canonical_bytes(), &hers()).unwrap();
    assert_eq!(decoded, second);
}

#[test]
fn identity_follows_every_field() {
    let base = genesis();
    let other_author =
        Segment::genesis(&Signer::from_seed(&[2; 32]), &trail(), said(b"first")).unwrap();
    let other_payload = Segment::genesis(&alice(), &trail(), said(b"second")).unwrap();
    let higher = Segment::extend(&trail(), alice().handle(), said(b"first"), base.head()).unwrap();
    assert_ne!(base.id(), other_author.id());
    assert_ne!(base.id(), other_payload.id());
    assert_ne!(base.id(), higher.id());
}

#[test]
fn empty_input_is_truncated() {
    assert!(matches!(
        Segment::from_canonical_bytes(&[], &hers()),
        Err(SegmentError::Truncated(_))
    ));
}

#[test]
fn tag_only_is_truncated() {
    assert!(matches!(
        Segment::from_canonical_bytes(&[0], &hers()),
        Err(SegmentError::Truncated(_))
    ));
}

#[test]
fn unknown_tag_is_named() {
    let mut bytes = genesis().to_canonical_bytes();
    bytes[0] = 2;
    assert_eq!(
        Segment::from_canonical_bytes(&bytes, &hers()),
        Err(SegmentError::UnknownTag { tag: 2 })
    );
}

#[test]
fn genesis_with_a_height_is_refused() {
    let mut bytes = genesis().to_canonical_bytes();
    bytes[8] = 7;
    assert_eq!(
        Segment::from_canonical_bytes(&bytes, &hers()),
        Err(SegmentError::GenesisIndexNotZero { index: 7 })
    );
}

#[test]
fn trailing_bytes_are_refused() {
    let mut bytes = genesis().to_canonical_bytes();
    bytes.push(0);
    assert_eq!(
        Segment::from_canonical_bytes(&bytes, &hers()),
        Err(SegmentError::TrailingBytes { count: 1 })
    );
}

#[test]
fn a_lying_length_is_truncated_not_panicking() {
    let mut bytes = genesis().to_canonical_bytes();
    let length_at = bytes.len() - 64 - 5 - 4;
    bytes[length_at..length_at + 4].copy_from_slice(&1000_u32.to_be_bytes());
    assert!(matches!(
        Segment::from_canonical_bytes(&bytes, &hers()),
        Err(SegmentError::Truncated(_))
    ));
}

#[test]
fn an_oversized_payload_is_refused() {
    let payload = vec![0_u8; usize::try_from(MAX_PAYLOAD).unwrap() + 1];
    assert!(matches!(
        Freight::message(payload),
        Err(SegmentError::PayloadTooLarge { .. })
    ));
}

#[test]
fn a_segment_cannot_be_re_authored() {
    let bob = Signer::from_seed(&[2; 32]);
    let mut bytes = genesis().to_canonical_bytes();
    let author_at = 9;
    bytes[author_at..author_at + 32].copy_from_slice(bob.handle().as_bytes());
    assert!(matches!(
        Segment::from_canonical_bytes(&bytes, &bob.verifying_key()),
        Err(SegmentError::NotAuthentic(_))
    ));
}

#[test]
fn a_segment_read_under_the_wrong_key_names_both_parties() {
    let bob = Signer::from_seed(&[2; 32]);
    assert_eq!(
        Segment::from_canonical_bytes(&genesis().to_canonical_bytes(), &bob.verifying_key()),
        Err(SegmentError::NotTheAuthor { expected: bob.handle(), found: alice().handle() })
    );
}

#[test]
fn the_author_field_is_a_name_that_no_key_fits_inside() {
    let bytes = genesis().to_canonical_bytes();
    let author_at = 9;
    assert_eq!(&bytes[author_at..author_at + 32], alice().handle().as_bytes());
    assert_ne!(&bytes[author_at..author_at + 32], alice().verifying_key().as_bytes());
}

#[test]
fn a_following_segment_shows_what_the_one_below_committed_to() {
    let first = genesis();
    let second = Segment::extend(&trail(), alice().handle(), said(b"second"), first.head()).unwrap();
    let third = Segment::extend(&trail(), alice().handle(), said(b"third"), second.head()).unwrap();
    assert_eq!(second.reveal_shown().unwrap().commitment(), first.commit());
    assert_eq!(third.reveal_shown().unwrap().commitment(), second.commit());
    assert_eq!(first.reveal_shown(), None);
    assert_eq!(third.index(), 2);
    assert!(matches!(first.head(), head if head.index() == 0 && head.awaited() == first.commit()));
}

#[test]
fn a_chain_at_its_last_height_is_exhausted() {
    let first = genesis();
    let head = ChainHead::recorded(first.id(), u64::MAX - 1, first.commit());
    assert_eq!(
        Segment::extend(&trail(), alice().handle(), said(b"late"), head),
        Err(SegmentError::ChainExhausted)
    );
    let below = ChainHead::recorded(first.id(), u64::MAX - 2, first.commit());
    assert_eq!(
        Segment::extend(&trail(), alice().handle(), said(b"last"), below).unwrap().index(),
        u64::MAX - 1
    );
}

#[test]
fn the_freight_rides_outside_the_signature() {
    let filler = Segment::genesis(&alice(), &trail(), Freight::filler().unwrap().acknowledging(3)).unwrap();
    assert_eq!(filler.purpose(), Purpose::Filler);
    assert_eq!(filler.acknowledged(), 3);
    assert!(filler.payload().is_empty());
    let decoded = Segment::from_canonical_bytes(&filler.to_canonical_bytes(), &hers()).unwrap();
    assert_eq!(decoded, filler);
    match (filler.to_canonical_bytes().len(), decoded.previous()) {
        (len, None) => assert_eq!(len, 1 + 8 + 32 + 32 + 8 + 1 + 4 + 64),
        _ => panic!("a genesis segment named a predecessor"),
    }
}

#[test]
fn segment_error_codes_are_stable() {
    assert_eq!(SegmentError::ChainExhausted.code(), "segment.exhausted");
    assert_eq!(SegmentError::FollowsIndexZero.code(), "segment.follows_index");
    assert_eq!(SegmentError::TrailingBytes { count: 1 }.code(), "segment.trailing");
    assert_eq!(SegmentError::UnknownPurpose { purpose: 9 }.code(), "segment.purpose");
}

#[test]
fn an_unknown_purpose_is_named() {
    let mut bytes = genesis().to_canonical_bytes();
    let purpose_at = 1 + 8 + 32 + 32 + 8;
    bytes[purpose_at] = 9;
    assert_eq!(
        Segment::from_canonical_bytes(&bytes, &hers()),
        Err(SegmentError::UnknownPurpose { purpose: 9 })
    );
}

#[test]
fn a_following_segment_at_height_zero_is_refused() {
    let first = genesis();
    let second = Segment::extend(&trail(), alice().handle(), said(b"second"), first.head()).unwrap();
    let mut bytes = second.to_canonical_bytes();
    bytes[1..9].copy_from_slice(&0_u64.to_be_bytes());
    assert_eq!(
        Segment::from_canonical_bytes(&bytes, &hers()),
        Err(SegmentError::FollowsIndexZero)
    );
}

#[test]
fn a_declared_payload_past_the_limit_is_refused_once_it_arrived() {
    let first = genesis();
    let second = Segment::extend(&trail(), alice().handle(), said(b""), first.head()).unwrap();
    let mut bytes = second.to_canonical_bytes();
    let length_at = bytes.len() - 4;
    bytes[length_at..].copy_from_slice(&(MAX_PAYLOAD + 1).to_be_bytes());
    bytes.extend(std::iter::repeat(0_u8).take(MAX_PAYLOAD as usize + 1));
    assert_eq!(
        Segment::from_canonical_bytes(&bytes, &hers()),
        Err(SegmentError::PayloadTooLarge { len: MAX_PAYLOAD as usize + 1, limit: MAX_PAYLOAD })
    );
}

#[test]
fn a_segment_is_its_payload_and_a_fixed_hundred_and_fifty_bytes() {
    let first = genesis();
    assert_eq!(first.to_canonical_bytes().len(), 150 + b"first".len());
    let second = Segment::extend(&trail(), alice().handle(), said(b"second"), first.head()).unwrap();
    assert_eq!(second.to_canonical_bytes().len(), 150 + b"second".len());
    let brim = vec![0_u8; usize::try_from(MAX_PAYLOAD).unwrap()];
    let full = Segment::genesis(&alice(), &trail(), said(&brim)).unwrap();
    assert_eq!(full.to_canonical_bytes().len(), MAX_SEGMENT);
}

#[test]
fn a_run_starts_a_chain_and_each_segment_extends_the_last() {
    let freights = vec![said(b"one"), said(b"two"), said(b"three")];
    let run = Segment::run(&alice(), &trail(), freights, None).unwrap();
    assert_eq!(run.len(), 3);
    assert_eq!(run[0].index(), 0);
    assert_eq!(run[0].previous(), None);
    for at in 1..3 {
        assert_eq!(run[at].index(), at as u64);
        assert_eq!(run[at].previous(), Some(run[at - 1].id()));
        assert_eq!(run[at].author(), alice().handle());
    }
    assert_eq!(run[2].payload(), b"three");
    assert_eq!(run[0], genesis_of(b"one"));
}

fn genesis_of(payload: &[u8]) -> Segment {
    Segment::genesis(&alice(), &trail(), said(payload)).unwrap()
}

#[test]
fn a_run_above_a_head_continues_from_it() {
    let first = genesis();
    let run = Segment::run(&alice(), &trail(), vec![said(b"later")], Some(first.head())).unwrap();
    assert_eq!(run.len(), 1);
    assert_eq!(run[0].index(), 1);
    assert_eq!(run[0].previous(), Some(first.id()));
    let alone = Segment::extend(&trail(), alice().handle(), said(b"later"), first.head()).unwrap();
    assert_eq!(run[0], alone);
    assert!(Segment::run(&alice(), &trail(), Vec::new(), Some(first.head())).unwrap().is_empty());
}

#[test]
fn a_run_past_the_last_height_is_refused() {
    let first = genesis();
    let second = Segment::extend(&trail(), alice().handle(), said(b"x"), first.head()).unwrap();
    let mut bytes = second.to_canonical_bytes();
    bytes[1..9].copy_from_slice(&(u64::MAX - 2).to_be_bytes());
    let high = Segment::from_canonical_bytes(&bytes, &hers()).unwrap();
    let one = Segment::run(&alice(), &trail(), vec![said(b"a")], Some(high.head())).unwrap();
    assert_eq!(one[0].index(), u64::MAX - 1);
    assert_eq!(
        Segment::run(&alice(), &trail(), vec![said(b"a"), said(b"b")], Some(high.head())),
        Err(SegmentError::ChainExhausted)
    );
}
