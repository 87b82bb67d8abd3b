use kusanagi_kernel::{
    divide, Freight, Part, Purpose, Segment, SegmentError, Signer, Trail, MAX_PAYLOAD, PART_ROOM,
};

fn alice() -> Signer {
    Signer::from_seed(&[1_u8; 32])
}

fn trail() -> Trail {
    Trail::from_seed([9_u8; 32])
}

fn sealed_payloads(payload: &[u8], most: u16) -> Vec<Vec<u8>> {
    let me = alice();
    let chain = trail();
    divide(payload, most)
        .unwrap()
        .into_iter()
        .scan(None, |head: &mut Option<Segment>, freight| {
            let segment = match head {
                None => Segment::genesis(&me, &chain, freight).unwrap(),
                Some(before) => Segment::extend(&chain, me.handle(), freight, before.head()).unwrap(),
            };
            let verified =
                Segment::from_canonical_bytes(&segment.to_canonical_bytes(), &me.verifying_key())
                    .unwrap();
            *head = Some(verified.clone());
            Some(verified)
        })
        .map(|segment| segment.payload().to_vec())
        .collect()
}

#[test]
fn what_fits_in_one_segment_is_never_divided() {
    let brim = usize::try_from(MAX_PAYLOAD).unwrap();
    let payloads = sealed_payloads(&vec![b'm'; brim], 32);
    assert_eq!(payloads.len(), 1);
    assert_eq!(payloads.first(), Some(&vec![b'm'; brim]));
    let one = divide(&vec![b'm'; brim], 32).unwrap();
    assert_eq!(one.len(), 1);
}

#[test]
fn one_byte_over_one_segment_becomes_two_parts() {
    let brim = usize::try_from(MAX_PAYLOAD).unwrap();
    let payloads = sealed_payloads(&vec![b'm'; brim + 1], 32);
    assert_eq!(payloads.len(), 2);
    let first = Part::of(&payloads[0]).unwrap();
    let second = Part::of(&payloads[1]).unwrap();
    assert_eq!((first.index, first.total), (0, 2));
    assert_eq!((second.index, second.total), (1, 2));
    assert_eq!(first.bytes.len() + second.bytes.len(), brim + 1);
}

#[test]
fn a_header_that_is_not_a_header_is_not_a_part() {
    assert!(Part::of(&[]).is_none());
    assert!(Part::of(&[0, 0]).is_none());
    assert!(Part::of(&[0, 0, 0, 1]).is_none());
    assert!(Part::of(&[5, 5, 0, 2, b'x']).is_none());
}

#[test]
fn past_the_limit_is_refused_with_the_limit_in_it() {
    let room = usize::try_from(PART_ROOM).unwrap();
    let past = room * 2 + 1;
    match divide(&vec![b'm'; past], 2) {
        Err(SegmentError::MessageTooLarge { len, limit }) => {
            assert_eq!(len, past);
            assert_eq!(limit, room * 2);
        }
        other => panic!("a message past the limit was not refused: {other:?}"),
    }
}

#[test]
fn the_parts_joined_in_order_are_the_message() {
    let message: Vec<u8> = (0..(3 * PART_ROOM as usize + 17)).map(|at| (at % 251) as u8).collect();
    let run = divide(&message, 8).unwrap();
    assert_eq!(run.len(), 4);
    let mut joined = Vec::new();
    for (at, freight) in run.iter().enumerate() {
        let payload = sealed(freight.clone());
        let part = Part::of(&payload).unwrap();
        assert_eq!(usize::from(part.index), at);
        assert_eq!(part.total, 4);
        joined.extend_from_slice(part.bytes);
    }
    assert_eq!(joined, message);
}

fn sealed(freight: Freight) -> Vec<u8> {
    let segment = Segment::genesis(&alice(), &trail(), freight).unwrap();
    assert_eq!(segment.purpose(), Purpose::Part);
    segment.payload().to_vec()
}

#[test]
fn a_part_is_its_header_and_its_bytes() {
    let freight = Freight::part(1, 3, b"abc").unwrap();
    let segment = Segment::genesis(&alice(), &trail(), freight).unwrap();
    assert_eq!(segment.payload(), &[0, 1, 0, 3, b'a', b'b', b'c']);
    let too_big = vec![0_u8; PART_ROOM as usize + 1];
    assert_eq!(
        Freight::part(0, 2, &too_big),
        Err(SegmentError::PayloadTooLarge { len: PART_ROOM as usize + 5, limit: MAX_PAYLOAD })
    );
}

#[test]
fn a_channel_carries_four_million_bytes_and_a_room_eight() {
    let channel = divide(&vec![7_u8; 4_042_720], 32).unwrap();
    assert_eq!(channel.len(), 32);
    assert!(matches!(
        divide(&vec![7_u8; 4_042_721], 32),
        Err(SegmentError::MessageTooLarge { len: 4_042_721, limit: 4_042_720 })
    ));
    let room = divide(&vec![7_u8; 8_085_440], 64).unwrap();
    assert_eq!(room.len(), 64);
    assert_eq!(MAX_PAYLOAD, 126_339);
    assert_eq!(PART_ROOM, 126_335);
}

#[test]
fn the_largest_ward_is_not_cut_short_by_the_arithmetic() {
    let room = usize::try_from(PART_ROOM).unwrap();
    let run = divide(&vec![1_u8; room * 3 + 1], u16::MAX).unwrap();
    assert_eq!(run.len(), 4);
}
