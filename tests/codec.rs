use kumoko::codec::{DecodeResult, Message};

fn decoded_i32(bytes: &[u8]) -> Option<(i32, usize)> {
    match i32::decode(bytes) {
        DecodeResult::Done(v, n) => Some((v, n)),
        _ => None,
    }
}

#[test]
fn small_values_take_one_byte() {
    assert_eq!(15i32.encode(), vec![30]);
    assert_eq!(19i32.encode(), vec![38]);
    assert_eq!(0i32.encode(), vec![0]);
    assert_eq!((-1i32).encode(), vec![1]);
    assert_eq!(125i32.encode(), vec![250]);
}

#[test]
fn larger_values_take_a_marker() {
    assert_eq!(300i32.encode(), vec![251, 0x58, 0x02]);
    assert_eq!(i32::MAX.encode(), vec![252, 0xfe, 0xff, 0xff, 0xff]);
    assert_eq!(i32::MIN.encode(), vec![252, 0xff, 0xff, 0xff, 0xff]);
    assert_eq!(
        i64::MAX.encode(),
        vec![253, 0xfe, 0xff, 0xff, 0xff, 0xff, 0xff, 0xff, 0xff]
    );
}

#[test]
fn decoding_reproduces_every_value() {
    for v in [0i32, 1, -1, 15, 125, 126, -126, 300, -300, 65535, 1 << 20, i32::MAX, i32::MIN] {
        let bytes = v.encode();
        assert_eq!(decoded_i32(&bytes), Some((v, bytes.len())));
    }
    for v in [0i64, -7, 1 << 40, -(1 << 40), i64::MAX, i64::MIN] {
        let bytes = v.encode();
        match i64::decode(&bytes) {
            DecodeResult::Done(w, n) => {
                assert_eq!(w, v);
                assert_eq!(n, bytes.len());
            }
            other => panic!("{:?}", other),
        }
    }
}

#[test]
fn decoding_stops_at_the_end_of_the_first_frame() {
    let mut bytes = 300i32.encode();
    bytes.extend(15i32.encode());
    assert_eq!(decoded_i32(&bytes), Some((300, 3)));
}

#[test]
fn a_strict_beginning_asks_for_more() {
    assert!(matches!(i32::decode(&[]), DecodeResult::Incomplete));
    assert!(matches!(i32::decode(&[251, 0x58]), DecodeResult::Incomplete));
    assert!(matches!(i32::decode(&[252, 1, 2, 3]), DecodeResult::Incomplete));
    assert!(matches!(i64::decode(&[253, 1, 2, 3, 4, 5, 6, 7]), DecodeResult::Incomplete));
}

#[test]
fn refused_markers_are_malformed() {
    let wide = i64::MAX.encode();
    assert!(matches!(i32::decode(&wide), DecodeResult::Malformed(_)));
    assert!(matches!(i32::decode(&[253]), DecodeResult::Malformed(_)));
    assert!(matches!(i32::decode(&[255, 0, 0, 0, 0]), DecodeResult::Malformed(_)));
    assert!(matches!(i64::decode(&[254]), DecodeResult::Malformed(_)));
}
