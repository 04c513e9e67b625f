use evering::bytes::{read_le, write_le};
use evering::numeric::{align_down, align_up, bit_check, checked_next_power_of_two, ilog2};
use evering::process::{
    decode_frame, decode_named, encode_frame, encode_named, Bootstrap, FrameError, KillEvent,
    KillStep, TooLarge, HEADER, MAX_BOOTSTRAP, MAX_RESOURCES,
};

fn bootstrap(bytes: &[u8]) -> Bootstrap {
    Bootstrap::new(bytes).unwrap()
}

#[test]
fn bootstraps_are_bounded() {
    assert_eq!(bootstrap(b"hello").as_bytes(), b"hello");
    assert_eq!(bootstrap(&[0; MAX_BOOTSTRAP]).into_boxed().len(), MAX_BOOTSTRAP);
    assert_eq!(
        Bootstrap::new(&[0; MAX_BOOTSTRAP + 1]),
        Err(TooLarge { len: MAX_BOOTSTRAP + 1, max: MAX_BOOTSTRAP })
    );
}

#[test]
fn frames_round_trip() {
    let frame = encode_frame(&bootstrap(b"abc"), 2).unwrap();
    assert_eq!(frame, b"EVR1\x03\x00\x02\x00abc");
    assert_eq!(decode_frame(&frame, false, 2, 2).unwrap(), bootstrap(b"abc"));
    let empty = encode_frame(&bootstrap(b""), 0).unwrap();
    assert_eq!(empty.len(), HEADER);
    assert_eq!(decode_frame(&empty, false, 0, 0).unwrap(), bootstrap(b""));
}

#[test]
fn only_whole_frames_with_their_resources_are_accepted() {
    let frame = encode_frame(&bootstrap(b"abc"), 2).unwrap();
    assert_eq!(
        encode_frame(&bootstrap(b"abc"), MAX_RESOURCES + 1),
        Err(FrameError::TooManyResources)
    );
    assert_eq!(
        decode_frame(&frame, false, MAX_RESOURCES + 1, 2),
        Err(FrameError::TooManyExpected)
    );
    assert_eq!(decode_frame(&frame, true, 2, 2), Err(FrameError::Truncated));
    assert_eq!(decode_frame(&frame[1..], false, 2, 2), Err(FrameError::Header));
    assert_eq!(decode_frame(&frame[..7], false, 2, 2), Err(FrameError::Header));
    assert_eq!(decode_frame(&frame[..10], false, 2, 2), Err(FrameError::Length));
    assert_eq!(decode_frame(&frame, false, 1, 1), Err(FrameError::Count));
    assert_eq!(decode_frame(&frame, false, 2, 1), Err(FrameError::Count));
    let oversized = b"EVR1\xff\xff\x00\x00";
    assert_eq!(decode_frame(oversized, false, 0, 0), Err(FrameError::Length));
}

#[test]
fn named_frames_round_trip() {
    let frame = encode_named(&bootstrap(b"abc"), &[7, 1 << 40]).unwrap();
    let (bytes, names) = decode_named(&frame, 2).unwrap();
    assert_eq!(bytes, bootstrap(b"abc"));
    assert_eq!(names, [7, 1 << 40]);
    assert_eq!(
        encode_named(&bootstrap(b"abc"), &[0; MAX_RESOURCES + 1]),
        Err(FrameError::TooManyResources)
    );
    assert_eq!(decode_named(&frame, MAX_RESOURCES + 1), Err(FrameError::TooManyExpected));
    assert!(decode_named(&frame, 1).is_err());
    assert!(decode_named(&frame[..frame.len() - 1], 2).is_err());
    assert_eq!(decode_named(b"EVR2\x00\x00\x00\x00", 0), Err(FrameError::Header));
}

#[test]
fn the_end_of_a_child_is_observed() {
    assert_eq!(KillStep::first(true), KillStep::Ended);
    let step = KillStep::first(false);
    assert_eq!(step, KillStep::Ask);
    assert_eq!(step.next(KillEvent::Exited), KillStep::Ended);
    let step = step.next(KillEvent::Running);
    assert_eq!(step, KillStep::Kill);
    assert_eq!(step.next(KillEvent::Killed).next(KillEvent::Exited), KillStep::Ended);
    let again = step.next(KillEvent::Error);
    assert_eq!(again, KillStep::AskAgain);
    assert_eq!(again.next(KillEvent::Exited), KillStep::Ended);
    assert_eq!(again.next(KillEvent::Running), KillStep::Failed);
}

#[test]
fn numbers_have_their_little_endian_bytes() {
    assert_eq!(write_le(0x0102_0304, 4), [4, 3, 2, 1]);
    assert_eq!(read_le(&[4, 3, 2, 1]), 0x0102_0304);
    assert_eq!(read_le(&write_le(u64::MAX, 8)), u64::MAX);
}

#[test]
fn numbers_are_rounded_to_powers_and_multiples() {
    assert_eq!(ilog2(1), 0);
    assert_eq!(ilog2(1023), 9);
    assert_eq!(ilog2(u64::MAX), 63);
    assert_eq!(checked_next_power_of_two(0), Some(1));
    assert_eq!(checked_next_power_of_two(65), Some(128));
    assert_eq!(checked_next_power_of_two((1 << 63) + 1), None);
    assert_eq!(align_down(29, 8), 24);
    assert_eq!(align_up(25, 8), 32);
    assert_eq!(align_up(24, 8), 24);
    assert!(bit_check(0b100, 2));
    assert!(!bit_check(0b100, 1));
}
