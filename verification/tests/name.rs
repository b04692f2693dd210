use dns_packet::error::DnsPacketParseError;
use dns_packet::name::LabelSequenceIterator;
use dns_packet::question::{join_labels, Class, Question, RecordPreamble, RecordType};

fn google_at_twelve() -> Vec<u8> {
    let mut bytes = vec![0u8; 12];
    bytes.extend_from_slice(&[
        6, b'g', b'o', b'o', b'g', b'l', b'e', 3, b'c', b'o', b'm', 0,
    ]);
    bytes
}

/// A buffer whose first `hops` pairs of bytes are pointers, each to the
/// next pair, and whose last pointer leads to the name "a".
fn chain(hops: u8) -> Vec<u8> {
    let mut bytes = Vec::new();
    for hop in 0..hops {
        bytes.push(0xc0);
        bytes.push(2 * (hop + 1));
    }
    bytes.extend_from_slice(&[1, b'a', 0]);
    bytes
}

#[test]
fn plain_name_advances_by_its_length() {
    let bytes = google_at_twelve();
    let mut position: u16 = 12;
    let mut walk = LabelSequenceIterator::new(&mut position, &bytes);
    assert_eq!(
        walk.collect(),
        Ok(vec!["google".as_bytes(), "com".as_bytes()])
    );
    assert_eq!(position, 24);
}

#[test]
fn pointer_advances_by_two() {
    let mut bytes = google_at_twelve();
    bytes.extend_from_slice(&[0, 1, 0, 1, 0xc0, 12]);
    let mut position: u16 = 28;
    let mut walk = LabelSequenceIterator::new(&mut position, &bytes);
    assert_eq!(
        walk.collect(),
        Ok(vec!["google".as_bytes(), "com".as_bytes()])
    );
    assert_eq!(position, 30);
}

#[test]
fn labels_before_a_pointer_count_in_full() {
    let mut bytes = google_at_twelve();
    bytes.extend_from_slice(&[3, b'w', b'w', b'w', 0xc0, 12, 0xff]);
    let mut position: u16 = 24;
    let mut walk = LabelSequenceIterator::new(&mut position, &bytes);
    assert_eq!(
        walk.collect(),
        Ok(vec![
            "www".as_bytes(),
            "google".as_bytes(),
            "com".as_bytes()
        ])
    );
    assert_eq!(position, 30);
}

#[test]
fn read_section_step_by_step() {
    let mut bytes = google_at_twelve();
    bytes.extend_from_slice(&[3, b'w', b'w', b'w', 0xc0, 19]);
    let mut position: u16 = 24;
    let mut walk = LabelSequenceIterator::new(&mut position, &bytes);
    assert_eq!(walk.read_section(), Ok(Some("www".as_bytes())));
    assert_eq!(*walk.global_position, 28);
    assert_eq!(walk.position, 28);
    assert_eq!(walk.jump_counter, 0);
    assert_eq!(walk.read_section(), Ok(Some("com".as_bytes())));
    assert_eq!(*walk.global_position, 30);
    assert_eq!(walk.position, 23);
    assert_eq!(walk.jump_counter, 1);
    assert!(!walk.finished);
    assert_eq!(walk.read_section(), Ok(None));
    assert_eq!(*walk.global_position, 30);
    assert!(walk.finished);
    assert_eq!(walk.read_section(), Ok(None));
    assert_eq!(*walk.global_position, 30);
    assert_eq!(position, 30);
}

#[test]
fn root_name_is_one_byte() {
    let bytes = [0u8, 7];
    let mut position: u16 = 0;
    let mut walk = LabelSequenceIterator::new(&mut position, &bytes);
    assert_eq!(walk.collect(), Ok(vec![]));
    assert_eq!(position, 1);
}

#[test]
fn five_hops_succeed() {
    let bytes = chain(5);
    let mut position: u16 = 0;
    let mut walk = LabelSequenceIterator::new(&mut position, &bytes);
    assert_eq!(walk.collect(), Ok(vec!["a".as_bytes()]));
    assert_eq!(position, 2);
}

#[test]
fn six_hops_fail() {
    let bytes = chain(6);
    let mut position: u16 = 0;
    let mut walk = LabelSequenceIterator::new(&mut position, &bytes);
    assert_eq!(
        walk.read_section(),
        Err(DnsPacketParseError::JumpLimitExceeded)
    );
    assert_eq!(walk.collect(), Err(DnsPacketParseError::JumpLimitExceeded));
    assert_eq!(position, 0);
}

#[test]
fn more_hops_fail() {
    for hops in 7..12u8 {
        let bytes = chain(hops);
        let mut position: u16 = 0;
        let mut walk = LabelSequenceIterator::new(&mut position, &bytes);
        assert_eq!(walk.collect(), Err(DnsPacketParseError::JumpLimitExceeded));
    }
}

#[test]
fn fewer_hops_succeed() {
    for hops in 1..5u8 {
        let bytes = chain(hops);
        let mut position: u16 = 0;
        let mut walk = LabelSequenceIterator::new(&mut position, &bytes);
        assert_eq!(walk.collect(), Ok(vec!["a".as_bytes()]));
        assert_eq!(position, 2);
    }
}

#[test]
fn pointer_to_itself_fails() {
    let bytes = [0xc0u8, 0];
    let mut position: u16 = 0;
    let mut walk = LabelSequenceIterator::new(&mut position, &bytes);
    assert_eq!(walk.collect(), Err(DnsPacketParseError::JumpLimitExceeded));
    assert_eq!(position, 0);
}

#[test]
fn pointer_uses_fourteen_bits() {
    let mut bytes = vec![0u8; 0x0123];
    bytes[0] = 0xc1;
    bytes[1] = 0x20;
    bytes.extend_from_slice(&[0, 0, 0]);
    bytes[0x0120] = 2;
    bytes[0x0121] = b'o';
    bytes[0x0122] = b'k';
    let mut position: u16 = 0;
    let mut walk = LabelSequenceIterator::new(&mut position, &bytes);
    assert_eq!(walk.collect(), Ok(vec!["ok".as_bytes()]));
    assert_eq!(position, 2);
}

#[test]
fn length_is_the_low_six_bits() {
    let bytes = [0x42u8, b'h', b'i', 0x80];
    let mut position: u16 = 0;
    let mut walk = LabelSequenceIterator::new(&mut position, &bytes);
    assert_eq!(walk.collect(), Ok(vec!["hi".as_bytes()]));
    assert_eq!(position, 4);
}

#[test]
fn start_past_the_end() {
    let bytes = [0u8; 4];
    let mut position: u16 = 9;
    let mut walk = LabelSequenceIterator::new(&mut position, &bytes);
    assert_eq!(
        walk.collect(),
        Err(DnsPacketParseError::OutOfBounds {
            index: 9,
            length: 4
        })
    );
    assert_eq!(position, 9);
}

#[test]
fn pointer_cut_short() {
    let bytes = [1u8, b'a', 0xc0];
    let mut position: u16 = 0;
    let mut walk = LabelSequenceIterator::new(&mut position, &bytes);
    assert_eq!(walk.read_section(), Ok(Some("a".as_bytes())));
    assert_eq!(
        walk.read_section(),
        Err(DnsPacketParseError::OutOfBounds {
            index: 3,
            length: 3
        })
    );
    assert_eq!(*walk.global_position, 2);
    assert_eq!(walk.position, 2);
}

#[test]
fn label_cut_short() {
    let bytes = [5u8, b'a', b'b'];
    let mut position: u16 = 0;
    let mut walk = LabelSequenceIterator::new(&mut position, &bytes);
    assert_eq!(
        walk.read_section(),
        Err(DnsPacketParseError::OutOfBounds {
            index: 3,
            length: 3
        })
    );
    assert_eq!(*walk.global_position, 0);
    assert_eq!(
        walk.collect(),
        Err(DnsPacketParseError::OutOfBounds {
            index: 3,
            length: 3
        })
    );
    assert_eq!(position, 0);
}

#[test]
fn failure_after_a_label_leaves_the_cursor() {
    let bytes = [1u8, b'a', 9, b'b'];
    let mut position: u16 = 0;
    let mut walk = LabelSequenceIterator::new(&mut position, &bytes);
    assert_eq!(
        walk.collect(),
        Err(DnsPacketParseError::OutOfBounds {
            index: 4,
            length: 4
        })
    );
    assert_eq!(position, 0);
}

#[test]
fn longest_label() {
    let mut bytes = vec![63u8];
    bytes.extend_from_slice(&[b'x'; 63]);
    bytes.push(0);
    let mut position: u16 = 0;
    let mut walk = LabelSequenceIterator::new(&mut position, &bytes);
    let labels = walk.collect().unwrap();
    assert_eq!(labels.len(), 1);
    assert_eq!(labels[0], &[b'x'; 63][..]);
    assert_eq!(position, 65);
}

#[test]
fn join_puts_dots_between_labels() {
    let labels = vec!["google".as_bytes(), "com".as_bytes()];
    assert_eq!(join_labels(&labels), "google.com");
    assert_eq!(join_labels(&vec!["com".as_bytes()]), "com");
    assert_eq!(join_labels(&vec![]), "");
}

#[test]
fn join_takes_bytes_as_characters() {
    let high: &[u8] = &[0xe9, b'.'];
    let labels = vec![high, "x".as_bytes()];
    assert_eq!(join_labels(&labels), "\u{e9}..x");
}

#[test]
fn question_moves_the_cursor_behind_class() {
    let mut bytes = google_at_twelve();
    bytes.extend_from_slice(&[0, 1, 0, 1]);
    let mut position: u16 = 12;
    assert_eq!(
        Question::try_from(&bytes, &mut position),
        Ok(Question {
            name: "google.com".to_string(),
            record_type: RecordType::AddressRecord,
            class: Class::Internet
        })
    );
    assert_eq!(position, 28);
}

#[test]
fn question_behind_a_pointer() {
    let mut bytes = google_at_twelve();
    bytes.extend_from_slice(&[0xc0, 19, 0, 2, 0, 1]);
    let mut position: u16 = 24;
    assert_eq!(
        Question::try_from(&bytes, &mut position),
        Ok(Question {
            name: "com".to_string(),
            record_type: RecordType::Other,
            class: Class::Internet
        })
    );
    assert_eq!(position, 30);
}

#[test]
fn question_without_class_fails() {
    let mut bytes = google_at_twelve();
    bytes.extend_from_slice(&[0, 1, 0]);
    let mut position: u16 = 12;
    assert_eq!(
        Question::try_from(&bytes, &mut position),
        Err(DnsPacketParseError::OutOfBounds {
            index: 27,
            length: 27
        })
    );
    assert_eq!(position, 12);
}

#[test]
fn question_without_type_fails() {
    let bytes = google_at_twelve();
    let mut position: u16 = 12;
    assert_eq!(
        Question::try_from(&bytes, &mut position),
        Err(DnsPacketParseError::OutOfBounds {
            index: 24,
            length: 24
        })
    );
    assert_eq!(position, 12);
}

#[test]
fn preamble_reads_the_time_to_live() {
    let mut bytes = google_at_twelve();
    bytes.extend_from_slice(&[0xc0, 12, 0, 1, 0, 1, 0x01, 0x02, 0x03, 0x04, 0, 4]);
    let mut position: u16 = 24;
    assert_eq!(
        RecordPreamble::try_from(&bytes, &mut position),
        Ok(RecordPreamble {
            question: Question {
                name: "google.com".to_string(),
                record_type: RecordType::AddressRecord,
                class: Class::Internet
            },
            time_to_live: 0x01020304
        })
    );
    assert_eq!(position, 34);
}

#[test]
fn preamble_without_time_to_live_fails() {
    let mut bytes = google_at_twelve();
    bytes.extend_from_slice(&[0, 1, 0, 1, 0, 0]);
    let mut position: u16 = 12;
    assert_eq!(
        RecordPreamble::try_from(&bytes, &mut position),
        Err(DnsPacketParseError::OutOfBounds {
            index: 30,
            length: 30
        })
    );
    assert_eq!(position, 12);
}

#[test]
fn next_gives_labels_then_nothing() {
    let mut bytes = google_at_twelve();
    bytes.extend_from_slice(&[0xc0, 19]);
    let mut position: u16 = 24;
    let mut walk = LabelSequenceIterator::new(&mut position, &bytes);
    assert_eq!(walk.next(), Some(Ok("com".as_bytes())));
    assert_eq!(walk.next(), None);
    assert_eq!(walk.next(), None);
    assert_eq!(position, 26);
}

#[test]
fn next_gives_the_failure() {
    let bytes = [0xc0u8, 0];
    let mut position: u16 = 0;
    let mut walk = LabelSequenceIterator::new(&mut position, &bytes);
    assert_eq!(
        walk.next(),
        Some(Err(DnsPacketParseError::JumpLimitExceeded))
    );
    assert_eq!(position, 0);
}

#[test]
fn name_behind_a_pointer_reads_as_where_it_points() {
    let mut bytes = google_at_twelve();
    bytes.extend_from_slice(&[0xc0, 12]);
    let mut direct: u16 = 12;
    let mut pointed: u16 = 24;
    let at_name = LabelSequenceIterator::new(&mut direct, &bytes)
        .collect()
        .unwrap();
    let at_pointer = LabelSequenceIterator::new(&mut pointed, &bytes)
        .collect()
        .unwrap();
    assert_eq!(at_name, at_pointer);
    assert_eq!(direct, 24);
    assert_eq!(pointed, 26);
}

#[test]
fn nothing_is_left_after_the_end() {
    let bytes = google_at_twelve();
    let mut position: u16 = 12;
    let mut walk = LabelSequenceIterator::new(&mut position, &bytes);
    assert_eq!(walk.collect().unwrap().len(), 2);
    assert_eq!(walk.collect(), Ok(vec![]));
    assert_eq!(walk.read_section(), Ok(None));
    assert_eq!(walk.position, 23);
    assert_eq!(walk.jump_counter, 0);
    assert_eq!(position, 24);
}
