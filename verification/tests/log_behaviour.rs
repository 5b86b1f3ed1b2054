use record_log::server::log::{Log, Record};

fn payloads() -> Vec<Vec<u8>> {
    vec![
        vec![1, 2, 3],
        vec![],
        vec![0xff],
        vec![1, 2, 3],
        vec![0; 300],
        vec![9, 8, 7, 6, 5, 4, 3, 2, 1, 0],
    ]
}

fn filled() -> Log {
    let mut log = Log::new_log();
    for payload in payloads() {
        assert!(log.append(Record { value: payload, offset: 0 }).is_ok());
    }
    log
}

#[test]
fn appends_on_a_fresh_log_return_their_positions() {
    let mut log = Log::new_log();
    for (i, payload) in payloads().into_iter().enumerate() {
        assert_eq!(log.len(), i as u64);
        let assigned = log.append(Record { value: payload, offset: 40 + i as u64 });
        assert_eq!(assigned, Ok(i as u64));
        assert_eq!(log.len(), i as u64 + 1);
    }
}

#[test]
fn every_offset_below_the_length_reads_its_payload() {
    let log = filled();
    let expected = payloads();
    assert_eq!(log.len(), expected.len() as u64);
    for (i, payload) in expected.iter().enumerate() {
        match log.read(i as u64) {
            Ok(found) => {
                assert_eq!(&found.value, payload);
                assert_eq!(found.offset, i as u64);
            }
            Err(message) => panic!("offset {} was refused: {}", i, message),
        }
    }
}

#[test]
fn every_offset_from_the_length_on_is_refused() {
    let log = filled();
    let length = log.len();
    for offset in [length, length + 1, length + 1000, u64::MAX - 1, u64::MAX] {
        match log.read(offset) {
            Ok(found) => panic!("offset {} gave a record labelled {}", offset, found.offset),
            Err(message) => assert_eq!(message, "Offset exceeded length of Log"),
        }
    }
    let empty = Log::new_log();
    for offset in [0, 1, u64::MAX] {
        assert!(empty.read(offset).is_err());
    }
}

#[test]
fn repeated_reads_return_equal_records() {
    let log = filled();
    for offset in 0..log.len() {
        let first = log.read(offset).ok().map(|r| (r.value, r.offset));
        let second = log.read(offset).ok().map(|r| (r.value, r.offset));
        let third = log.read(offset).ok().map(|r| (r.value, r.offset));
        assert!(first.is_some());
        assert_eq!(first, second);
        assert_eq!(second, third);
    }
    assert_eq!(log.read(log.len()).err(), log.read(log.len()).err());
}

#[test]
fn altering_a_returned_record_leaves_the_log_alone() {
    let log = filled();
    let mut taken = match log.read(0) {
        Ok(found) => found,
        Err(message) => panic!("{}", message),
    };
    assert_eq!(taken.value, vec![1, 2, 3]);
    taken.value[0] = 200;
    taken.value.push(4);
    taken.offset = 77;
    assert_eq!(taken.value, vec![200, 2, 3, 4]);

    let again = match log.read(0) {
        Ok(found) => found,
        Err(message) => panic!("{}", message),
    };
    assert_eq!(again.value, vec![1, 2, 3]);
    assert_eq!(again.offset, 0);
    assert_eq!(log.len(), payloads().len() as u64);
}

#[test]
fn clone_of_a_record_is_independent() {
    let original = Record { value: vec![5, 6], offset: 3 };
    let mut copy = original.clone();
    assert_eq!(copy.value, vec![5, 6]);
    assert_eq!(copy.offset, 3);
    copy.value.clear();
    copy.offset = 4;
    assert_eq!(original.value, vec![5, 6]);
    assert_eq!(original.offset, 3);
}

#[test]
fn later_appends_get_larger_offsets() {
    let mut log = Log::new_log();
    let mut assigned: Vec<u64> = Vec::new();
    for i in 0..50u64 {
        match log.append(Record { value: vec![(i % 7) as u8], offset: 1000 - i }) {
            Ok(offset) => assigned.push(offset),
            Err(message) => panic!("append failed: {}", message),
        }
        // Reads between appends do not disturb the numbering.
        assert!(log.read(i).is_ok());
        assert!(log.read(i + 1).is_err());
    }
    for earlier in 0..assigned.len() {
        for later in earlier + 1..assigned.len() {
            assert!(assigned[earlier] < assigned[later]);
        }
    }
    for pair in assigned.windows(2) {
        assert_eq!(pair[1], pair[0] + 1);
    }
}

#[test]
fn appends_keep_earlier_records() {
    let mut log = Log::new_log();
    assert_eq!(log.append(Record { value: vec![10, 20], offset: 0 }), Ok(0));
    let before = log.read(0).ok().map(|r| (r.value, r.offset));
    for payload in payloads() {
        assert!(log.append(Record { value: payload, offset: 0 }).is_ok());
    }
    let after = log.read(0).ok().map(|r| (r.value, r.offset));
    assert_eq!(before, Some((vec![10, 20], 0)));
    assert_eq!(before, after);
}

#[test]
fn length_counts_the_appends() {
    let mut log = Log::new_log();
    assert_eq!(log.len(), 0);
    assert_eq!(log.append(Record { value: vec![1], offset: 0 }), Ok(0));
    assert_eq!(log.len(), 1);
    assert_eq!(log.append(Record { value: vec![], offset: 0 }), Ok(1));
    assert_eq!(log.len(), 2);
    assert!(log.read(1).is_ok());
    assert_eq!(log.len(), 2);
}
