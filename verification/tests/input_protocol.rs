use hvdevices::input_protocol::{
    read_event, write_event, ByteReader, InputEvent, InputProtocolError, ReadOutcome, RecordReader,
    VERSION,
};

#[test]
fn events_round_trip_through_fixed_records() {
    let events = [
        InputEvent::Key {
            usage: 0xe1,
            pressed: true,
        },
        InputEvent::Mouse {
            dx: -300,
            dy: 400,
            wheel: -2,
            buttons: 5,
        },
        InputEvent::ReleaseAll,
        InputEvent::KeyboardLeds {
            num_lock: true,
            caps_lock: false,
            scroll_lock: true,
        },
    ];
    let mut bytes = Vec::new();
    for event in events {
        write_event(&mut bytes, event);
    }
    let mut reader = ByteReader::new(bytes);
    for event in events {
        assert_eq!(read_event(&mut reader).unwrap(), Some(event));
    }
    assert_eq!(read_event(&mut reader).unwrap(), None);
}

#[test]
fn rejects_bad_magic_version_and_truncation() {
    let mut record = InputEvent::ReleaseAll.encode();
    record[0] = 0;
    InputEvent::decode(&record).unwrap_err();
    record = InputEvent::ReleaseAll.encode();
    record[4] = VERSION + 1;
    InputEvent::decode(&record).unwrap_err();
    read_event(&mut ByteReader::new(record[..5].to_vec())).unwrap_err();
}

#[test]
fn each_faulty_record_has_its_error() {
    let mut record = InputEvent::ReleaseAll.encode();
    record[0] ^= 1;
    assert_eq!(
        InputEvent::decode(&record),
        Err(InputProtocolError::BadMagic)
    );
    record = InputEvent::ReleaseAll.encode();
    record[4] = 9;
    assert_eq!(
        InputEvent::decode(&record),
        Err(InputProtocolError::UnsupportedVersion(9))
    );
    record = InputEvent::ReleaseAll.encode();
    record[6] = 9;
    assert_eq!(
        InputEvent::decode(&record),
        Err(InputProtocolError::PayloadTooLarge)
    );
    record = InputEvent::ReleaseAll.encode();
    record[5] = 77;
    assert_eq!(
        InputEvent::decode(&record),
        Err(InputProtocolError::InvalidRecord {
            kind: 77,
            length: 0
        })
    );
    assert_eq!(
        read_event(&mut ByteReader::new(vec![1, 2, 3])),
        Err(InputProtocolError::Truncated)
    );
}

#[test]
fn a_record_arrives_in_pieces() {
    let event = InputEvent::Key {
        usage: 4,
        pressed: true,
    };
    let record = event.encode();
    let mut reader = RecordReader::new();
    assert_eq!(reader.wanted(), 16);
    assert!(reader
        .step(ReadOutcome::Data(record[..7].to_vec()))
        .is_none());
    assert_eq!(reader.wanted(), 9);
    assert!(reader.step(ReadOutcome::Interrupted).is_none());
    assert_eq!(
        reader.step(ReadOutcome::Data(record[7..].to_vec())),
        Some(Ok(Some(event)))
    );
    let mut reader = RecordReader::new();
    assert_eq!(
        reader.step(ReadOutcome::Failed),
        Some(Err(InputProtocolError::ReadFailed))
    );
    let mut reader = RecordReader::new();
    assert_eq!(reader.step(ReadOutcome::Data(Vec::new())), Some(Ok(None)));
}
