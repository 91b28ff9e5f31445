use llcap_server::error::Error;
use llcap_server::sizetype_handlers::ArgSizeTypeRef;
use llcap_server::sizetype_handlers::CustomTypeReader;
use llcap_server::sizetype_handlers::ReadProgress;
use llcap_server::sizetype_handlers::SizeTypeReader;

// various tests checking (among other things) that the readers output
// the correct state when presented with differently chunked data

#[test]
fn cus_r_read_init_not_done() {
    let reader = CustomTypeReader::new();
    assert!(!reader.done());
}
#[test]
fn cus_r_read_zero_size() {
    let mut reader = CustomTypeReader::new();
    let res = reader.read(&(0u8).to_le_bytes());
    assert!(matches!(res, Ok(ReadProgress::NotYet)));
}

fn make_packet(data: &[u8]) -> Vec<u8> {
    let mut res: Vec<u8> = vec![];
    res.append(&mut data.len().to_le_bytes().to_vec());
    res.append(&mut data.to_vec());
    res
}

#[test]
fn cus_r_read_size_less() {
    let mut reader = CustomTypeReader::new();
    let num_data = 123098u32;
    let pkt = make_packet(&num_data.to_le_bytes());
    let (len, _) = pkt.split_at(8);
    let (len_less, _) = len.split_at(4);
    let res = reader.read(len_less);
    assert!(matches!(res, Ok(ReadProgress::NotYet)));
    assert!(matches!(
        reader,
        CustomTypeReader::ReadingTgtSize { idx: _, bytes: _ }
    ));
}

fn assert_reader_finished(
    res: Result<ReadProgress, Error>,
    reader: CustomTypeReader,
    expected_parsed: u32,
    expected_consumed: usize,
) {
    assert!(
        matches!(res, Ok(ReadProgress::Done { payload, consumed_bytes }) if payload.len() == 4 && u32::from_le_bytes([payload[0], payload[1], payload[2], payload[3]]) == expected_parsed && consumed_bytes == expected_consumed)
    );
    assert!(matches!(reader, CustomTypeReader::Finished));
}
#[test]
fn cus_r_read_size_exact_w_data_exact() {
    let mut reader = CustomTypeReader::new();
    let num_data = 123098u32;
    let pkt = make_packet(&num_data.to_le_bytes());
    let (len, data) = pkt.split_at(8);
    let res = reader.read(len);
    assert!(matches!(res, Ok(ReadProgress::NotYet)));

    let res = reader.read(data);
    assert_reader_finished(res, reader, num_data, data.len());
}

#[test]
fn cus_r_read_size_less_exact_w_data_exact() {
    let mut reader = CustomTypeReader::new();
    let num_data = 123098u32;
    let pkt = make_packet(&num_data.to_le_bytes());
    let (len, data) = pkt.split_at(8);
    let (len_less, len_ex) = len.split_at(4);
    let res = reader.read(len_less);
    assert!(matches!(res, Ok(ReadProgress::NotYet)));
    assert!(matches!(
        reader,
        CustomTypeReader::ReadingTgtSize { idx: _, bytes: _ }
    ));

    let res = reader.read(len_ex);
    assert!(matches!(res, Ok(ReadProgress::NotYet)));
    assert!(matches!(
        reader,
        CustomTypeReader::Reading {
            target_size: _,
            payload: _
        }
    ));

    let res = reader.read(data);
    assert_reader_finished(res, reader, num_data, data.len());
}

#[test]
fn cus_r_read_size_exact_w_data_less() {
    let mut reader = CustomTypeReader::new();
    let num_data = 123098u32;
    let pkt = make_packet(&num_data.to_le_bytes());
    let (len, data) = pkt.split_at(8);
    let res = reader.read(len);
    assert!(matches!(res, Ok(ReadProgress::NotYet)));

    let (data_less, _) = data.split_at(1);
    let res = reader.read(data_less);
    assert!(matches!(res, Ok(ReadProgress::NotYet)));
    assert!(matches!(
        reader,
        CustomTypeReader::Reading {
            target_size: _,
            payload: _
        }
    ));
}

#[test]
fn cus_r_read_size_less_exact_w_data_less() {
    let mut reader = CustomTypeReader::new();
    let num_data = 123098u32;
    let pkt = make_packet(&num_data.to_le_bytes());
    let (len, data) = pkt.split_at(8);
    let (len_less, len_ex) = len.split_at(4);
    let res = reader.read(len_less);
    assert!(matches!(res, Ok(ReadProgress::NotYet)));
    assert!(matches!(
        reader,
        CustomTypeReader::ReadingTgtSize { idx: _, bytes: _ }
    ));
    let res = reader.read(len_ex);
    assert!(matches!(res, Ok(ReadProgress::NotYet)));
    assert!(matches!(
        reader,
        CustomTypeReader::Reading {
            target_size: _,
            payload: _
        }
    ));

    let (data_less, _) = data.split_at(1);
    let res = reader.read(data_less);
    assert!(matches!(res, Ok(ReadProgress::NotYet)));
    assert!(matches!(
        reader,
        CustomTypeReader::Reading {
            target_size: _,
            payload: _
        }
    ));
}

#[test]
fn cus_r_read_size_exact_w_data_less_exact() {
    let mut reader = CustomTypeReader::new();
    let num_data = 123098u32;
    let pkt = make_packet(&num_data.to_le_bytes());
    let (len, data) = pkt.split_at(8);
    let _ = reader.read(len);

    let (data_less, data_exact) = data.split_at(1);
    let _ = reader.read(data_less);
    let res = reader.read(data_exact);
    assert_reader_finished(res, reader, num_data, data_exact.len());
}

#[test]
fn cus_r_read_size_less_exact_w_data_less_exact() {
    let mut reader = CustomTypeReader::new();
    let num_data = 123098u32;
    let pkt = make_packet(&num_data.to_le_bytes());
    let (len, data) = pkt.split_at(8);
    let (len_less, len_ex) = len.split_at(4);
    let _ = reader.read(len_less);
    let _ = reader.read(len_ex);

    let (data_less, data_exact) = data.split_at(1);
    let _ = reader.read(data_less);
    let res = reader.read(data_exact);
    assert_reader_finished(res, reader, num_data, data_exact.len());
}

#[test]
fn cus_r_read_payload_exact() {
    let mut reader = CustomTypeReader::new();
    let num_data = 123098u32;
    let pkt = make_packet(&num_data.to_le_bytes());
    let res = reader.read(&pkt);
    assert_reader_finished(res, reader, num_data, pkt.len());
}

#[test]
fn cus_r_read_payload_exact_reset() {
    let mut reader = CustomTypeReader::new();
    let num_data = 123098u32;
    let pkt = make_packet(&num_data.to_le_bytes());
    let _ = reader.read(&pkt);
    assert!(reader.read_reset());
}

#[test]
fn cus_r_read_empty_reset() {
    let mut reader = CustomTypeReader::new();
    assert!(!reader.read_reset());
}

#[test]
fn cus_r_read_after_reset() {
    let mut reader = CustomTypeReader::new();
    let num_data = 123098u32;
    let pkt = make_packet(&num_data.to_le_bytes());
    let _ = reader.read(&pkt);
    reader.read_reset();
    let num_data = 123098u32;
    let pkt = make_packet(&num_data.to_le_bytes());
    let res = reader.read(&pkt);
    assert_reader_finished(res, reader, num_data, pkt.len());
}

#[test]
fn reader_takes_nothing_when_finished() {
    let mut reader = CustomTypeReader::new();
    let _ = reader.read(&make_packet(&[9]));
    assert!(reader.done());
    assert!(matches!(reader.read(&[1, 2, 3]), Ok(ReadProgress::Nop)));
    assert!(reader.done());
}

#[test]
fn reader_leaves_what_follows_the_argument() {
    let mut reader = CustomTypeReader::new();
    let mut bytes = make_packet(&[1, 2, 3]);
    bytes.extend_from_slice(&make_packet(&[4]));
    match reader.read(&bytes) {
        Ok(ReadProgress::Done { payload, consumed_bytes }) => {
            assert_eq!(payload, vec![1, 2, 3]);
            assert_eq!(consumed_bytes, 11);
        },
        _ => panic!("the first argument is complete"),
    }
}

#[test]
fn reader_puts_pieces_together() {
    let pkt = make_packet(&[7, 8, 9, 10]);
    for cut in 0..12 {
        let mut reader = CustomTypeReader::new();
        let (a, b) = pkt.split_at(cut);
        assert!(matches!(reader.read(a), Ok(ReadProgress::NotYet)));
        match reader.read(b) {
            Ok(ReadProgress::Done { payload, consumed_bytes }) => {
                assert_eq!(payload, vec![7, 8, 9, 10]);
                assert_eq!(consumed_bytes, 12 - cut);
            },
            _ => panic!("the second piece completes the argument"),
        }
    }
}

#[test]
fn payload_behind_the_rest_of_the_size_is_kept() {
    let mut reader = CustomTypeReader::new();
    assert!(matches!(reader.read(&[4, 0, 0, 0]), Ok(ReadProgress::NotYet)));
    assert!(matches!(
        reader,
        CustomTypeReader::ReadingTgtSize { idx: 4, bytes: [4, 0, 0, 0, 0, 0, 0, 0] }
    ));
    match reader.read(&[0, 0, 0, 0, 0xDA, 0xE0, 0x01, 0x00]) {
        Ok(ReadProgress::Done { payload, consumed_bytes }) => {
            assert_eq!(payload, vec![0xDA, 0xE0, 0x01, 0x00]);
            assert_eq!(consumed_bytes, 8);
        },
        _ => panic!("the second piece completes the argument"),
    }
    assert!(reader.done());
}

#[test]
fn argument_comes_byte_by_byte() {
    let pkt = make_packet(&[7, 8]);
    let mut reader = CustomTypeReader::new();
    for byte in &pkt[..9] {
        assert!(matches!(reader.read(&[*byte]), Ok(ReadProgress::NotYet)));
    }
    assert!(matches!(
        reader.read(&pkt[9..]),
        Ok(ReadProgress::Done { payload, consumed_bytes: 1 }) if payload == vec![7, 8]
    ));
}

#[test]
fn empty_argument_is_complete_with_its_size() {
    let pkt = make_packet(&[]);
    let mut reader = CustomTypeReader::new();
    assert!(matches!(
        reader.read(&pkt),
        Ok(ReadProgress::Done { payload, consumed_bytes: 8 }) if payload.is_empty()
    ));
    for cut in 1..8 {
        let mut reader = CustomTypeReader::new();
        let (a, b) = pkt.split_at(cut);
        assert!(matches!(reader.read(a), Ok(ReadProgress::NotYet)));
        match reader.read(b) {
            Ok(ReadProgress::Done { payload, consumed_bytes }) => {
                assert!(payload.is_empty());
                assert_eq!(consumed_bytes, 8 - cut);
            },
            _ => panic!("the argument has no bytes"),
        }
    }
}

#[test]
fn size_types_by_number() {
    assert_eq!(ArgSizeTypeRef::try_from(0u16), Ok(ArgSizeTypeRef::Empty));
    assert_eq!(ArgSizeTypeRef::try_from(1u16), Ok(ArgSizeTypeRef::Custom));
    assert_eq!(ArgSizeTypeRef::try_from(1027u16), Ok(ArgSizeTypeRef::Custom));
    assert_eq!(ArgSizeTypeRef::try_from(1028u16), Err(Error::UnsupportedArgSizeType(1028)));
}
