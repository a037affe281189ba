use analytic_engine::kv_encoder::{
    Error, LogKeyEncoder, LogValueDecoder, LogValueEncoder, MaxSeqMetaEncoding, MaxSeqMetaValue,
    MetaKey,
};

#[test]
fn log_key_round_trip() {
    let encoder = LogKeyEncoder::newest();
    let key = (0x0102030405060708u64, 42u64);
    let mut buf = Vec::new();
    encoder.encode(&mut buf, &key).unwrap();
    assert_eq!(buf.len(), encoder.estimate_encoded_size(&key));
    // namespace, big-endian region, big-endian sequence, version
    assert_eq!(buf[0], 1);
    assert_eq!(&buf[1..9], &[1, 2, 3, 4, 5, 6, 7, 8]);
    assert_eq!(&buf[9..17], &[0, 0, 0, 0, 0, 0, 0, 42]);
    assert_eq!(buf[17], 0);

    assert!(encoder.is_valid(&buf).unwrap());
    let decoded = encoder.decode(&buf).unwrap();
    assert_eq!(decoded, key);
}

#[test]
fn log_key_decode_errors() {
    let encoder = LogKeyEncoder::newest();
    assert_eq!(encoder.decode(&Vec::new()), Err(Error::UnexpectedEnd));

    let mut wrong_namespace = Vec::new();
    encoder.encode(&mut wrong_namespace, &(1, 1)).unwrap();
    wrong_namespace[0] = 0;
    assert_eq!(
        encoder.decode(&wrong_namespace),
        Err(Error::InvalidNamespace {
            expect: 1,
            given: 0
        })
    );

    let mut wrong_version = Vec::new();
    encoder.encode(&mut wrong_version, &(1, 1)).unwrap();
    wrong_version[17] = 9;
    assert_eq!(
        encoder.decode(&wrong_version),
        Err(Error::InvalidVersion {
            expect: 0,
            given: 9
        })
    );

    let mut short = Vec::new();
    encoder.encode(&mut short, &(1, 1)).unwrap();
    short.truncate(10);
    assert_eq!(encoder.decode(&short), Err(Error::UnexpectedEnd));
}

#[test]
fn log_value_round_trip() {
    let encoder = LogValueEncoder::newest();
    let payload = vec![9u8, 8, 7];
    let mut buf = Vec::new();
    encoder.encode(&mut buf, &payload).unwrap();
    assert_eq!(buf.len(), encoder.estimate_encoded_size(&payload));
    assert_eq!(buf, vec![0, 9, 8, 7]);

    let decoder = LogValueDecoder { version: 0 };
    assert_eq!(decoder.decode(&buf).unwrap(), payload);

    let mut wrong = buf.clone();
    wrong[0] = 5;
    assert_eq!(
        decoder.decode(&wrong),
        Err(Error::InvalidVersion {
            expect: 0,
            given: 5
        })
    );
}

#[test]
fn max_seq_meta_round_trip() {
    let encoding = MaxSeqMetaEncoding::newest();
    let key = MetaKey { region_id: 7 };
    let value = MaxSeqMetaValue { max_seq: 1009 };

    let mut key_buf = Vec::new();
    encoding.encode_key(&mut key_buf, &key).unwrap();
    assert!(encoding.is_max_seq_meta_key(&key_buf).unwrap());
    assert_eq!(encoding.decode_key(&key_buf).unwrap(), key);

    let mut value_buf = Vec::new();
    encoding.encode_value(&mut value_buf, &value).unwrap();
    assert_eq!(encoding.decode_value(&value_buf).unwrap(), value);

    // a log key is not a meta key
    let log = LogKeyEncoder::newest();
    let mut log_buf = Vec::new();
    log.encode(&mut log_buf, &(7, 9)).unwrap();
    assert!(!encoding.is_max_seq_meta_key(&log_buf).unwrap());
}
