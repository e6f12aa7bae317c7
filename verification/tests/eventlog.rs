use cima_server::error::Error;
use cima_server::eventlog::{
    convert_entry, from_canonical_event, from_imr_event, from_pc_client_event, EventLogEntry,
    TcgCanonicalEvent, TcgImrEvent, TcgPcClientImrEvent,
};
use cima_server::tcg::{
    TcgDigest, TcgEventlog, TPM_ALG_SHA1, TPM_ALG_SHA256, TPM_ALG_SHA384, TPM_ALG_SHA512,
};

fn imr_event() -> TcgImrEvent {
    TcgImrEvent {
        imr_index: 2,
        event_type: 0x14,
        digests: vec![
            TcgDigest { algo_id: TPM_ALG_SHA384, hash: vec![7; 48] },
            TcgDigest { algo_id: TPM_ALG_SHA1, hash: vec![9; 3] },
        ],
        event_size: 4,
        event: b"data".to_vec(),
    }
}

fn pc_client_event(digest: Vec<u8>) -> TcgPcClientImrEvent {
    TcgPcClientImrEvent { imr_index: 0, event_type: 3, digest, event_size: 2, event: b"ev".to_vec() }
}

#[test]
fn digest_list_is_kept_one_for_one() {
    let expected = TcgEventlog {
        rec_num: 0,
        imr_index: 2,
        event_type: 0x14,
        event_size: 4,
        event: b"data".to_vec(),
        digests: imr_event().digests,
        extra_info: Vec::new(),
    };
    assert_eq!(from_imr_event(&imr_event()), expected);
    assert_eq!(convert_entry(&EventLogEntry::TcgImrEvent(imr_event())), Ok(expected));
}

#[test]
fn raw_digest_is_labelled_by_its_length() {
    for (size, algo_id) in [
        (20usize, TPM_ALG_SHA1),
        (32, TPM_ALG_SHA256),
        (48, TPM_ALG_SHA384),
        (64, TPM_ALG_SHA512),
    ] {
        let expected = TcgEventlog {
            rec_num: 0,
            imr_index: 0,
            event_type: 3,
            event_size: 2,
            event: b"ev".to_vec(),
            digests: vec![TcgDigest { algo_id, hash: vec![0xab; size] }],
            extra_info: Vec::new(),
        };
        assert_eq!(from_pc_client_event(&pc_client_event(vec![0xab; size])), Ok(expected.clone()));
        assert_eq!(
            convert_entry(&EventLogEntry::TcgPcClientImrEvent(pc_client_event(vec![0xab; size]))),
            Ok(expected)
        );
    }
}

#[test]
fn raw_digest_of_no_known_length_is_unsupported() {
    for size in [0usize, 16, 19, 21, 47, 65] {
        assert_eq!(
            from_pc_client_event(&pc_client_event(vec![1; size])),
            Err(Error::UnsupportedEntryShape)
        );
    }
}

#[test]
fn canonical_entry_is_unsupported() {
    assert_eq!(from_canonical_event(&TcgCanonicalEvent {}), Err(Error::UnsupportedEntryShape));
    assert_eq!(
        convert_entry(&EventLogEntry::TcgCanonicalEvent(TcgCanonicalEvent {})),
        Err(Error::UnsupportedEntryShape)
    );
}
