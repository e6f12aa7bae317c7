use cima_server::container::Container;
use cima_server::error::Error;
use cima_server::registry::Registry;
use cima_server::tcg::{
    duplicate_log, TcgDigest, TcgEventlog, IMA_MEASUREMENT_EVENT, TPM_ALG_SHA1, TPM_ALG_SHA256,
    TPM_ALG_SHA384, TPM_ALG_SHA512,
};

fn hex(text: &str) -> Vec<u8> {
    let digits: Vec<u8> = text
        .bytes()
        .map(|b| match b {
            b'0'..=b'9' => b - b'0',
            b'a'..=b'f' => b - b'a' + 10,
            _ => panic!("not a hexadecimal digit"),
        })
        .collect();
    digits.chunks(2).map(|pair| pair[0] * 16 + pair[1]).collect()
}

fn event(digests: Vec<TcgDigest>) -> TcgEventlog {
    TcgEventlog {
        rec_num: 7,
        imr_index: 1,
        event_type: IMA_MEASUREMENT_EVENT,
        event_size: 5,
        event: b"event".to_vec(),
        digests,
        extra_info: vec![("key".to_string(), "value".to_string())],
    }
}

fn sha384(byte: u8) -> TcgDigest {
    TcgDigest { algo_id: TPM_ALG_SHA384, hash: vec![byte; 48] }
}

fn baseline() -> TcgDigest {
    TcgDigest {
        algo_id: TPM_ALG_SHA384,
        hash: hex("663d920714afa8619c75ac89ccac7c51798125b8b024fe3ccce0005a5f42cedf4608d6ffa85b788baba611c08e0f40ab"),
    }
}

#[test]
fn new_container_holds_what_it_was_given() {
    let log = vec![event(vec![sha384(1)])];
    let container = Container::new(baseline(), log.clone());
    assert_eq!(container.imr(), &baseline());
    assert_eq!(container.event_logs(), &log);
}

#[test]
fn extend_folds_the_digest_in_as_it_stands() {
    let mut container = Container::new(baseline(), Vec::new());
    assert_eq!(container.extend_imr(3, event(vec![sha384(0x11)])), Ok(()));
    assert_eq!(
        container.imr().hash,
        hex("f9960f4ae4cbac90eb895a7c2aa8f2f8f5dffff16070a140c422415784f89fb007f681c9710e14111c12fe092daa9196")
    );
    assert_eq!(container.imr().algo_id, TPM_ALG_SHA384);
    let mut from_zero =
        Container::new(TcgDigest { algo_id: TPM_ALG_SHA384, hash: vec![0; 48] }, Vec::new());
    assert_eq!(from_zero.extend_imr(3, event(vec![sha384(0x11)])), Ok(()));
    assert_eq!(
        from_zero.imr().hash,
        hex("c7304e0aec48bbbc703c099b425485b7a60e19b6a83630b0fb558ce2f02ec41e4cdf205335b4b613b3537ad83eb62262")
    );
}

#[test]
fn extend_files_the_event_under_the_given_register() {
    let seeded = vec![event(vec![])];
    let mut container = Container::new(baseline(), seeded.clone());
    let incoming = event(vec![sha384(0x11)]);
    assert_eq!(container.extend_imr(3, incoming.clone()), Ok(()));
    let log = container.event_logs();
    assert_eq!(log.len(), 2);
    assert_eq!(log[0], seeded[0]);
    assert_eq!(log[1], TcgEventlog { imr_index: 3, ..incoming });
}

#[test]
fn extend_takes_the_digests_of_one_event_in_order() {
    let mut both = Container::new(baseline(), Vec::new());
    assert_eq!(both.extend_imr(3, event(vec![sha384(0x11), sha384(0x22)])), Ok(()));
    assert_eq!(
        both.imr().hash,
        hex("609af93979fca34f713509972c027a631e19d85d13e910229cc1f0ddc066f2f20e02daec57ee02bc0e4bfb332be62184")
    );
    let mut one_by_one = Container::new(baseline(), Vec::new());
    one_by_one.extend_imr(3, event(vec![sha384(0x11)])).unwrap();
    one_by_one.extend_imr(3, event(vec![sha384(0x22)])).unwrap();
    assert_eq!(one_by_one.imr(), both.imr());
}

#[test]
fn replay_order_matters_and_replay_is_deterministic() {
    let first = event(vec![sha384(0x11)]);
    let second = event(vec![sha384(0x22)]);
    let mut forward = Container::new(baseline(), Vec::new());
    forward.extend_imr(3, first.clone()).unwrap();
    forward.extend_imr(3, second.clone()).unwrap();
    let mut backward = Container::new(baseline(), Vec::new());
    backward.extend_imr(3, second.clone()).unwrap();
    backward.extend_imr(3, first.clone()).unwrap();
    let mut again = Container::new(baseline(), Vec::new());
    again.extend_imr(3, first).unwrap();
    again.extend_imr(3, second).unwrap();
    assert_ne!(forward.imr(), backward.imr());
    assert_eq!(forward.imr(), again.imr());
    assert_eq!(
        backward.imr().hash,
        hex("a1a56d980515e1c8ee94f9cd17278b05ffd8ce07655e2faf05ed53cccd2e665f39e637e1a50a33aa309d4a65db71535a")
    );
}

#[test]
fn event_without_digests_is_logged_and_leaves_the_register() {
    let mut container = Container::new(baseline(), Vec::new());
    assert_eq!(container.extend_imr(3, event(vec![])), Ok(()));
    assert_eq!(container.imr(), &baseline());
    assert_eq!(container.event_logs().len(), 1);
}

#[test]
fn digest_of_another_length_is_a_mismatch_and_changes_nothing() {
    let mut container = Container::new(baseline(), Vec::new());
    let short = TcgDigest { algo_id: TPM_ALG_SHA1, hash: vec![1; 20] };
    assert_eq!(container.extend_imr(3, event(vec![short.clone()])), Err(Error::AlgorithmMismatch));
    assert_eq!(
        container.extend_imr(3, event(vec![sha384(0x11), short])),
        Err(Error::AlgorithmMismatch)
    );
    assert_eq!(container.imr(), &baseline());
    assert!(container.event_logs().is_empty());
}

#[test]
fn register_that_is_not_well_formed_is_a_mismatch() {
    let mut odd = Container::new(TcgDigest { algo_id: TPM_ALG_SHA384, hash: vec![0; 20] }, Vec::new());
    let digest = TcgDigest { algo_id: TPM_ALG_SHA1, hash: vec![1; 20] };
    assert_eq!(odd.extend_imr(3, event(vec![digest.clone()])), Err(Error::AlgorithmMismatch));
    let mut unknown = Container::new(TcgDigest { algo_id: 0x99, hash: vec![0; 20] }, Vec::new());
    assert_eq!(unknown.extend_imr(3, event(vec![digest])), Err(Error::AlgorithmMismatch));
    assert_eq!(unknown.extend_imr(3, event(vec![])), Err(Error::AlgorithmMismatch));
}

#[test]
fn register_keeps_the_length_of_its_algorithm() {
    for (algo_id, size) in [
        (TPM_ALG_SHA1, 20usize),
        (TPM_ALG_SHA256, 32),
        (TPM_ALG_SHA384, 48),
        (TPM_ALG_SHA512, 64),
    ] {
        let mut container = Container::new(TcgDigest { algo_id, hash: vec![0; size] }, Vec::new());
        for byte in [1u8, 2, 3] {
            let digest = TcgDigest { algo_id, hash: vec![byte; size] };
            assert_eq!(container.extend_imr(3, event(vec![digest])), Ok(()));
            assert_eq!(container.imr().hash.len(), size);
            assert_eq!(container.imr().algo_id, algo_id);
        }
    }
}

#[test]
fn the_algorithm_is_that_of_the_register_whatever_the_digest_says() {
    let mut container = Container::new(baseline(), Vec::new());
    let mislabelled = TcgDigest { algo_id: TPM_ALG_SHA1, hash: vec![0x11; 48] };
    assert_eq!(container.extend_imr(3, event(vec![mislabelled])), Ok(()));
    assert_eq!(
        container.imr().hash,
        hex("f9960f4ae4cbac90eb895a7c2aa8f2f8f5dffff16070a140c422415784f89fb007f681c9710e14111c12fe092daa9196")
    );
}

#[test]
fn registry_keeps_each_container_under_its_identity() {
    let mut registry = Registry::new();
    assert_eq!(registry.len(), 0);
    assert!(!registry.contains_key("a"));
    assert!(registry.get("a").is_none());
    registry.insert("a".to_string(), Container::new(baseline(), Vec::new()));
    registry.insert("b".to_string(), Container::new(sha384(9), Vec::new()));
    assert_eq!(registry.len(), 2);
    assert!(registry.contains_key("a"));
    assert!(registry.contains_key("b"));
    assert!(!registry.contains_key("c"));
    assert_eq!(registry.get("a").unwrap().imr(), &baseline());
    assert_eq!(registry.get("b").unwrap().imr(), &sha384(9));
}

#[test]
fn registry_extends_one_container_and_leaves_the_others() {
    let mut registry = Registry::new();
    registry.insert("a".to_string(), Container::new(baseline(), Vec::new()));
    registry.insert("b".to_string(), Container::new(baseline(), Vec::new()));
    assert_eq!(registry.extend("b", 3, event(vec![sha384(0x11)])), Ok(()));
    assert_eq!(registry.get("a").unwrap().imr(), &baseline());
    assert_eq!(
        registry.get("b").unwrap().imr().hash,
        hex("f9960f4ae4cbac90eb895a7c2aa8f2f8f5dffff16070a140c422415784f89fb007f681c9710e14111c12fe092daa9196")
    );
    assert_eq!(registry.get("b").unwrap().event_logs().len(), 1);
    assert_eq!(registry.extend("c", 3, event(vec![])), Err(Error::NotFound));
    let wrong = TcgDigest { algo_id: TPM_ALG_SHA256, hash: vec![0; 32] };
    assert_eq!(registry.extend("a", 3, event(vec![wrong])), Err(Error::AlgorithmMismatch));
    assert_eq!(registry.len(), 2);
}

#[test]
fn copies_hold_the_same_values() {
    let log = vec![event(vec![sha384(1), sha384(2)]), event(vec![])];
    assert_eq!(duplicate_log(&log), log);
    assert_eq!(log[0].duplicate(), log[0]);
    assert_eq!(sha384(5).duplicate(), sha384(5));
    assert!(sha384(5).is_well_formed());
    assert!(!TcgDigest { algo_id: TPM_ALG_SHA512, hash: vec![0; 48] }.is_well_formed());
    assert!(!TcgDigest { algo_id: 0, hash: Vec::new() }.is_well_formed());
}
