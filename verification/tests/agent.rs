use cima_server::agent::{take_window, Agent, MeasurementAnswer, ReportRequest, IMR};
use cima_server::error::Error;
use cima_server::eventlog::{EventLogEntry, TcgCanonicalEvent, TcgImrEvent, TcgPcClientImrEvent};
use cima_server::nonce::decode;
use cima_server::policy::{ContainerPolicy, MeasurePolicy, PolicyConfig, SystemPolicy};
use cima_server::tcg::{TcgDigest, TcgEventlog, IMA_MEASUREMENT_EVENT, TPM_ALG_SHA1, TPM_ALG_SHA384};

const DOCKER_A: &str = "aaaaaaaaaaaaaaaaaaaaaaaaaaaaaaaaaaaaaaaaaaaaaaaaaaaaaaaaaaaaaaaa";
const DOCKER_B: &str = "bbbbbbbbbbbbbbbbbbbbbbbbbbbbbbbbbbbbbbbbbbbbbbbbbbbbbbbbbbbbbbbb";
const POD: &str = "1a2b3c4d_5e6f_7890_abcd_ef0123456789";

fn hex(text: &str) -> Vec<u8> {
    let digits: Vec<u8> = text
        .bytes()
        .map(|b| match b {
            b'0'..=b'9' => b - b'0',
            b'a'..=b'f' => b - b'a' + 10,
            _ => panic!("not a hexadecimal digit"),
        })
        .collect();
    digits.chunks(2).map(|pair| pair[0] * 16 + pair[1]).collect()
}

fn policy(isolated: Option<bool>, processes: Option<Vec<&str>>) -> PolicyConfig {
    PolicyConfig {
        backend: None,
        hash_algorithm: Some("sha384".to_string()),
        measure: Some(MeasurePolicy {
            system: Some(SystemPolicy {
                with_parameter: Some(false),
                processes: processes.map(|list| list.iter().map(|p| p.to_string()).collect()),
            }),
            kubernetes: None,
            container: Some(ContainerPolicy { with_parameter: None, isolated }),
        }),
    }
}

fn running() -> Vec<(Vec<u8>, Vec<u8>)> {
    vec![(b"containerd".to_vec(), b"--config".to_vec())]
}

fn docker_path(id: &str) -> String {
    format!("/system.slice/docker-{}.scope", id)
}

fn pod_path() -> String {
    format!(
        "/kubepods.slice/kubepods-burstable.slice/kubepods-burstable-pod1a2b3c4d-5e6f-7890-abcd-ef0123456789.slice/crio-{}.scope",
        DOCKER_A
    )
}

fn ima_entry(path: &str, payload: &str, byte: u8) -> EventLogEntry {
    let event = format!("1234 5678 {} {}", path, payload).into_bytes();
    EventLogEntry::TcgImrEvent(TcgImrEvent {
        imr_index: IMR::SYSTEM.index(),
        event_type: IMA_MEASUREMENT_EVENT,
        digests: vec![TcgDigest { algo_id: TPM_ALG_SHA384, hash: vec![byte; 48] }],
        event_size: event.len() as u32,
        event,
    })
}

fn plain_entry(imr: IMR, byte: u8) -> EventLogEntry {
    EventLogEntry::TcgImrEvent(TcgImrEvent {
        imr_index: imr.index(),
        event_type: 0x3,
        digests: vec![TcgDigest { algo_id: TPM_ALG_SHA384, hash: vec![byte; 48] }],
        event_size: 1,
        event: vec![byte],
    })
}

fn isolated_agent(entries: &Vec<EventLogEntry>) -> Agent {
    let mut agent = Agent::new();
    assert_eq!(agent.init(policy(Some(true), Some(vec!["containerd"])), &running(), entries), Ok(()));
    agent
}

fn open_agent(entries: &Vec<EventLogEntry>) -> Agent {
    let mut agent = Agent::new();
    assert_eq!(agent.init(policy(None, Some(vec!["containerd"])), &running(), entries), Ok(()));
    agent
}

fn mixed_log() -> Vec<EventLogEntry> {
    vec![
        plain_entry(IMR::FIRMWARE, 1),
        plain_entry(IMR::KERNEL, 2),
        plain_entry(IMR::SYSTEM, 3),
        ima_entry(&docker_path(DOCKER_A), "sha256:aa", 0x11),
        ima_entry(&docker_path(DOCKER_B), "sha256:bb", 0x22),
        plain_entry(IMR::KERNEL, 4),
        ima_entry(&docker_path(DOCKER_A), "sha256:cc", 0x33),
    ]
}

#[test]
fn register_numbers() {
    assert_eq!(IMR::FIRMWARE.index(), 0);
    assert_eq!(IMR::KERNEL.index(), 1);
    assert_eq!(IMR::SYSTEM.index(), 2);
    assert_eq!(IMR::CONTAINER.index(), 3);
    assert_eq!(IMR::from_index(2), Some(IMR::SYSTEM));
    assert_eq!(IMR::from_index(4), None);
}

#[test]
fn new_agent_is_empty_and_not_initialized() {
    let mut agent = Agent::new();
    assert!(agent.measurement().is_none());
    assert_eq!(agent.container_count(), 0);
    assert!(agent.event_logs().is_empty());
    assert_eq!(agent.next_start(), 0);
    assert_eq!(agent.get_cc_measurement("x".to_string(), 3, 12), Err(Error::NotInitialized));
    assert_eq!(
        agent.get_cc_eventlog(&Vec::new(), "x".to_string(), None, None),
        Err(Error::NotInitialized)
    );
    assert_eq!(
        agent.get_cc_report(&Vec::new(), "x".to_string(), None, None),
        Err(Error::NotInitialized)
    );
}

#[test]
fn init_refuses_an_unknown_algorithm() {
    let mut agent = Agent::new();
    let mut document = policy(Some(true), None);
    document.hash_algorithm = Some("md5".to_string());
    assert_eq!(agent.init(document, &running(), &mixed_log()), Err(Error::ConfigError));
    assert!(agent.measurement().is_none());
    assert!(agent.event_logs().is_empty());
}

#[test]
fn initialize_measure_and_attribute_end_to_end() {
    let agent = isolated_agent(&vec![
        ima_entry(&docker_path(DOCKER_A), "sha256:aa", 0x11),
        ima_entry(&docker_path(DOCKER_B), "sha256:bb", 0x22),
    ]);
    let baseline = agent.measurement().unwrap().imr().clone();
    assert_eq!(
        baseline.hash,
        hex("663d920714afa8619c75ac89ccac7c51798125b8b024fe3ccce0005a5f42cedf4608d6ffa85b788baba611c08e0f40ab")
    );
    assert_ne!(baseline.hash, vec![0u8; 48]);
    assert_eq!(agent.container_count(), 2);
    let first = agent.container(DOCKER_A).unwrap();
    let second = agent.container(DOCKER_B).unwrap();
    assert_eq!(
        first.imr().hash,
        hex("f9960f4ae4cbac90eb895a7c2aa8f2f8f5dffff16070a140c422415784f89fb007f681c9710e14111c12fe092daa9196")
    );
    assert_eq!(
        second.imr().hash,
        hex("675ecdad7f25e00f542770216b076b139b615b1776b55e1f11d0c41a56818ba85b3d8f0219acf29b78b6650f7ea11e7e")
    );
    assert_ne!(first.imr(), &baseline);
    assert_ne!(first.imr(), second.imr());
    assert_eq!(first.event_logs().len(), 2);
    assert_eq!(first.event_logs()[0], agent.measurement().unwrap().event_logs()[0]);
    assert_eq!(first.event_logs()[1].imr_index, IMR::CONTAINER.index());
    assert_eq!(agent.event_logs().len(), 2);
    assert_eq!(agent.event_logs()[0].imr_index, IMR::SYSTEM.index());
}

#[test]
fn initialization_is_deterministic() {
    let one = isolated_agent(&mixed_log());
    let other = isolated_agent(&mixed_log());
    assert_eq!(one.measurement().unwrap().imr(), other.measurement().unwrap().imr());
    assert_eq!(one.container(DOCKER_A).unwrap().imr(), other.container(DOCKER_A).unwrap().imr());
    assert_eq!(one.event_logs(), other.event_logs());
}

#[test]
fn later_events_extend_the_container_that_exists() {
    let agent = isolated_agent(&mixed_log());
    assert_eq!(agent.container_count(), 2);
    let first = agent.container(DOCKER_A).unwrap();
    assert_eq!(first.event_logs().len(), 3);
    let after_one =
        hex("f9960f4ae4cbac90eb895a7c2aa8f2f8f5dffff16070a140c422415784f89fb007f681c9710e14111c12fe092daa9196");
    let expected =
        cima_server::hash::extend_register(cima_server::hash::HashAlgorithm::Sha384, &after_one, &vec![0x33; 48])
            .unwrap();
    assert_eq!(first.imr().hash, expected);
    assert_eq!(agent.container(DOCKER_B).unwrap().event_logs().len(), 2);
}

#[test]
fn kubernetes_record_creates_a_container_under_the_pod_uuid() {
    let agent = isolated_agent(&vec![ima_entry(&pod_path(), "sha256:aa", 0x11)]);
    assert_eq!(agent.container_count(), 1);
    assert!(agent.container(POD).is_some());
    assert!(agent.container(DOCKER_A).is_none());
}

#[test]
fn records_that_name_no_container_are_only_logged() {
    let three_fields = EventLogEntry::TcgImrEvent(TcgImrEvent {
        imr_index: 2,
        event_type: IMA_MEASUREMENT_EVENT,
        digests: vec![TcgDigest { algo_id: TPM_ALG_SHA1, hash: vec![1; 20] }],
        event_size: 0,
        event: format!("1 {} hash", docker_path(DOCKER_A)).into_bytes(),
    });
    let five_fields = ima_entry(&docker_path(DOCKER_A), "hash extra", 1);
    let host_service = ima_entry("/system.slice/sshd.service", "hash", 1);
    let path_in_another_field = EventLogEntry::TcgImrEvent(TcgImrEvent {
        imr_index: 2,
        event_type: IMA_MEASUREMENT_EVENT,
        digests: Vec::new(),
        event_size: 0,
        event: format!("1 {} /user.slice hash", docker_path(DOCKER_A)).into_bytes(),
    });
    let not_ima = EventLogEntry::TcgImrEvent(TcgImrEvent {
        imr_index: 2,
        event_type: 0x3,
        digests: vec![TcgDigest { algo_id: TPM_ALG_SHA1, hash: vec![1; 20] }],
        event_size: 0,
        event: format!("1 2 {} hash", docker_path(DOCKER_A)).into_bytes(),
    });
    let entries = vec![three_fields, five_fields, host_service, path_in_another_field, not_ima];
    let agent = isolated_agent(&entries);
    assert_eq!(agent.container_count(), 0);
    assert_eq!(agent.event_logs().len(), 5);
}

#[test]
fn refetch_without_backlog_changes_nothing() {
    let mut agent = isolated_agent(&mixed_log());
    let log = agent.event_logs().clone();
    let register = agent.container(DOCKER_A).unwrap().imr().clone();
    assert_eq!(agent.next_start(), 7);
    assert_eq!(agent.fetch_all_event_logs(&Vec::new()), Ok(()));
    assert_eq!(agent.fetch_all_event_logs(&Vec::new()), Ok(()));
    assert_eq!(agent.next_start(), 7);
    assert_eq!(agent.event_logs(), &log);
    assert_eq!(agent.container(DOCKER_A).unwrap().imr(), &register);
    assert_eq!(agent.container_count(), 2);
}

#[test]
fn fetch_appends_in_order_and_moves_the_cursor() {
    let mut agent = open_agent(&Vec::new());
    assert_eq!(agent.next_start(), 0);
    assert_eq!(agent.fetch_all_event_logs(&mixed_log()[..3].to_vec()), Ok(()));
    assert_eq!(agent.next_start(), 3);
    assert_eq!(agent.fetch_all_event_logs(&mixed_log()[3..].to_vec()), Ok(()));
    assert_eq!(agent.next_start(), 7);
    let whole = open_agent(&mixed_log());
    assert_eq!(agent.event_logs(), whole.event_logs());
    assert_eq!(agent.container(DOCKER_A).unwrap().imr(), whole.container(DOCKER_A).unwrap().imr());
}

#[test]
fn raw_digest_entries_are_accepted() {
    let mut agent = open_agent(&Vec::new());
    let entry = EventLogEntry::TcgPcClientImrEvent(TcgPcClientImrEvent {
        imr_index: 0,
        event_type: 0x3,
        digest: vec![5; 20],
        event_size: 2,
        event: b"ev".to_vec(),
    });
    assert_eq!(agent.fetch_all_event_logs(&vec![entry]), Ok(()));
    assert_eq!(
        agent.event_logs()[0].digests,
        vec![TcgDigest { algo_id: TPM_ALG_SHA1, hash: vec![5; 20] }]
    );
}

#[test]
fn canonical_entry_stops_the_fetch_where_it_stands() {
    let mut agent = open_agent(&Vec::new());
    let entries = vec![
        plain_entry(IMR::FIRMWARE, 1),
        EventLogEntry::TcgCanonicalEvent(TcgCanonicalEvent {}),
        plain_entry(IMR::KERNEL, 2),
    ];
    assert_eq!(agent.fetch_all_event_logs(&entries), Err(Error::UnsupportedEntryShape));
    assert_eq!(agent.event_logs().len(), 1);
    assert_eq!(agent.next_start(), 1);
}

#[test]
fn failures_of_attribution_stop_the_fetch() {
    let mut agent = open_agent(&Vec::new());
    let no_id = ima_entry("/kubepods.slice/kubepods-burstable.slice", "hash", 1);
    assert_eq!(agent.fetch_all_event_logs(&vec![no_id]), Err(Error::ParseError));
    let not_text = EventLogEntry::TcgImrEvent(TcgImrEvent {
        imr_index: 2,
        event_type: IMA_MEASUREMENT_EVENT,
        digests: Vec::new(),
        event_size: 2,
        event: vec![0xff, 0xfe],
    });
    assert_eq!(agent.fetch_all_event_logs(&vec![not_text]), Err(Error::InvalidEncoding));
    let wrong_length = EventLogEntry::TcgImrEvent(TcgImrEvent {
        imr_index: 2,
        event_type: IMA_MEASUREMENT_EVENT,
        digests: vec![TcgDigest { algo_id: TPM_ALG_SHA1, hash: vec![1; 20] }],
        event_size: 0,
        event: format!("1 2 {} hash", docker_path(DOCKER_A)).into_bytes(),
    });
    assert_eq!(agent.fetch_all_event_logs(&vec![wrong_length]), Err(Error::AlgorithmMismatch));
    assert!(agent.event_logs().is_empty());
    assert_eq!(agent.container_count(), 0);
}

#[test]
fn attribution_needs_a_baseline() {
    let mut agent = Agent::new();
    let entry = ima_entry(&docker_path(DOCKER_A), "hash", 1);
    assert_eq!(agent.fetch_all_event_logs(&vec![entry]), Err(Error::NotInitialized));
    assert_eq!(agent.fetch_all_event_logs(&vec![plain_entry(IMR::KERNEL, 1)]), Ok(()));
    assert_eq!(agent.event_logs().len(), 1);
}

#[test]
fn filter_container_routes_one_event() {
    let mut agent = isolated_agent(&Vec::new());
    let event = TcgEventlog {
        rec_num: 0,
        imr_index: 2,
        event_type: IMA_MEASUREMENT_EVENT,
        event_size: 0,
        event: format!("1 2 {} hash", docker_path(DOCKER_A)).into_bytes(),
        digests: vec![TcgDigest { algo_id: TPM_ALG_SHA384, hash: vec![0x11; 48] }],
        extra_info: Vec::new(),
    };
    assert_eq!(agent.filter_container(&event), Ok(()));
    assert_eq!(agent.container_count(), 1);
    assert!(agent.event_logs().is_empty());
    assert_eq!(
        agent.container(DOCKER_A).unwrap().imr().hash,
        hex("f9960f4ae4cbac90eb895a7c2aa8f2f8f5dffff16070a140c422415784f89fb007f681c9710e14111c12fe092daa9196")
    );
}

#[test]
fn isolated_container_sees_platform_entries_and_its_own() {
    let mut agent = isolated_agent(&mixed_log());
    let visible = agent.get_cc_eventlog(&Vec::new(), DOCKER_A.to_string(), None, None).unwrap();
    let indices: Vec<u32> = visible.iter().map(|e| e.imr_index).collect();
    assert_eq!(indices, vec![0, 1, 1, 3, 3, 3]);
    assert_eq!(visible[0].event, vec![1]);
    assert_eq!(visible[1].event, vec![2]);
    assert_eq!(visible[2].event, vec![4]);
    assert_eq!(visible[3].event, b"containerd".to_vec());
    assert!(visible[4].event.ends_with(b"sha256:aa"));
    assert!(visible[5].event.ends_with(b"sha256:cc"));
    assert!(visible.iter().all(|e| e.imr_index != IMR::SYSTEM.index()));
    assert!(visible.iter().all(|e| !e.event.ends_with(b"sha256:bb")));
    assert_eq!(agent.visible_event_logs(DOCKER_A), Ok(visible));
}

#[test]
fn unknown_container_is_not_found_under_isolation() {
    let mut agent = isolated_agent(&mixed_log());
    assert_eq!(
        agent.get_cc_eventlog(&Vec::new(), "".to_string(), Some(0), Some(1)),
        Err(Error::NotFound)
    );
    assert_eq!(
        agent.get_cc_eventlog(&Vec::new(), "unknown".to_string(), None, None),
        Err(Error::NotFound)
    );
    assert_eq!(
        agent.get_cc_report(&Vec::new(), "".to_string(), Some("bm9uY2U=".to_string()), None),
        Err(Error::NotFound)
    );
    assert_eq!(agent.get_cc_measurement("".to_string(), 3, 12), Err(Error::NotFound));
}

#[test]
fn without_isolation_the_whole_log_is_visible() {
    let mut agent = open_agent(&mixed_log());
    let visible = agent.get_cc_eventlog(&Vec::new(), "unknown".to_string(), None, None).unwrap();
    assert_eq!(&visible, agent.event_logs());
    assert_eq!(visible.len(), 7);
    let first = agent.get_cc_eventlog(&Vec::new(), "".to_string(), Some(0), Some(1)).unwrap();
    assert_eq!(first.len(), 1);
    let three = agent.get_cc_eventlog(&Vec::new(), "".to_string(), Some(0), Some(3)).unwrap();
    assert_eq!(three.len(), 3);
    assert_eq!(three, visible[0..3].to_vec());
}

#[test]
fn get_event_log_takes_in_what_was_fetched_first() {
    let mut agent = open_agent(&mixed_log()[..2].to_vec());
    let fetched = mixed_log()[2..].to_vec();
    let visible = agent.get_cc_eventlog(&fetched, "".to_string(), Some(1), None).unwrap();
    assert_eq!(visible.len(), 6);
    assert_eq!(agent.next_start(), 7);
    let stuck = vec![EventLogEntry::TcgCanonicalEvent(TcgCanonicalEvent {})];
    let still = agent.get_cc_eventlog(&stuck, "".to_string(), None, None).unwrap();
    assert_eq!(still.len(), 7);
}

#[test]
fn window_edges() {
    let mut agent = open_agent(&mixed_log());
    let whole = agent.event_logs().clone();
    let none: Vec<EventLogEntry> = Vec::new();
    assert_eq!(agent.get_cc_eventlog(&none, "".to_string(), Some(7), None), Ok(Vec::new()));
    assert_eq!(agent.get_cc_eventlog(&none, "".to_string(), Some(7), Some(5)), Ok(Vec::new()));
    assert_eq!(agent.get_cc_eventlog(&none, "".to_string(), Some(7), Some(0)), Ok(Vec::new()));
    assert_eq!(
        agent.get_cc_eventlog(&none, "".to_string(), Some(8), None),
        Err(Error::InvalidRange)
    );
    assert_eq!(
        agent.get_cc_eventlog(&none, "".to_string(), Some(8), Some(1)),
        Err(Error::InvalidRange)
    );
    assert_eq!(
        agent.get_cc_eventlog(&none, "".to_string(), Some(u32::MAX), Some(u32::MAX)),
        Err(Error::InvalidRange)
    );
    assert_eq!(
        agent.get_cc_eventlog(&none, "".to_string(), Some(0), Some(0)),
        Err(Error::InvalidRange)
    );
    assert_eq!(
        agent.get_cc_eventlog(&none, "".to_string(), None, Some(0)),
        Err(Error::InvalidRange)
    );
    assert_eq!(
        agent.get_cc_eventlog(&none, "".to_string(), Some(5), Some(10)),
        Ok(whole[5..].to_vec())
    );
    assert_eq!(
        agent.get_cc_eventlog(&none, "".to_string(), Some(6), Some(u32::MAX)),
        Ok(whole[6..].to_vec())
    );
    assert_eq!(
        agent.get_cc_eventlog(&none, "".to_string(), Some(2), Some(3)),
        Ok(whole[2..5].to_vec())
    );
    assert_eq!(
        agent.get_cc_eventlog(&none, "".to_string(), Some(2), Some(5)),
        Ok(whole[2..7].to_vec())
    );
    assert_eq!(agent.get_cc_eventlog(&none, "".to_string(), None, Some(2)), Ok(whole[..2].to_vec()));
    assert_eq!(agent.get_cc_eventlog(&none, "".to_string(), Some(3), None), Ok(whole[3..].to_vec()));
}

#[test]
fn window_over_an_empty_log() {
    let empty: Vec<TcgEventlog> = Vec::new();
    assert_eq!(take_window(&empty, None, None), Ok(Vec::new()));
    assert_eq!(take_window(&empty, Some(0), None), Ok(Vec::new()));
    assert_eq!(take_window(&empty, Some(0), Some(0)), Ok(Vec::new()));
    assert_eq!(take_window(&empty, None, Some(3)), Ok(Vec::new()));
    assert_eq!(take_window(&empty, None, Some(0)), Err(Error::InvalidRange));
    assert_eq!(take_window(&empty, Some(1), None), Err(Error::InvalidRange));
}

#[test]
fn isolated_measurement_requests() {
    let agent = isolated_agent(&mixed_log());
    for algo_id in [0u32, 4, 11, 12, 13, 99] {
        assert_eq!(
            agent.get_cc_measurement(DOCKER_A.to_string(), IMR::SYSTEM.index(), algo_id),
            Err(Error::AccessDenied)
        );
        assert_eq!(
            agent.get_cc_measurement("unknown".to_string(), IMR::SYSTEM.index(), algo_id),
            Err(Error::AccessDenied)
        );
        assert_eq!(
            agent.get_cc_measurement(DOCKER_A.to_string(), IMR::CONTAINER.index(), algo_id),
            Ok(MeasurementAnswer::Register(agent.container(DOCKER_A).unwrap().imr().clone()))
        );
    }
    assert_eq!(
        agent.get_cc_measurement(DOCKER_B.to_string(), 3, 12),
        Ok(MeasurementAnswer::Register(agent.container(DOCKER_B).unwrap().imr().clone()))
    );
    assert_eq!(
        agent.get_cc_measurement(DOCKER_A.to_string(), IMR::FIRMWARE.index(), 12),
        Ok(MeasurementAnswer::Upstream { index: 0, algo_id: 12 })
    );
    assert_eq!(
        agent.get_cc_measurement(DOCKER_A.to_string(), IMR::KERNEL.index(), 12),
        Ok(MeasurementAnswer::Upstream { index: 1, algo_id: 12 })
    );
    assert_eq!(
        agent.get_cc_measurement(DOCKER_A.to_string(), 9, 12),
        Ok(MeasurementAnswer::Upstream { index: 9, algo_id: 12 })
    );
}

#[test]
fn measurement_requests_without_isolation_go_upstream() {
    let agent = open_agent(&mixed_log());
    for index in [0u32, 1, 2, 3, 4] {
        assert_eq!(
            agent.get_cc_measurement(DOCKER_A.to_string(), index, 12),
            Ok(MeasurementAnswer::Upstream { index, algo_id: 12 })
        );
    }
    assert_eq!(
        agent.get_cc_measurement("unknown".to_string(), 3, 4),
        Ok(MeasurementAnswer::Upstream { index: 3, algo_id: 4 })
    );
}

#[test]
fn report_nonce_is_bound_to_the_register_under_isolation() {
    let mut agent = isolated_agent(&vec![ima_entry(&docker_path(DOCKER_A), "sha256:aa", 0x11)]);
    let request = agent
        .get_cc_report(
            &Vec::new(),
            DOCKER_A.to_string(),
            Some("bm9uY2UtYnl0ZXM=".to_string()),
            Some("dXNlcg==".to_string()),
        )
        .unwrap();
    assert_eq!(
        request,
        ReportRequest {
            nonce: Some(
                "+ZYPSuTLrJDriVp8Kqjy+PXf//FgcKFAxCJBV4T4n7AH9oHJcQ4UERwS/gktqpGWbm9uY2UtYnl0ZXM="
                    .to_string()
            ),
            user_data: Some("dXNlcg==".to_string()),
        }
    );
    let register = agent.container(DOCKER_A).unwrap().imr().hash.clone();
    assert_eq!(
        decode(request.nonce.as_ref().unwrap()),
        Some([register, b"nonce-bytes".to_vec()].concat())
    );
}

#[test]
fn report_under_isolation_without_or_with_a_bad_nonce() {
    let mut agent = isolated_agent(&mixed_log());
    assert_eq!(
        agent.get_cc_report(&Vec::new(), DOCKER_A.to_string(), None, Some("dXNlcg==".to_string())),
        Ok(ReportRequest { nonce: None, user_data: Some("dXNlcg==".to_string()) })
    );
    assert_eq!(
        agent.get_cc_report(&Vec::new(), DOCKER_A.to_string(), Some("***".to_string()), None),
        Err(Error::InvalidEncoding)
    );
    let bound = agent
        .get_cc_report(&Vec::new(), DOCKER_A.to_string(), Some("".to_string()), Some("".to_string()))
        .unwrap();
    let register = agent.container(DOCKER_A).unwrap().imr().hash.clone();
    assert_eq!(decode(bound.nonce.as_ref().unwrap()), Some(register));
    assert_eq!(bound.user_data, Some("".to_string()));
}

#[test]
fn report_nonce_passes_through_without_isolation() {
    let mut agent = open_agent(&mixed_log());
    for nonce in [Some("bm9uY2UtYnl0ZXM=".to_string()), Some("not base64".to_string()), None] {
        assert_eq!(
            agent.get_cc_report(&Vec::new(), "anything".to_string(), nonce.clone(), None),
            Ok(ReportRequest { nonce: nonce.clone(), user_data: None })
        );
        assert_eq!(
            agent.report_request(DOCKER_A, nonce.clone(), Some("u".to_string())),
            Ok(ReportRequest { nonce, user_data: Some("u".to_string()) })
        );
    }
}

#[test]
fn report_takes_in_what_was_fetched_first() {
    let mut agent = isolated_agent(&Vec::new());
    let fetched = vec![ima_entry(&docker_path(DOCKER_A), "sha256:aa", 0x11)];
    let request = agent
        .get_cc_report(&fetched, DOCKER_A.to_string(), Some("bm9uY2UtYnl0ZXM=".to_string()), None)
        .unwrap();
    assert_eq!(
        request.nonce,
        Some(
            "+ZYPSuTLrJDriVp8Kqjy+PXf//FgcKFAxCJBV4T4n7AH9oHJcQ4UERwS/gktqpGWbm9uY2UtYnl0ZXM="
                .to_string()
        )
    );
    assert_eq!(agent.next_start(), 1);
}

#[test]
fn record_without_digests_creates_the_container_at_the_baseline() {
    let entry = EventLogEntry::TcgImrEvent(TcgImrEvent {
        imr_index: 2,
        event_type: IMA_MEASUREMENT_EVENT,
        digests: Vec::new(),
        event_size: 0,
        event: format!("1 2 {} hash", docker_path(DOCKER_A)).into_bytes(),
    });
    let agent = isolated_agent(&vec![entry]);
    let baseline = agent.measurement().unwrap().imr().clone();
    let container = agent.container(DOCKER_A).unwrap();
    assert_eq!(container.imr(), &baseline);
    assert_eq!(container.event_logs().len(), 2);
    assert_eq!(agent.event_logs().len(), 1);
}

#[test]
fn plain_entries_are_logged_as_they_came() {
    let mut agent = open_agent(&Vec::new());
    let entries =
        vec![plain_entry(IMR::FIRMWARE, 1), plain_entry(IMR::SYSTEM, 2), plain_entry(IMR::KERNEL, 3)];
    assert_eq!(agent.fetch_all_event_logs(&entries), Ok(()));
    let log = agent.event_logs();
    assert_eq!(log.len(), 3);
    for (i, (index, byte)) in [(0u32, 1u8), (2, 2), (1, 3)].iter().enumerate() {
        assert_eq!(log[i].rec_num, 0);
        assert_eq!(log[i].imr_index, *index);
        assert_eq!(log[i].event_type, 0x3);
        assert_eq!(log[i].event_size, 1);
        assert_eq!(log[i].event, vec![*byte]);
        assert_eq!(log[i].digests, vec![TcgDigest { algo_id: TPM_ALG_SHA384, hash: vec![*byte; 48] }]);
        assert!(log[i].extra_info.is_empty());
    }
    assert_eq!(agent.container_count(), 0);
}

#[test]
fn a_second_container_leaves_the_first_alone() {
    let mut agent = isolated_agent(&vec![ima_entry(&docker_path(DOCKER_A), "sha256:aa", 0x11)]);
    let first = agent.container(DOCKER_A).unwrap().imr().clone();
    let first_log = agent.container(DOCKER_A).unwrap().event_logs().clone();
    let baseline = agent.measurement().unwrap().imr().clone();
    assert_eq!(
        agent.fetch_all_event_logs(&vec![ima_entry(&docker_path(DOCKER_B), "sha256:bb", 0x22)]),
        Ok(())
    );
    assert_eq!(agent.container(DOCKER_A).unwrap().imr(), &first);
    assert_eq!(agent.container(DOCKER_A).unwrap().event_logs(), &first_log);
    assert_eq!(agent.measurement().unwrap().imr(), &baseline);
    assert_ne!(agent.container(DOCKER_B).unwrap().imr(), &first);
    assert_ne!(agent.container(DOCKER_B).unwrap().imr(), &baseline);
}
