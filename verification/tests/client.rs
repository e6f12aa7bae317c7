use cima_server::client::{
    identifier_before_slash, identity_in_line, rest_after_last, with_underscores,
    CcnpServiceClient, TeeType,
};
use cima_server::error::Error;

const DOCKER_LINE: &str = "2958 2938 253:1 /var/lib/docker/containers/5e12c2e3f1a6/hostname /etc/hostname rw,relatime - ext4 /dev/vda1 rw";
const POD_LINE: &str = "2958 2938 253:1 /var/lib/kubelet/pods/a45f46f0-20be-45ab-ace6-b77e8e2f062c/containers/busybox/8f8d892c /dev/termination-log rw,relatime - ext4 /dev/vda1 rw,discard,errors=remount-ro";
const OTHER_LINE: &str = "22 28 0:21 / /sys rw,nosuid,nodev,noexec,relatime shared:7 - sysfs sysfs rw";

fn client() -> CcnpServiceClient {
    CcnpServiceClient { ccnp_uds_path: "/run/ccnp/uds/ccnp-server.sock".to_string() }
}

#[test]
fn tee_types_by_value() {
    let client = client();
    assert_eq!(client.get_tee_type_by_value(&-1), TeeType::PLAIN);
    assert_eq!(client.get_tee_type_by_value(&0), TeeType::TPM);
    assert_eq!(client.get_tee_type_by_value(&1), TeeType::TDX);
    assert_eq!(client.get_tee_type_by_value(&2), TeeType::SEV);
    assert_eq!(client.get_tee_type_by_value(&3), TeeType::CCA);
    assert_eq!(client.get_tee_type_by_value(&4), TeeType::PLAIN);
    assert_eq!(client.get_tee_type_by_value(&i32::MIN), TeeType::PLAIN);
}

#[test]
fn docker_mount_gives_the_container_identifier() {
    let table = format!("{}\n{}\n", OTHER_LINE, DOCKER_LINE);
    assert_eq!(client().get_container_id(table.as_bytes()), Ok("5e12c2e3f1a6".to_string()));
}

#[test]
fn kubelet_mount_gives_the_pod_uuid_with_underscores() {
    let table = format!("{}\n{}\n{}", OTHER_LINE, POD_LINE, OTHER_LINE);
    assert_eq!(
        client().get_container_id(table.as_bytes()),
        Ok("a45f46f0_20be_45ab_ace6_b77e8e2f062c".to_string())
    );
}

#[test]
fn the_first_line_that_names_a_mount_decides() {
    let pod_first = format!("{}\n{}\n", POD_LINE, DOCKER_LINE);
    assert_eq!(
        client().get_container_id(pod_first.as_bytes()),
        Ok("a45f46f0_20be_45ab_ace6_b77e8e2f062c".to_string())
    );
    let docker_first = format!("{}\n{}\n", DOCKER_LINE, POD_LINE);
    assert_eq!(client().get_container_id(docker_first.as_bytes()), Ok("5e12c2e3f1a6".to_string()));
    let both = "x /var/lib/kubelet/pods/aa-bb/volumes /var/lib/docker/containers/cc/dd";
    assert_eq!(client().get_container_id(both.as_bytes()), Ok("cc".to_string()));
}

#[test]
fn table_without_a_mount_of_a_container_fails() {
    assert_eq!(client().get_container_id(b""), Err(Error::ParseError));
    assert_eq!(client().get_container_id(OTHER_LINE.as_bytes()), Err(Error::ParseError));
    assert_eq!(
        client().get_container_id(b"/var/lib/docker/containers/without-a-slash"),
        Err(Error::ParseError)
    );
    assert_eq!(
        client().get_container_id(b"/var/lib/docker/containers/\xff\xfe/hostname"),
        Err(Error::ParseError)
    );
}

#[test]
fn the_last_occurrence_of_the_marker_counts() {
    assert_eq!(rest_after_last(b"a/m/b/m/c", b"/m/"), b"c".to_vec());
    assert_eq!(rest_after_last(b"a/m/m/c", b"/m/"), b"m/c".to_vec());
    assert_eq!(rest_after_last(b"abc", b"/m/"), b"abc".to_vec());
    assert_eq!(rest_after_last(b"abc/m/", b"/m/"), Vec::<u8>::new());
    assert_eq!(rest_after_last(b"abc", b""), b"abc".to_vec());
    let line = "1 /docker/containers/aa/x /docker/containers/bb/y";
    assert_eq!(identity_in_line(line.as_bytes()), Some(Some(b"bb".to_vec())));
}

#[test]
fn rest_after_last_agrees_with_the_standard_split() {
    for (line, pattern) in [
        ("a/m/b/m/c", "/m/"),
        ("/m//m//m/", "/m/"),
        ("xxxx", "xx"),
        ("xxx", "xx"),
        ("", "x"),
        (DOCKER_LINE, "/docker/containers/"),
    ] {
        let expected = line.split(pattern).last().unwrap();
        assert_eq!(rest_after_last(line.as_bytes(), pattern.as_bytes()), expected.as_bytes().to_vec());
    }
}

#[test]
fn identifier_ends_at_the_first_slash() {
    assert_eq!(identifier_before_slash(b"abc/def/ghi"), Some(b"abc".to_vec()));
    assert_eq!(identifier_before_slash(b"/def"), Some(Vec::new()));
    assert_eq!(identifier_before_slash(b"abc"), None);
    assert_eq!(identifier_before_slash(b""), None);
    assert_eq!(with_underscores(b"a-b--c_d"), b"a_b__c_d".to_vec());
    assert_eq!(identity_in_line(OTHER_LINE.as_bytes()), None);
    assert_eq!(identity_in_line(b"/kubelet/pods/no-slash"), Some(None));
}
