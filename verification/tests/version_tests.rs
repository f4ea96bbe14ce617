//! The version and compatibility report.

use soroban_bridge::version::{
    get_max_proto, get_soroban_version_info, get_xdr_hashes, MAX_SUPPORTED_PROTOCOL,
};

#[test]
fn max_proto_is_the_supported_protocol() {
    assert_eq!(get_max_proto(), 23);
    assert_eq!(get_max_proto(), MAX_SUPPORTED_PROTOCOL);
}

#[test]
fn xdr_hashes_name_each_schema_file_once() {
    let hashes = get_xdr_hashes();
    assert_eq!(hashes.len(), 5);
    assert_eq!(hashes[0].file, "xdr/Stellar-types.x");
    assert_eq!(hashes[0].hash.len(), 64);
    for (i, a) in hashes.iter().enumerate() {
        for b in hashes.iter().skip(i + 1) {
            assert_ne!(a.file, b.file);
        }
    }
}

#[test]
fn version_report_is_complete_and_consistent() {
    let info = get_soroban_version_info(23);
    assert_eq!(info.env_max_proto, get_max_proto());
    assert!(!info.env_pkg_ver.is_empty());
    assert!(!info.env_git_rev.is_empty());
    assert_eq!(info.env_pre_release_ver, 0);
    assert!(!info.xdr_pkg_ver.is_empty());
    assert!(!info.xdr_git_rev.is_empty());
    assert!(!info.xdr_base_git_rev.is_empty());
    assert_eq!(info.xdr_file_hashes.len(), get_xdr_hashes().len());
}
