//! Process-wide version metadata: the supported protocol, package and source
//! identification, and the schema-file hashes the caller checks before
//! trusting results. Built once, read-only thereafter.

use vstd::prelude::*;

verus! {

/// Highest protocol version this execution host supports.
pub const MAX_SUPPORTED_PROTOCOL: u32 = 23;

/// Package version of the execution host in use.
pub const ENV_PACKAGE_VERSION: &'static str = "23.0.2";

/// Source revision of the execution host in use.
pub const ENV_GIT_REVISION: &'static str = "5312aa2d6247eb83529cba0a1d4b1080833b68bc";

/// Pre-release number of the execution host; zero for a release build.
pub const ENV_PRE_RELEASE_VERSION: u32 = 0;

/// Package version of the schema definitions in use.
pub const XDR_PACKAGE_VERSION: &'static str = "23.0.0";

/// Source revision of the schema-definition bindings in use.
pub const XDR_GIT_REVISION: &'static str = "4b7a2ef7931ab2ca2499be68d849f38190e17a98";

/// Source revision of the schema files the current bindings were generated
/// from.
pub const XDR_BASE_GIT_REVISION: &'static str = "529d5176f24c73eeccfa5eba481d4e89c19b1181";

/// Which schema flavor this build binds: the current one, or the next
/// protocol's draft.
#[derive(Clone, Copy, Debug, PartialEq, Eq, Structural)]
pub enum XdrModuleFlavor {
    Current,
    Next,
}

/// The schema flavor compiled into this build.
pub const XDR_MODULE_FLAVOR: XdrModuleFlavor = XdrModuleFlavor::Current;

/// One schema file and the hash of its contents, for the caller to confirm
/// that both sides compiled the same definitions.
#[derive(Clone, Copy, Debug, PartialEq, Eq)]
pub struct XDRFileHash {
    pub file: &'static str,
    pub hash: &'static str,
}

/// The version and compatibility report of the execution host: its maximum
/// supported protocol, package and source identification, schema revisions,
/// and per-file schema hashes.
#[derive(Debug)]
pub struct SorobanVersionInfo {
    pub env_max_proto: u32,
    pub env_pkg_ver: &'static str,
    pub env_git_rev: &'static str,
    pub env_pre_release_ver: u32,
    pub xdr_pkg_ver: &'static str,
    pub xdr_git_rev: &'static str,
    pub xdr_base_git_rev: &'static str,
    pub xdr_file_hashes: Vec<XDRFileHash>,
}

/// The fixed list of schema files and their content hashes.
pub open spec fn spec_xdr_hash_list() -> Seq<XDRFileHash> {
    seq![
        XDRFileHash {
            file: "xdr/Stellar-types.x",
            hash: "6e3b13f0d3e360b09fa5e2b0e55d43f4d974a769df66afb34e8aecbb329d3f15",
        },
        XDRFileHash {
            file: "xdr/Stellar-ledger-entries.x",
            hash: "77dc7062ae6d0812136333e12e35b2294d7c2896a536be9c811eb0533dee983a",
        },
        XDRFileHash {
            file: "xdr/Stellar-transaction.x",
            hash: "dd7c8558b75428e33c15828db9fcb93d5deb4e2a0cabafb625bca9c3feb86f52",
        },
        XDRFileHash {
            file: "xdr/Stellar-contract.x",
            hash: "5bbdc5d4bcb222bfa2d0476ef51a6b433e3d6dd02cf98d21b199884cd6c6916a",
        },
        XDRFileHash {
            file: "xdr/Stellar-contract-config-setting.x",
            hash: "b59f4ffe22b1a9ce1b1ec0a17e3f6a6d8cbbd0a3b5e4fbef6e0e4cd367b0b8a9",
        },
    ]
}

/// Returns the schema files that served as input to the bindings compiled in
/// here, each with the hash of its contents, so that the caller can confirm
/// that the same definitions are compiled into both sides of the boundary.
pub fn get_xdr_hashes() -> (r: Vec<XDRFileHash>)
    ensures
        r@ == spec_xdr_hash_list(),
{
    let mut hashes: Vec<XDRFileHash> = Vec::new();
    hashes.push(
        XDRFileHash {
            file: "xdr/Stellar-types.x",
            hash: "6e3b13f0d3e360b09fa5e2b0e55d43f4d974a769df66afb34e8aecbb329d3f15",
        },
    );
    hashes.push(
        XDRFileHash {
            file: "xdr/Stellar-ledger-entries.x",
            hash: "77dc7062ae6d0812136333e12e35b2294d7c2896a536be9c811eb0533dee983a",
        },
    );
    hashes.push(
        XDRFileHash {
            file: "xdr/Stellar-transaction.x",
            hash: "dd7c8558b75428e33c15828db9fcb93d5deb4e2a0cabafb625bca9c3feb86f52",
        },
    );
    hashes.push(
        XDRFileHash {
            file: "xdr/Stellar-contract.x",
            hash: "5bbdc5d4bcb222bfa2d0476ef51a6b433e3d6dd02cf98d21b199884cd6c6916a",
        },
    );
    hashes.push(
        XDRFileHash {
            file: "xdr/Stellar-contract-config-setting.x",
            hash: "b59f4ffe22b1a9ce1b1ec0a17e3f6a6d8cbbd0a3b5e4fbef6e0e4cd367b0b8a9",
        },
    );
    proof {
        assert(hashes@ =~= spec_xdr_hash_list());
    }
    hashes
}

/// Highest protocol version of the execution host compiled in here.
pub fn get_max_proto() -> (r: u32)
    ensures
        r == MAX_SUPPORTED_PROTOCOL,
{
    MAX_SUPPORTED_PROTOCOL
}

/// The schema base revision the active flavor binds.
pub open spec fn spec_xdr_base_git_rev() -> &'static str {
    match XDR_MODULE_FLAVOR {
        XdrModuleFlavor::Current => XDR_BASE_GIT_REVISION,
        XdrModuleFlavor::Next => XDR_GIT_REVISION,
    }
}

/// Builds the process-wide version report once, from the constants compiled
/// into this build; the caller's own maximum protocol is taken for the
/// caller to compare against the report's.
pub fn get_soroban_version_info(core_max_proto: u32) -> (r: SorobanVersionInfo)
    ensures
        r.env_max_proto == MAX_SUPPORTED_PROTOCOL,
        r.env_pkg_ver == ENV_PACKAGE_VERSION,
        r.env_git_rev == ENV_GIT_REVISION,
        r.env_pre_release_ver == ENV_PRE_RELEASE_VERSION,
        r.xdr_pkg_ver == XDR_PACKAGE_VERSION,
        r.xdr_git_rev == XDR_GIT_REVISION,
        r.xdr_base_git_rev == spec_xdr_base_git_rev(),
        r.xdr_file_hashes@ == spec_xdr_hash_list(),
{
    let _ = core_max_proto;
    let env_max_proto = get_max_proto();
    let xdr_base_git_rev = match XDR_MODULE_FLAVOR {
        XdrModuleFlavor::Current => XDR_BASE_GIT_REVISION,
        XdrModuleFlavor::Next => XDR_GIT_REVISION,
    };
    SorobanVersionInfo {
        env_max_proto,
        env_pkg_ver: ENV_PACKAGE_VERSION,
        env_git_rev: ENV_GIT_REVISION,
        env_pre_release_ver: ENV_PRE_RELEASE_VERSION,
        xdr_pkg_ver: XDR_PACKAGE_VERSION,
        xdr_git_rev: XDR_GIT_REVISION,
        xdr_base_git_rev,
        xdr_file_hashes: get_xdr_hashes(),
    }
}

} // verus!
