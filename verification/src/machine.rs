//! Decision logic of the machine lifecycle: validation of a creation
//! request, resolution of the actor bundle for a network version, the
//! 128-bit quantities that cross the boundary as two 64-bit halves, and the
//! assembly of the fixed-shape result records for execute and flush.
//!
//! The engine itself is an outside collaborator: the host applies these
//! decisions around it, handing every outcome back as plain values.

use vstd::prelude::*;

use crate::cids::{cid_bytes_valid, cid_parse_ok};
use crate::codec::{encode_frame, spec_encode_frame};
use crate::trace::{events_view, reconstruct_spec, reconstruct_trace, Event};

verus! {

/// Status code of a boundary result record; the host must check it before
/// touching any payload field.
#[derive(Clone, Copy, Debug, PartialEq, Eq, Structural)]
pub enum ResponseStatus {
    Success,
    ConstructionError,
    ExecutionError,
    FlushError,
    Unclassified,
}

/// The newest network version this boundary accepts.
pub const MAX_NETWORK_VERSION: u64 = 16;

/// The network versions whose actor bundle ships built in.
pub const BUNDLE_VERSION_6: u64 = 14;

pub const BUNDLE_VERSION_7: u64 = 15;

/// The network version whose state is already migrated, so the bundle is
/// fished from existing state and none needs to be supplied.
pub const MIGRATED_VERSION: u64 = 16;

pub open spec fn supported_network_version(v: u64) -> bool {
    v <= MAX_NETWORK_VERSION
}

/// Where the actor bundle of a new machine comes from.
#[derive(Clone, Copy, Debug, PartialEq, Eq, Structural)]
pub enum BundleSource {
    /// The caller supplied a manifest reference.
    Provided,
    /// The built-in bundle of the sixth actors release.
    BuiltinV6,
    /// The built-in bundle of the seventh actors release.
    BuiltinV7,
    /// State is already migrated: the engine reads the bundle from state.
    FromState,
}

/// The bundle table: a supplied manifest always wins; without one, the two
/// legacy versions select their built-in bundle, the migrated version needs
/// none, and every other version has no bundle to offer.
pub open spec fn bundle_for(manifest_given: bool, nv: u64) -> Option<BundleSource> {
    if manifest_given {
        Some(BundleSource::Provided)
    } else if nv == BUNDLE_VERSION_6 {
        Some(BundleSource::BuiltinV6)
    } else if nv == BUNDLE_VERSION_7 {
        Some(BundleSource::BuiltinV7)
    } else if nv == MIGRATED_VERSION {
        Some(BundleSource::FromState)
    } else {
        None
    }
}

/// Why a creation request is rejected.
#[derive(Clone, Copy, Debug, PartialEq, Eq, Structural)]
pub enum CreateError {
    UnsupportedNetworkVersion,
    InvalidStateRoot,
    InvalidManifest,
    MissingBuiltinBundle,
}

/// Resolves the actor bundle for a creation request.
pub fn resolve_bundle(manifest_given: bool, network_version: u64) -> (r: Result<
    BundleSource,
    CreateError,
>)
    ensures
        match r {
            Ok(b) => bundle_for(manifest_given, network_version) == Some(b),
            Err(e) => bundle_for(manifest_given, network_version) is None && e
                == CreateError::MissingBuiltinBundle,
        },
{
    if manifest_given {
        Ok(BundleSource::Provided)
    } else if network_version == BUNDLE_VERSION_6 {
        Ok(BundleSource::BuiltinV6)
    } else if network_version == BUNDLE_VERSION_7 {
        Ok(BundleSource::BuiltinV7)
    } else if network_version == MIGRATED_VERSION {
        Ok(BundleSource::FromState)
    } else {
        Err(CreateError::MissingBuiltinBundle)
    }
}

/// Combines the two 64-bit halves of a 128-bit quantity crossing the
/// boundary.
pub fn combine_halves(hi: u64, lo: u64) -> (r: u128)
    ensures
        r == ((hi as u128) << 64) | (lo as u128),
        r as int == (hi as int) * 0x1_0000_0000_0000_0000 + (lo as int),
{
    let r = ((hi as u128) << 64) | (lo as u128);
    proof {
        assert(((hi as u128) << 64) | (lo as u128) == (hi as u128) * 0x1_0000_0000_0000_0000u128
            + (lo as u128)) by (bit_vector);
    }
    r
}

/// Splits a 128-bit quantity into the two 64-bit halves that cross the
/// boundary; combining the halves gives the quantity back.
pub fn split_halves(v: u128) -> (r: (u64, u64))
    ensures
        r.0 == (v >> 64) as u64,
        r.1 == v as u64,
        (r.0 as int) * 0x1_0000_0000_0000_0000 + (r.1 as int) == v as int,
{
    proof {
        assert((((v >> 64) as u64) as u128) * 0x1_0000_0000_0000_0000u128 + ((v as u64) as u128)
            == v) by (bit_vector);
    }
    (((v >> 64) as u64), (v as u64))
}

/// How a message is applied: an externally-initiated call is accounted,
/// timed and traced; an internally-chained one is not.
#[derive(Clone, Copy, Debug, PartialEq, Eq, Structural)]
pub enum ApplyKind {
    Explicit,
    Implicit,
}

/// Decodes the raw apply-kind flag: zero means an explicit call, anything
/// else an implicit one.
pub fn apply_kind_of(raw: u64) -> (k: ApplyKind)
    ensures
        k == (if raw == 0 {
            ApplyKind::Explicit
        } else {
            ApplyKind::Implicit
        }),
{
    if raw == 0 {
        ApplyKind::Explicit
    } else {
        ApplyKind::Implicit
    }
}

/// A creation request, as plain values: the epoch, the fee and supply
/// halves, the network version, the state-root reference bytes, the
/// manifest reference bytes (empty means none was supplied), and whether
/// tracing is on.
pub struct CreateConfig {
    pub chain_epoch: u64,
    pub base_fee_hi: u64,
    pub base_fee_lo: u64,
    pub circ_supply_hi: u64,
    pub circ_supply_lo: u64,
    pub network_version: u64,
    pub state_root: Vec<u8>,
    pub manifest_cid: Vec<u8>,
    pub tracing: bool,
}

/// A validated plan for constructing a machine.
#[derive(Clone, Copy, Debug, PartialEq, Eq)]
pub struct CreatePlan {
    pub chain_epoch: u64,
    pub base_fee: u128,
    pub circ_supply: u128,
    pub network_version: u64,
    pub bundle: BundleSource,
    pub tracing: bool,
}

/// Validates a creation request: the network version must be supported,
/// the state root must parse as a content identifier, a supplied manifest
/// must parse too, and the bundle table must offer a source. On success
/// the plan carries the combined 128-bit quantities and the bundle choice;
/// each error names exactly the first check that failed.
pub fn plan_create(cfg: &CreateConfig) -> (r: Result<CreatePlan, CreateError>)
    ensures
        match r {
            Ok(p) => supported_network_version(cfg.network_version) && cid_parse_ok(
                cfg.state_root@,
            ) && (cfg.manifest_cid@.len() > 0 ==> cid_parse_ok(cfg.manifest_cid@)) && bundle_for(
                cfg.manifest_cid@.len() > 0,
                cfg.network_version,
            ) == Some(p.bundle) && p.chain_epoch == cfg.chain_epoch && p.network_version
                == cfg.network_version && p.tracing == cfg.tracing && p.base_fee as int == (
            cfg.base_fee_hi as int) * 0x1_0000_0000_0000_0000 + (cfg.base_fee_lo as int)
                && p.circ_supply as int == (cfg.circ_supply_hi as int) * 0x1_0000_0000_0000_0000
                + (cfg.circ_supply_lo as int),
            Err(CreateError::UnsupportedNetworkVersion) => !supported_network_version(
                cfg.network_version,
            ),
            Err(CreateError::InvalidStateRoot) => supported_network_version(cfg.network_version)
                && !cid_parse_ok(cfg.state_root@),
            Err(CreateError::InvalidManifest) => supported_network_version(cfg.network_version)
                && cid_parse_ok(cfg.state_root@) && cfg.manifest_cid@.len() > 0 && !cid_parse_ok(
                cfg.manifest_cid@,
            ),
            Err(CreateError::MissingBuiltinBundle) => supported_network_version(
                cfg.network_version,
            ) && cid_parse_ok(cfg.state_root@) && cfg.manifest_cid@.len() == 0 && bundle_for(
                false,
                cfg.network_version,
            ) is None,
        },
{
    if cfg.network_version > MAX_NETWORK_VERSION {
        return Err(CreateError::UnsupportedNetworkVersion);
    }
    if !cid_bytes_valid(&cfg.state_root) {
        return Err(CreateError::InvalidStateRoot);
    }
    let manifest_given = cfg.manifest_cid.len() > 0;
    if manifest_given {
        if !cid_bytes_valid(&cfg.manifest_cid) {
            return Err(CreateError::InvalidManifest);
        }
    }
    let bundle = match resolve_bundle(manifest_given, cfg.network_version) {
        Ok(b) => b,
        Err(e) => {
            return Err(e);
        },
    };
    Ok(
        CreatePlan {
            chain_epoch: cfg.chain_epoch,
            base_fee: combine_halves(cfg.base_fee_hi, cfg.base_fee_lo),
            circ_supply: combine_halves(cfg.circ_supply_hi, cfg.circ_supply_lo),
            network_version: cfg.network_version,
            bundle,
            tracing: cfg.tracing,
        },
    )
}

/// What the engine reports for one applied message, as plain values.
pub struct AppliedMessage {
    pub exit_code: u32,
    pub gas_used: u64,
    pub penalty: u128,
    pub miner_tip: u128,
    pub return_data: Vec<u8>,
    pub exec_events: Vec<Event>,
    pub failure_info: Option<String>,
}

/// How one execute call ended on the engine side: the message bytes did not
/// decode, the engine reported an unrecoverable dispatch problem, or the
/// message was applied.
pub enum EngineOutcome {
    DecodeFailed(String),
    EngineFailed(String),
    Applied(AppliedMessage),
}

/// The fixed-shape result record of one execute call. A zero-length return
/// buffer is a valid, meaningful value, distinct from no trace; the trace
/// bytes are present only where a trace was requested, reconstructed and
/// encoded.
pub struct ExecuteResponse {
    pub status: ResponseStatus,
    pub error_msg: Option<String>,
    pub exit_code: u64,
    pub gas_used: u64,
    pub penalty_hi: u64,
    pub penalty_lo: u64,
    pub miner_tip_hi: u64,
    pub miner_tip_lo: u64,
    pub return_data: Vec<u8>,
    pub trace: Option<Vec<u8>>,
    pub failure_info: Option<String>,
}

/// Assembles the execute result record. A decode or engine failure yields
/// an error status carrying the message and no payload. An applied message
/// yields success with the receipt fields, the 128-bit quantities split
/// into halves, and — where the engine emitted trace events — the encoded
/// call tree; a malformed event stream degrades into no trace and never
/// fails the call.
pub fn build_execute_response(outcome: EngineOutcome) -> (r: ExecuteResponse)
    ensures
        match outcome {
            EngineOutcome::DecodeFailed(m) => r.status == ResponseStatus::ExecutionError && (
            r.error_msg matches Some(e) && e@ == m@) && r.trace is None,
            EngineOutcome::EngineFailed(m) => r.status == ResponseStatus::ExecutionError && (
            r.error_msg matches Some(e) && e@ == m@) && r.trace is None,
            EngineOutcome::Applied(a) => r.status == ResponseStatus::Success && r.error_msg
                is None && r.exit_code == a.exit_code as u64 && r.gas_used == a.gas_used && (
            r.penalty_hi as int) * 0x1_0000_0000_0000_0000 + (r.penalty_lo as int)
                == a.penalty as int && (r.miner_tip_hi as int) * 0x1_0000_0000_0000_0000 + (
            r.miner_tip_lo as int) == a.miner_tip as int && r.return_data@ == a.return_data@ && (
            match r.failure_info {
                Some(fi) => a.failure_info matches Some(afi) && fi@ == afi@,
                None => a.failure_info is None,
            }) && (match reconstruct_spec(events_view(a.exec_events@)) {
                Some(p) => a.exec_events@.len() > 0 && (r.trace matches Some(tb) && tb@
                    == spec_encode_frame(p.0)),
                None => r.trace is None,
            }),
        },
{
    match outcome {
        EngineOutcome::DecodeFailed(m) => ExecuteResponse {
            status: ResponseStatus::ExecutionError,
            error_msg: Some(m),
            exit_code: 0,
            gas_used: 0,
            penalty_hi: 0,
            penalty_lo: 0,
            miner_tip_hi: 0,
            miner_tip_lo: 0,
            return_data: Vec::new(),
            trace: None,
            failure_info: None,
        },
        EngineOutcome::EngineFailed(m) => ExecuteResponse {
            status: ResponseStatus::ExecutionError,
            error_msg: Some(m),
            exit_code: 0,
            gas_used: 0,
            penalty_hi: 0,
            penalty_lo: 0,
            miner_tip_hi: 0,
            miner_tip_lo: 0,
            return_data: Vec::new(),
            trace: None,
            failure_info: None,
        },
        EngineOutcome::Applied(a) => {
            let trace = match reconstruct_trace(&a.exec_events) {
                Ok(Some(frame)) => Some(encode_frame(&frame)),
                Ok(None) => None,
                Err(_) => None,
            };
            let penalty = split_halves(a.penalty);
            let miner_tip = split_halves(a.miner_tip);
            ExecuteResponse {
                status: ResponseStatus::Success,
                error_msg: None,
                exit_code: a.exit_code as u64,
                gas_used: a.gas_used,
                penalty_hi: penalty.0,
                penalty_lo: penalty.1,
                miner_tip_hi: miner_tip.0,
                miner_tip_lo: miner_tip.1,
                return_data: a.return_data,
                trace,
                failure_info: a.failure_info,
            }
        },
    }
}

/// The fixed-shape result record of one flush call.
pub struct FlushResponse {
    pub status: ResponseStatus,
    pub error_msg: Option<String>,
    pub state_root: Vec<u8>,
}

/// Assembles the flush result record: a committed state root yields
/// success carrying its reference bytes; a commit failure yields the flush
/// error status carrying the message and no payload.
pub fn build_flush_response(outcome: Result<Vec<u8>, String>) -> (r: FlushResponse)
    ensures
        match outcome {
            Ok(root) => r.status == ResponseStatus::Success && r.error_msg is None
                && r.state_root@ == root@,
            Err(m) => r.status == ResponseStatus::FlushError && (r.error_msg matches Some(e) && e@
                == m@) && r.state_root@.len() == 0,
        },
{
    match outcome {
        Ok(root) => FlushResponse {
            status: ResponseStatus::Success,
            error_msg: None,
            state_root: root,
        },
        Err(m) => FlushResponse {
            status: ResponseStatus::FlushError,
            error_msg: Some(m),
            state_root: Vec::new(),
        },
    }
}

} // verus!
