use fvm_boundary::codec::{decode_frame, encode_frame};
use fvm_boundary::exit_code::{
    map_dispatch_failure, DispatchFailure, EXIT_OK, SYS_ASSERTION_FAILED, SYS_INSUFFICIENT_FUNDS,
    SYS_INVALID_RECEIVER,
};
use fvm_boundary::handles::HandleTable;
use fvm_boundary::machine::{
    apply_kind_of, build_execute_response, build_flush_response, combine_halves, plan_create,
    resolve_bundle, split_halves, AppliedMessage, ApplyKind, BundleSource, CreateConfig,
    CreateError, EngineOutcome, ResponseStatus,
};
use fvm_boundary::trace::{
    build_trace, reconstruct_trace, CallFrame, Event, MessageData, Outcome, ReceiptData,
    TraceError,
};

fn call_event() -> Event {
    Event::Call(MessageData { from: 0, to: 0, method: 0, params: Vec::new(), value: 0 })
}

fn dispatch_error_return() -> Event {
    Event::Return(Outcome::DispatchError(DispatchFailure::IllegalArgument))
}

fn frames_equal(a: &CallFrame, b: &CallFrame) -> bool {
    if a.msg != b.msg || a.receipt != b.receipt || a.error != b.error {
        return false;
    }
    if a.children.len() != b.children.len() {
        return false;
    }
    for i in 0..a.children.len() {
        if !frames_equal(&a.children[i], &b.children[i]) {
            return false;
        }
    }
    true
}

#[test]
fn test_lotus_trace() {
    let trace = vec![
        call_event(),
        call_event(),
        dispatch_error_return(),
        call_event(),
        call_event(),
        dispatch_error_return(),
        dispatch_error_return(),
        dispatch_error_return(),
    ];

    let (lotus_trace, consumed) = build_trace(&trace, 0).unwrap();

    assert!(consumed == trace.len());

    assert_eq!(lotus_trace.children.len(), 2);
    assert_eq!(lotus_trace.children[0].children.len(), 0);
    assert_eq!(lotus_trace.children[1].children.len(), 1);
    assert_eq!(lotus_trace.children[1].children[0].children.len(), 0);
}

#[test]
fn trace_consumes_all_and_counts_nodes() {
    // [Call [Call] [Call [Call]]]: four calls, depth three.
    let trace = vec![
        call_event(),
        call_event(),
        dispatch_error_return(),
        call_event(),
        call_event(),
        dispatch_error_return(),
        dispatch_error_return(),
        dispatch_error_return(),
    ];
    let (root, consumed) = build_trace(&trace, 0).unwrap();
    assert_eq!(consumed, 8);
    let mut nodes = 1;
    nodes += root.children.len();
    for c in &root.children {
        nodes += c.children.len();
        for g in &c.children {
            nodes += g.children.len();
        }
    }
    assert_eq!(nodes, 4);
}

#[test]
fn trace_success_and_failure_receipts() {
    let trace = vec![
        Event::Call(MessageData { from: 7, to: 9, method: 3, params: vec![1, 2], value: 5 }),
        Event::Call(MessageData { from: 9, to: 11, method: 4, params: Vec::new(), value: 0 }),
        Event::Return(Outcome::Failure(33)),
        Event::Return(Outcome::Success(vec![8, 8, 8])),
    ];
    let (root, consumed) = build_trace(&trace, 0).unwrap();
    assert_eq!(consumed, 4);
    assert_eq!(root.receipt.exit_code, EXIT_OK);
    assert_eq!(root.receipt.return_data, vec![8, 8, 8]);
    assert_eq!(root.msg.from, 7);
    assert_eq!(root.msg.to, 9);
    assert_eq!(root.msg.method, 3);
    assert_eq!(root.msg.params, vec![1, 2]);
    assert_eq!(root.msg.value, 5);
    assert_eq!(root.children.len(), 1);
    assert_eq!(root.children[0].receipt.exit_code, 33);
    assert_eq!(root.children[0].receipt.return_data.len(), 0);
    assert_eq!(root.error, String::new());
}

#[test]
fn trace_dispatch_error_maps_exit_code() {
    let trace = vec![
        call_event(),
        Event::Return(Outcome::DispatchError(DispatchFailure::InsufficientFunds)),
    ];
    let (root, _) = build_trace(&trace, 0).unwrap();
    assert_eq!(root.receipt.exit_code, SYS_INSUFFICIENT_FUNDS);

    let trace2 = vec![call_event(), Event::Return(Outcome::DispatchError(DispatchFailure::NotFound))];
    let (root2, _) = build_trace(&trace2, 0).unwrap();
    assert_eq!(root2.receipt.exit_code, SYS_INVALID_RECEIVER);
}

#[test]
fn trace_return_before_call_is_malformed() {
    let trace = vec![dispatch_error_return(), call_event()];
    assert!(matches!(build_trace(&trace, 0), Err(TraceError::MalformedTrace)));
}

#[test]
fn trace_ok_coded_failure_is_malformed() {
    let trace = vec![call_event(), Event::Return(Outcome::Failure(EXIT_OK))];
    assert!(matches!(build_trace(&trace, 0), Err(TraceError::MalformedTrace)));
}

#[test]
fn trace_truncated_stream_is_malformed() {
    // The example with its final Return dropped: the root is never sealed.
    let trace = vec![
        call_event(),
        call_event(),
        dispatch_error_return(),
        call_event(),
        call_event(),
        dispatch_error_return(),
        dispatch_error_return(),
    ];
    assert!(matches!(build_trace(&trace, 0), Err(TraceError::MalformedTrace)));
}

#[test]
fn trace_malformed_permutations_of_example() {
    // Rotating a Return to the front, or swapping the opening Call behind
    // a Return, breaks the stack discipline wherever it happens.
    let r = dispatch_error_return;
    let c = call_event;
    let cases = vec![
        vec![r(), c(), c(), r(), c(), c(), r(), r()],
        vec![r(), r(), c(), c(), r(), c(), c(), r()],
        vec![c(), c(), r(), c(), c(), r(), r(), c()],
        vec![c(), c(), c(), r(), c(), c(), r(), r()],
    ];
    for events in cases {
        assert!(build_trace(&events, 0).is_err());
    }
}

#[test]
fn reconstruct_empty_stream_is_no_trace() {
    let events: Vec<Event> = Vec::new();
    assert!(reconstruct_trace(&events).unwrap().is_none());
}

#[test]
fn exit_mapper_buckets() {
    assert_eq!(map_dispatch_failure(DispatchFailure::InsufficientFunds), SYS_INSUFFICIENT_FUNDS);
    assert_eq!(map_dispatch_failure(DispatchFailure::NotFound), SYS_INVALID_RECEIVER);
    let shared = [
        DispatchFailure::IllegalArgument,
        DispatchFailure::IllegalOperation,
        DispatchFailure::LimitExceeded,
        DispatchFailure::AssertionFailed,
        DispatchFailure::InvalidHandle,
        DispatchFailure::IllegalCid,
        DispatchFailure::IllegalCodec,
        DispatchFailure::Serialization,
        DispatchFailure::Forbidden,
    ];
    for reason in shared {
        assert_eq!(map_dispatch_failure(reason), SYS_ASSERTION_FAILED);
        // Deterministic: the same reason maps the same way on every call.
        assert_eq!(map_dispatch_failure(reason), map_dispatch_failure(reason));
    }
    assert_ne!(SYS_INSUFFICIENT_FUNDS, SYS_INVALID_RECEIVER);
    assert_ne!(SYS_INSUFFICIENT_FUNDS, SYS_ASSERTION_FAILED);
    assert_ne!(SYS_INVALID_RECEIVER, SYS_ASSERTION_FAILED);
}

#[test]
fn exit_codes_match_engine_vocabulary() {
    assert_eq!(EXIT_OK, fvm_shared::error::ExitCode::OK.value());
    assert_eq!(SYS_INVALID_RECEIVER, fvm_shared::error::ExitCode::SYS_INVALID_RECEIVER.value());
    assert_eq!(
        SYS_INSUFFICIENT_FUNDS,
        fvm_shared::error::ExitCode::SYS_INSUFFICIENT_FUNDS.value()
    );
    assert_eq!(SYS_ASSERTION_FAILED, fvm_shared::error::ExitCode::SYS_ASSERTION_FAILED.value());
}

#[test]
fn codec_round_trip_reproduces_tree() {
    let tree = CallFrame {
        msg: MessageData { from: 1, to: 2, method: 3, params: vec![4, 5, 6], value: u128::MAX },
        receipt: ReceiptData { exit_code: 0, return_data: vec![7] },
        error: String::from("boundary \u{2192} fault"),
        children: vec![
            CallFrame {
                msg: MessageData { from: 2, to: 4, method: 0, params: Vec::new(), value: 0 },
                receipt: ReceiptData { exit_code: 33, return_data: Vec::new() },
                error: String::new(),
                children: Vec::new(),
            },
            CallFrame {
                msg: MessageData { from: 2, to: 5, method: 9, params: vec![0], value: 1 },
                receipt: ReceiptData { exit_code: 10, return_data: Vec::new() },
                error: String::new(),
                children: vec![
                    CallFrame {
                        msg: MessageData {
                            from: 5,
                            to: 6,
                            method: 1,
                            params: Vec::new(),
                            value: 2,
                        },
                        receipt: ReceiptData { exit_code: 0, return_data: vec![1, 2, 3] },
                        error: String::new(),
                        children: Vec::new(),
                    },
                ],
            },
        ],
    };
    let bytes = encode_frame(&tree);
    let (decoded, consumed) = decode_frame(&bytes, 0).unwrap();
    assert_eq!(consumed, bytes.len());
    assert!(frames_equal(&tree, &decoded));
}

#[test]
fn codec_exact_leaf_bytes() {
    let leaf = CallFrame {
        msg: MessageData { from: 1, to: 2, method: 3, params: vec![0xAB], value: 4 },
        receipt: ReceiptData { exit_code: 5, return_data: Vec::new() },
        error: String::new(),
        children: Vec::new(),
    };
    let bytes = encode_frame(&leaf);
    let mut expected: Vec<u8> = Vec::new();
    expected.extend_from_slice(&1u64.to_be_bytes());
    expected.extend_from_slice(&2u64.to_be_bytes());
    expected.extend_from_slice(&3u64.to_be_bytes());
    expected.extend_from_slice(&1u64.to_be_bytes());
    expected.push(0xAB);
    expected.extend_from_slice(&4u128.to_be_bytes());
    expected.extend_from_slice(&5u32.to_be_bytes());
    expected.extend_from_slice(&0u64.to_be_bytes());
    expected.extend_from_slice(&0u64.to_be_bytes());
    expected.extend_from_slice(&0u64.to_be_bytes());
    assert_eq!(bytes, expected);
}

#[test]
fn codec_rejects_truncated_bytes() {
    let leaf = CallFrame {
        msg: MessageData { from: 1, to: 2, method: 3, params: Vec::new(), value: 4 },
        receipt: ReceiptData { exit_code: 5, return_data: Vec::new() },
        error: String::new(),
        children: Vec::new(),
    };
    let mut bytes = encode_frame(&leaf);
    bytes.pop();
    assert!(decode_frame(&bytes, 0).is_none());
}

#[test]
fn halves_combine_and_split() {
    assert_eq!(combine_halves(0, 7), 7u128);
    assert_eq!(combine_halves(1, 2), (1u128 << 64) + 2);
    assert_eq!(split_halves((9u128 << 64) + 13), (9u64, 13u64));
    let v = 0x0123_4567_89AB_CDEF_1122_3344_5566_7788u128;
    let (hi, lo) = split_halves(v);
    assert_eq!(combine_halves(hi, lo), v);
}

#[test]
fn apply_kind_flag() {
    assert_eq!(apply_kind_of(0), ApplyKind::Explicit);
    assert_eq!(apply_kind_of(1), ApplyKind::Implicit);
    assert_eq!(apply_kind_of(99), ApplyKind::Implicit);
}

fn base_config() -> CreateConfig {
    CreateConfig {
        chain_epoch: 11,
        base_fee_hi: 1,
        base_fee_lo: 2,
        circ_supply_hi: 3,
        circ_supply_lo: 4,
        network_version: 16,
        // A version-1 identifier with the raw codec and an empty identity
        // digest: the smallest well-formed reference.
        state_root: vec![0x01, 0x55, 0x00, 0x00],
        manifest_cid: Vec::new(),
        tracing: false,
    }
}

#[test]
fn create_plan_happy_path() {
    let cfg = base_config();
    // Cross-check the reference bytes against the outside parser itself.
    assert!(cid::Cid::try_from(cfg.state_root.as_slice()).is_ok());
    let plan = plan_create(&cfg).unwrap();
    assert_eq!(plan.chain_epoch, 11);
    assert_eq!(plan.base_fee, (1u128 << 64) + 2);
    assert_eq!(plan.circ_supply, (3u128 << 64) + 4);
    assert_eq!(plan.bundle, BundleSource::FromState);
    assert!(!plan.tracing);
}

#[test]
fn create_plan_rejects_bad_network_version() {
    let mut cfg = base_config();
    cfg.network_version = 17;
    assert_eq!(plan_create(&cfg).unwrap_err(), CreateError::UnsupportedNetworkVersion);
}

#[test]
fn create_plan_rejects_bad_state_root() {
    let mut cfg = base_config();
    cfg.state_root = vec![0xFF];
    assert!(cid::Cid::try_from(cfg.state_root.as_slice()).is_err());
    assert_eq!(plan_create(&cfg).unwrap_err(), CreateError::InvalidStateRoot);
}

#[test]
fn create_plan_rejects_bad_manifest() {
    let mut cfg = base_config();
    cfg.manifest_cid = vec![0xFF, 0xFF];
    assert_eq!(plan_create(&cfg).unwrap_err(), CreateError::InvalidManifest);
}

#[test]
fn create_plan_accepts_supplied_manifest() {
    let mut cfg = base_config();
    cfg.network_version = 13;
    cfg.manifest_cid = vec![0x01, 0x55, 0x00, 0x00];
    let plan = plan_create(&cfg).unwrap();
    assert_eq!(plan.bundle, BundleSource::Provided);
}

#[test]
fn create_plan_needs_builtin_bundle() {
    let mut cfg = base_config();
    cfg.network_version = 13;
    assert_eq!(plan_create(&cfg).unwrap_err(), CreateError::MissingBuiltinBundle);
}

#[test]
fn bundle_table() {
    assert_eq!(resolve_bundle(false, 14).unwrap(), BundleSource::BuiltinV6);
    assert_eq!(resolve_bundle(false, 15).unwrap(), BundleSource::BuiltinV7);
    assert_eq!(resolve_bundle(false, 16).unwrap(), BundleSource::FromState);
    assert_eq!(resolve_bundle(true, 14).unwrap(), BundleSource::Provided);
    assert_eq!(resolve_bundle(false, 13).unwrap_err(), CreateError::MissingBuiltinBundle);
}

#[test]
fn execute_response_applied() {
    let outcome = EngineOutcome::Applied(AppliedMessage {
        exit_code: 0,
        gas_used: 42,
        penalty: (1u128 << 64) + 5,
        miner_tip: 7,
        return_data: vec![9, 9],
        exec_events: vec![call_event(), dispatch_error_return()],
        failure_info: None,
    });
    let r = build_execute_response(outcome);
    assert_eq!(r.status, ResponseStatus::Success);
    assert!(r.error_msg.is_none());
    assert_eq!(r.exit_code, 0);
    assert_eq!(r.gas_used, 42);
    assert_eq!((r.penalty_hi, r.penalty_lo), (1, 5));
    assert_eq!((r.miner_tip_hi, r.miner_tip_lo), (0, 7));
    assert_eq!(r.return_data, vec![9, 9]);
    let trace_bytes = r.trace.unwrap();
    let (frame, consumed) = decode_frame(&trace_bytes, 0).unwrap();
    assert_eq!(consumed, trace_bytes.len());
    assert_eq!(frame.receipt.exit_code, SYS_ASSERTION_FAILED);
}

#[test]
fn execute_response_zero_length_buffer_is_valid() {
    let outcome = EngineOutcome::Applied(AppliedMessage {
        exit_code: 33,
        gas_used: 1,
        penalty: 0,
        miner_tip: 0,
        return_data: Vec::new(),
        exec_events: Vec::new(),
        failure_info: None,
    });
    let r = build_execute_response(outcome);
    assert_eq!(r.status, ResponseStatus::Success);
    assert_eq!(r.return_data.len(), 0);
    assert!(r.trace.is_none());
    // Destroying the record with its zero-length buffer is a plain move.
    drop(r);
}

#[test]
fn execute_response_degrades_malformed_trace() {
    let outcome = EngineOutcome::Applied(AppliedMessage {
        exit_code: 0,
        gas_used: 1,
        penalty: 0,
        miner_tip: 0,
        return_data: vec![1],
        exec_events: vec![dispatch_error_return()],
        failure_info: Some(String::from("fault text")),
    });
    let r = build_execute_response(outcome);
    assert_eq!(r.status, ResponseStatus::Success);
    assert!(r.trace.is_none());
    assert_eq!(r.return_data, vec![1]);
    assert_eq!(r.failure_info.unwrap(), "fault text");
}

#[test]
fn execute_response_decode_failure() {
    let r = build_execute_response(EngineOutcome::DecodeFailed(String::from("bad bytes")));
    assert_eq!(r.status, ResponseStatus::ExecutionError);
    assert_eq!(r.error_msg.unwrap(), "bad bytes");
    assert!(r.trace.is_none());
}

#[test]
fn execute_response_engine_failure() {
    let r = build_execute_response(EngineOutcome::EngineFailed(String::from("engine fault")));
    assert_eq!(r.status, ResponseStatus::ExecutionError);
    assert_eq!(r.error_msg.unwrap(), "engine fault");
}

#[test]
fn flush_response_both_arms() {
    let ok = build_flush_response(Ok(vec![1, 2, 3]));
    assert_eq!(ok.status, ResponseStatus::Success);
    assert_eq!(ok.state_root, vec![1, 2, 3]);
    let err = build_flush_response(Err(String::from("commit failed")));
    assert_eq!(err.status, ResponseStatus::FlushError);
    assert_eq!(err.error_msg.unwrap(), "commit failed");
    assert_eq!(err.state_root.len(), 0);
}

#[test]
fn handle_table_lifecycle() {
    let mut table: HandleTable<u32> = HandleTable::new();
    let (i1, g1) = table.insert(100);
    let (i2, g2) = table.insert(200);
    assert_eq!(*table.get(i1, g1).unwrap(), 100);
    assert_eq!(*table.get(i2, g2).unwrap(), 200);
    // Destroy once: the value comes back; destroy twice: nothing.
    assert_eq!(table.remove(i1, g1), Some(100));
    assert_eq!(table.remove(i1, g1), None);
    assert!(table.get(i1, g1).is_none());
    // The slot is reused under a new generation; the old handle stays stale.
    let (i3, g3) = table.insert(300);
    assert_eq!(i3, i1);
    assert_ne!(g3, g1);
    assert!(table.get(i1, g1).is_none());
    assert_eq!(*table.get(i3, g3).unwrap(), 300);
    // A wrong generation is rejected outright.
    assert!(table.get(i2, g2 + 1).is_none());
    assert_eq!(table.remove(i2, g2 + 1), None);
    assert_eq!(*table.get(i2, g2).unwrap(), 200);
}

#[test]
fn decimal_rendering_exact() {
    assert_eq!(fvm_boundary::timing::decimal_string(0), "0");
    assert_eq!(fvm_boundary::timing::decimal_string(7), "7");
    assert_eq!(fvm_boundary::timing::decimal_string(90210), "90210");
    assert_eq!(fvm_boundary::timing::decimal_string(u64::MAX), "18446744073709551615");
}

#[test]
fn timing_line_exact() {
    let line = fvm_boundary::timing::timing_line("apply", 33, 1000, 250);
    assert_eq!(line, r#"{"type":"apply","epoch":33,"gas":1000,"time":250}"#);
    let flush = fvm_boundary::timing::timing_line("flush", 1, 0, 9);
    assert_eq!(flush, r#"{"type":"flush","epoch":1,"gas":0,"time":9}"#);
}
