use runtime_host::{
    run, Config, RuntimeHostVm, Externality, ResumeValue, TrieEntryVersion, TrieDiff,
    VmPrototype, VmResume, ErrorDetail,
};

fn config() -> Config {
    Config {
        virtual_machine: VmPrototype { state_version: None },
        function_to_call: b"main".to_vec(),
        parameter: vec![b"ab".to_vec(), b"cd".to_vec()],
        storage_main_trie_changes: TrieDiff::new(),
        offchain_storage_changes: TrieDiff::new(),
        max_log_level: 3,
    }
}

fn start() -> VmResume {
    match run(config()) {
        RuntimeHostVm::VmResume(v) => v,
        _ => panic!("run must hand the machine its start value"),
    }
}

fn expect_vm(r: RuntimeHostVm) -> VmResume {
    match r {
        RuntimeHostVm::VmResume(v) => v,
        _ => panic!("expected an immediate resumption"),
    }
}

fn nibbles(bytes: &[u8]) -> Vec<u8> {
    let mut out = Vec::new();
    for b in bytes {
        out.push(b >> 4);
        out.push(b & 0x0F);
    }
    out
}

#[test]
fn start_concatenates_parameter() {
    let vm = start();
    match vm.resume_value() {
        ResumeValue::Start { function, parameter } => {
            assert_eq!(function, &b"main".to_vec());
            assert_eq!(parameter, &b"abcd".to_vec());
        }
        _ => panic!("the first resume value must start the call"),
    }
}

#[test]
fn get_set_get_observes_overlay() {
    // E1: a write is observed by a later read with no storage yield.
    let vm = start();
    let vm = expect_vm(vm.inject_externality(Externality::StorageSet {
        key: vec![0x01],
        value: Some(vec![0xAA]),
        main_trie: true,
    }));
    assert!(matches!(vm.resume_value(), ResumeValue::Ready));
    let vm = expect_vm(vm.inject_externality(Externality::StorageGet {
        key: vec![0x01],
        main_trie: true,
    }));
    match vm.resume_value() {
        ResumeValue::StorageValue { value } => assert_eq!(value, &Some(vec![0xAA])),
        _ => panic!("the overlay must answer the read"),
    }
    match vm.inject_externality(Externality::Finished { value: vec![0x07] }) {
        RuntimeHostVm::Finished(Ok(success)) => {
            assert_eq!(success.virtual_machine.value(), &vec![0x07]);
            assert_eq!(
                success.storage_main_trie_changes.diff_get(&vec![0x01]),
                Some(Some(vec![0xAA]))
            );
            assert_eq!(success.state_trie_version, TrieEntryVersion::V0);
            let proto = success.virtual_machine.into_prototype();
            assert_eq!(proto, VmPrototype { state_version: None });
        }
        _ => panic!("the call must finish"),
    }
}

#[test]
fn get_through_overlay_miss() {
    // E2: a read the overlay cannot answer yields, and reads do not dirty.
    let vm = start();
    let get = match vm.inject_externality(Externality::StorageGet {
        key: vec![0x02],
        main_trie: true,
    }) {
        RuntimeHostVm::StorageGet(g) => g,
        _ => panic!("an overlay miss must yield"),
    };
    assert_eq!(get.key(), vec![0x02]);
    let vm = expect_vm(get.inject_value(Some((vec![0xBB], TrieEntryVersion::V0))));
    match vm.resume_value() {
        ResumeValue::StorageValue { value } => assert_eq!(value, &Some(vec![0xBB])),
        _ => panic!("the injected value must reach the machine"),
    }
    match vm.inject_externality(Externality::Finished { value: vec![] }) {
        RuntimeHostVm::Finished(Ok(success)) => {
            assert!(success.storage_main_trie_changes.is_empty());
        }
        _ => panic!("the call must finish"),
    }
}

#[test]
fn append_from_empty() {
    // E3: appending to an absent value stores a one-element sequence.
    let vm = start();
    let get = match vm.inject_externality(Externality::StorageAppend {
        key: vec![0x6B],
        value: vec![0x01],
        main_trie: true,
    }) {
        RuntimeHostVm::StorageGet(g) => g,
        _ => panic!("appending over an unknown value must ask for it"),
    };
    assert_eq!(get.key(), vec![0x6B]);
    let vm = expect_vm(get.inject_value(None));
    assert!(matches!(vm.resume_value(), ResumeValue::Ready));
    match vm.inject_externality(Externality::Finished { value: vec![] }) {
        RuntimeHostVm::Finished(Ok(success)) => {
            assert_eq!(
                success.storage_main_trie_changes.diff_get(&vec![0x6B]),
                Some(Some(vec![0x04, 0x01]))
            );
        }
        _ => panic!("the call must finish"),
    }
}

#[test]
fn append_over_overlay_hit() {
    // An append over a value the overlay already holds stays inside the
    // driver, including across the width boundary of the count.
    let mut stored = vec![0xFC];
    stored.extend(std::iter::repeat(0x11).take(63));
    let vm = start();
    let vm = expect_vm(vm.inject_externality(Externality::StorageSet {
        key: vec![0x6B],
        value: Some(stored.clone()),
        main_trie: true,
    }));
    let vm = expect_vm(vm.inject_externality(Externality::StorageAppend {
        key: vec![0x6B],
        value: vec![0x22],
        main_trie: true,
    }));
    assert!(matches!(vm.resume_value(), ResumeValue::Ready));
    match vm.inject_externality(Externality::Finished { value: vec![] }) {
        RuntimeHostVm::Finished(Ok(success)) => {
            let mut expected = vec![0x01, 0x01];
            expected.extend(std::iter::repeat(0x11).take(63));
            expected.push(0x22);
            assert_eq!(
                success.storage_main_trie_changes.diff_get(&vec![0x6B]),
                Some(Some(expected))
            );
        }
        _ => panic!("the call must finish"),
    }
}

#[test]
fn transaction_rollback_drops_writes() {
    // E5: Start; Set; End { rollback } leaves the diff empty.
    let vm = start();
    let vm = expect_vm(vm.inject_externality(Externality::StartStorageTransaction));
    let vm = expect_vm(vm.inject_externality(Externality::StorageSet {
        key: vec![0x6B],
        value: Some(vec![0x41]),
        main_trie: true,
    }));
    let vm = expect_vm(vm.inject_externality(Externality::EndStorageTransaction {
        rollback: true,
    }));
    match vm.inject_externality(Externality::Finished { value: vec![] }) {
        RuntimeHostVm::Finished(Ok(success)) => {
            assert!(success.storage_main_trie_changes.is_empty());
        }
        _ => panic!("the call must finish"),
    }
}

#[test]
fn transaction_commit_keeps_writes() {
    let vm = start();
    let vm = expect_vm(vm.inject_externality(Externality::StartStorageTransaction));
    let vm = expect_vm(vm.inject_externality(Externality::StorageSet {
        key: vec![0x6B],
        value: Some(vec![0x41]),
        main_trie: true,
    }));
    let vm = expect_vm(vm.inject_externality(Externality::EndStorageTransaction {
        rollback: false,
    }));
    match vm.inject_externality(Externality::Finished { value: vec![] }) {
        RuntimeHostVm::Finished(Ok(success)) => {
            assert_eq!(
                success.storage_main_trie_changes.diff_get(&vec![0x6B]),
                Some(Some(vec![0x41]))
            );
        }
        _ => panic!("the call must finish"),
    }
}

#[test]
fn nested_rollback_leaves_outer_intact() {
    // An inner rollback undoes the inner writes only.
    let vm = start();
    let vm = expect_vm(vm.inject_externality(Externality::StartStorageTransaction));
    let vm = expect_vm(vm.inject_externality(Externality::StorageSet {
        key: vec![0x61],
        value: Some(vec![0x01]),
        main_trie: true,
    }));
    let vm = expect_vm(vm.inject_externality(Externality::StartStorageTransaction));
    let vm = expect_vm(vm.inject_externality(Externality::StorageSet {
        key: vec![0x62],
        value: Some(vec![0x02]),
        main_trie: true,
    }));
    let vm = expect_vm(vm.inject_externality(Externality::EndStorageTransaction {
        rollback: true,
    }));
    let vm = expect_vm(vm.inject_externality(Externality::EndStorageTransaction {
        rollback: false,
    }));
    match vm.inject_externality(Externality::Finished { value: vec![] }) {
        RuntimeHostVm::Finished(Ok(success)) => {
            assert_eq!(
                success.storage_main_trie_changes.diff_get(&vec![0x61]),
                Some(Some(vec![0x01]))
            );
            assert_eq!(success.storage_main_trie_changes.diff_get(&vec![0x62]), None);
        }
        _ => panic!("the call must finish"),
    }
}

#[test]
fn clear_prefix_with_cap() {
    // E6: four backing keys match the prefix, the cap is two: three next-key
    // yields, two erasures, and a resumption of (2, all_done).
    let p = vec![0x70];
    let p0 = vec![0x70, 0x30];
    let p1 = vec![0x70, 0x31];
    let p2 = vec![0x70, 0x32];
    let vm = start();
    let nk = match vm.inject_externality(Externality::StorageClearPrefix {
        prefix: p.clone(),
        max_keys_to_remove: Some(2),
        main_trie: true,
    }) {
        RuntimeHostVm::NextKey(nk) => nk,
        _ => panic!("clearing a prefix must ask for the first key"),
    };
    assert_eq!(nk.key(), nibbles(&p));
    assert!(nk.or_equal());
    assert!(!nk.branch_nodes());
    assert_eq!(nk.prefix(), nibbles(&p));
    let nk = match nk.inject_key(Some(nibbles(&p0))) {
        RuntimeHostVm::NextKey(nk) => nk,
        _ => panic!("below the cap the iteration continues"),
    };
    assert_eq!(nk.key(), nibbles(&p0));
    assert!(!nk.or_equal());
    let nk = match nk.inject_key(Some(nibbles(&p1))) {
        RuntimeHostVm::NextKey(nk) => nk,
        _ => panic!("below the cap the iteration continues"),
    };
    assert_eq!(nk.key(), nibbles(&p1));
    let vm = expect_vm(nk.inject_key(Some(nibbles(&p2))));
    match vm.resume_value() {
        ResumeValue::ClearedPrefix { keys_removed, all_done } => {
            assert_eq!(*keys_removed, 2);
            assert!(*all_done);
        }
        _ => panic!("the machine must learn the outcome"),
    }
    match vm.inject_externality(Externality::Finished { value: vec![] }) {
        RuntimeHostVm::Finished(Ok(success)) => {
            assert_eq!(success.storage_main_trie_changes.diff_get(&p0), Some(None));
            assert_eq!(success.storage_main_trie_changes.diff_get(&p1), Some(None));
            assert_eq!(success.storage_main_trie_changes.diff_get(&p2), None);
        }
        _ => panic!("the call must finish"),
    }
}

#[test]
fn clear_prefix_exhausted_reports_not_done() {
    // When the backing store runs out of matching keys before the cap, the
    // machine learns (removed, all_done = false).
    let p = vec![0x70];
    let p0 = vec![0x70, 0x30];
    let vm = start();
    let nk = match vm.inject_externality(Externality::StorageClearPrefix {
        prefix: p.clone(),
        max_keys_to_remove: Some(5),
        main_trie: true,
    }) {
        RuntimeHostVm::NextKey(nk) => nk,
        _ => panic!("clearing a prefix must ask for the first key"),
    };
    let nk = match nk.inject_key(Some(nibbles(&p0))) {
        RuntimeHostVm::NextKey(nk) => nk,
        _ => panic!("below the cap the iteration continues"),
    };
    let vm = expect_vm(nk.inject_key(None));
    match vm.resume_value() {
        ResumeValue::ClearedPrefix { keys_removed, all_done } => {
            assert_eq!(*keys_removed, 1);
            assert!(!*all_done);
        }
        _ => panic!("the machine must learn the outcome"),
    }
}

#[test]
fn log_overflow_terminates() {
    // E7: 1024 messages of 2048 bytes pass the 1 MiB ceiling; the driver
    // terminates with `LogsTooLong` and hands the prototype back.
    let mut vm = start();
    let mut emitted = 0usize;
    loop {
        assert!(emitted < 1024, "the ceiling must hit before 1024 messages");
        match vm.inject_externality(Externality::LogEmit { message: vec![0x61; 2048] }) {
            RuntimeHostVm::VmResume(v) => {
                vm = v;
                emitted += 1;
            }
            RuntimeHostVm::Finished(Err(err)) => {
                assert!(matches!(err.detail, ErrorDetail::LogsTooLong));
                assert_eq!(err.prototype, VmPrototype { state_version: None });
                // Everything accepted so far stays below the ceiling.
                assert!(emitted * 2048 < 0x10_0000);
                assert_eq!(emitted, 511);
                break;
            }
            _ => panic!("a log message needs nothing from the client"),
        }
    }
}

#[test]
fn log_cap_is_exact() {
    // A message that fills the buffer to one byte below the ceiling is
    // taken whole; one more byte is refused.
    let vm = start();
    let vm = expect_vm(vm.inject_externality(Externality::LogEmit {
        message: vec![0x61; 0x10_0000 - 1],
    }));
    match vm.inject_externality(Externality::LogEmit { message: vec![0x62] }) {
        RuntimeHostVm::Finished(Err(err)) => {
            assert!(matches!(err.detail, ErrorDetail::LogsTooLong));
        }
        _ => panic!("the ceiling must refuse the next byte"),
    }
}

#[test]
fn vm_fault_surfaces_logs() {
    let vm = start();
    let vm = expect_vm(vm.inject_externality(Externality::LogEmit {
        message: b"boom incoming".to_vec(),
    }));
    match vm.inject_externality(Externality::Error { message: b"trap".to_vec() }) {
        RuntimeHostVm::Finished(Err(err)) => match err.detail {
            ErrorDetail::WasmVm { error, logs } => {
                assert_eq!(error, b"trap".to_vec());
                assert_eq!(logs, b"boom incoming".to_vec());
            }
            _ => panic!("a machine fault must carry the logs"),
        },
        _ => panic!("a machine fault is terminal"),
    }
}

#[test]
fn child_trie_calls_are_stubbed() {
    let vm = start();
    let vm = expect_vm(vm.inject_externality(Externality::StorageGet {
        key: vec![0x01],
        main_trie: false,
    }));
    assert!(matches!(
        vm.resume_value(),
        ResumeValue::StorageValue { value: None }
    ));
    let vm = expect_vm(vm.inject_externality(Externality::StorageSet {
        key: vec![0x01],
        value: Some(vec![0x02]),
        main_trie: false,
    }));
    assert!(matches!(vm.resume_value(), ResumeValue::Ready));
    let vm = expect_vm(vm.inject_externality(Externality::StorageRoot { main_trie: false }));
    assert!(matches!(vm.resume_value(), ResumeValue::Root { hash: None }));
    let vm = expect_vm(vm.inject_externality(Externality::StorageClearPrefix {
        prefix: vec![0x01],
        max_keys_to_remove: None,
        main_trie: false,
    }));
    assert!(matches!(
        vm.resume_value(),
        ResumeValue::ClearedPrefix { keys_removed: 0, all_done: false }
    ));
    match vm.inject_externality(Externality::Finished { value: vec![] }) {
        RuntimeHostVm::Finished(Ok(success)) => {
            assert!(success.storage_main_trie_changes.is_empty());
        }
        _ => panic!("the call must finish"),
    }
}

#[test]
fn max_log_level_and_runtime_version_forwarded() {
    let vm = start();
    let vm = expect_vm(vm.inject_externality(Externality::GetMaxLogLevel));
    assert!(matches!(vm.resume_value(), ResumeValue::MaxLogLevel { level: 3 }));
    let vm = expect_vm(vm.inject_externality(Externality::CallRuntimeVersion {
        version: Some(vec![0x09]),
    }));
    match vm.resume_value() {
        ResumeValue::RuntimeVersion { version } => assert_eq!(version, &Some(vec![0x09])),
        _ => panic!("the compiled version must be forwarded"),
    }
    let vm = expect_vm(vm.inject_externality(Externality::CallRuntimeVersion { version: None }));
    assert!(matches!(
        vm.resume_value(),
        ResumeValue::RuntimeVersion { version: None }
    ));
}

#[test]
fn signature_verification_forwards_verdict() {
    let vm = start();
    let sig = match vm.inject_externality(Externality::SignatureVerification {
        message: b"msg".to_vec(),
        signature: vec![0x05; 64],
        public_key: vec![0x06; 32],
        valid: true,
    }) {
        RuntimeHostVm::SignatureVerification(s) => s,
        _ => panic!("a signature check must yield"),
    };
    assert_eq!(sig.message(), &b"msg".to_vec());
    assert_eq!(sig.signature(), &vec![0x05; 64]);
    assert_eq!(sig.public_key(), &vec![0x06; 32]);
    assert!(sig.is_valid());
    let vm = expect_vm(sig.verify_and_resume());
    assert!(matches!(
        vm.resume_value(),
        ResumeValue::SignatureValid { valid: true }
    ));
    // The debugging paths override the verdict.
    let sig = match vm.inject_externality(Externality::SignatureVerification {
        message: b"msg".to_vec(),
        signature: vec![0x05; 64],
        public_key: vec![0x06; 32],
        valid: true,
    }) {
        RuntimeHostVm::SignatureVerification(s) => s,
        _ => panic!("a signature check must yield"),
    };
    let vm = expect_vm(sig.resume_failed());
    assert!(matches!(
        vm.resume_value(),
        ResumeValue::SignatureValid { valid: false }
    ));
}

#[test]
fn offchain_changes_are_kept_apart() {
    let vm = start();
    let vm = expect_vm(vm.inject_externality(Externality::OffchainStorageSet {
        key: vec![0x01],
        value: Some(vec![0x02]),
    }));
    let vm = expect_vm(vm.inject_externality(Externality::OffchainStorageSet {
        key: vec![0x03],
        value: None,
    }));
    match vm.inject_externality(Externality::Finished { value: vec![] }) {
        RuntimeHostVm::Finished(Ok(success)) => {
            assert!(success.storage_main_trie_changes.is_empty());
            assert_eq!(
                success.offchain_storage_changes.diff_get(&vec![0x01]),
                Some(Some(vec![0x02]))
            );
            assert_eq!(success.offchain_storage_changes.diff_get(&vec![0x03]), Some(None));
        }
        _ => panic!("the call must finish"),
    }
}

#[test]
fn cancellation_returns_prototype_from_any_state() {
    // From the initial suspension.
    let proto = VmPrototype { state_version: Some(TrieEntryVersion::V1) };
    let mut cfg = config();
    cfg.virtual_machine = proto;
    let status = run(cfg);
    assert_eq!(status.into_prototype(), proto);

    // From a storage suspension.
    let vm = start();
    let status = vm.inject_externality(Externality::StorageGet {
        key: vec![0x02],
        main_trie: true,
    });
    assert_eq!(status.into_prototype(), VmPrototype { state_version: None });

    // From a finished state.
    let vm = start();
    let status = vm.inject_externality(Externality::Finished { value: vec![] });
    assert_eq!(status.into_prototype(), VmPrototype { state_version: None });
}

#[test]
fn declared_state_version_is_used() {
    let mut cfg = config();
    cfg.virtual_machine = VmPrototype { state_version: Some(TrieEntryVersion::V1) };
    let vm = match run(cfg) {
        RuntimeHostVm::VmResume(v) => v,
        _ => panic!("run must hand the machine its start value"),
    };
    match vm.inject_externality(Externality::Finished { value: vec![] }) {
        RuntimeHostVm::Finished(Ok(success)) => {
            assert_eq!(success.state_trie_version, TrieEntryVersion::V1);
        }
        _ => panic!("the call must finish"),
    }
}
