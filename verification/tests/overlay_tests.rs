use runtime_host::{
    run, Config, RuntimeHostVm, Externality, ResumeValue, RootCalcProgress, CalcInput,
    TrieEntryVersion, TrieDiff, StorageNextKey, VmPrototype, VmResume,
};

fn start() -> VmResume {
    let cfg = Config {
        virtual_machine: VmPrototype { state_version: None },
        function_to_call: b"main".to_vec(),
        parameter: vec![],
        storage_main_trie_changes: TrieDiff::new(),
        offchain_storage_changes: TrieDiff::new(),
        max_log_level: 0,
    };
    match run(cfg) {
        RuntimeHostVm::VmResume(v) => v,
        _ => panic!("run must hand the machine its start value"),
    }
}

fn expect_vm(r: RuntimeHostVm) -> VmResume {
    match r {
        RuntimeHostVm::VmResume(v) => v,
        _ => panic!("expected an immediate resumption"),
    }
}

fn nibbles(bytes: &[u8]) -> Vec<u8> {
    let mut out = Vec::new();
    for b in bytes {
        out.push(b >> 4);
        out.push(b & 0x0F);
    }
    out
}

#[test]
fn diff_next_key_prefers_earlier_insertion() {
    let mut d = TrieDiff::new();
    d.diff_insert(vec![0x10], vec![0x01]);
    // The overlay write at 0x10 comes before the backing store's 0x20.
    let r = d.storage_next_key(&vec![0x00], Some(&vec![0x20]), false);
    match r {
        StorageNextKey::Found(Some(k)) => assert_eq!(k, vec![0x10]),
        _ => panic!("the overlay write must win"),
    }
}

#[test]
fn diff_next_key_reports_erased_backing_answer() {
    let mut d = TrieDiff::new();
    d.diff_insert_erase(vec![0x20]);
    let r = d.storage_next_key(&vec![0x00], Some(&vec![0x20]), false);
    match r {
        StorageNextKey::NextOf(k) => assert_eq!(k, vec![0x20]),
        _ => panic!("an erased backing answer must be reported"),
    }
}

#[test]
fn diff_next_key_confirms_clean_backing_answer() {
    let mut d = TrieDiff::new();
    d.diff_insert(vec![0x30], vec![0x01]);
    let r = d.storage_next_key(&vec![0x00], Some(&vec![0x20]), false);
    match r {
        StorageNextKey::Found(Some(k)) => assert_eq!(k, vec![0x20]),
        _ => panic!("an untouched backing answer stands"),
    }
}

#[test]
fn erased_key_reads_absent_and_next_key_skips_it() {
    // An erasure shadows the backing store: a read observes absent with no
    // yield, and a next-key answer naming the key is re-queried past it.
    let k = vec![0x6B];
    let vm = start();
    let vm = expect_vm(vm.inject_externality(Externality::StorageSet {
        key: k.clone(),
        value: None,
        main_trie: true,
    }));
    let vm = expect_vm(vm.inject_externality(Externality::StorageGet {
        key: k.clone(),
        main_trie: true,
    }));
    match vm.resume_value() {
        ResumeValue::StorageValue { value } => assert_eq!(value, &None),
        _ => panic!("an erased key reads as absent"),
    }
    let nk = match vm.inject_externality(Externality::StorageNextKey {
        key: vec![0x00],
        main_trie: true,
    }) {
        RuntimeHostVm::NextKey(nk) => nk,
        _ => panic!("a next-key query must yield"),
    };
    assert_eq!(nk.key(), nibbles(&[0x00]));
    // The backing store offers the erased key: the driver asks past it.
    let nk = match nk.inject_key(Some(nibbles(&k))) {
        RuntimeHostVm::NextKey(nk) => nk,
        _ => panic!("the erased key must be skipped"),
    };
    assert_eq!(nk.key(), nibbles(&k));
    // Nothing further in the backing store: there is no next key.
    let vm = expect_vm(nk.inject_key(None));
    match vm.resume_value() {
        ResumeValue::NextKey { key } => assert_eq!(key, &None),
        _ => panic!("the machine must learn there is no next key"),
    }
}

#[test]
fn inserted_key_wins_next_key_regardless_of_backing() {
    // A key newer than everything in the backing store is returned by a
    // next-key query even though the backing store knows nothing of it.
    let k = vec![0x50];
    let vm = start();
    let vm = expect_vm(vm.inject_externality(Externality::StorageSet {
        key: k.clone(),
        value: Some(vec![0x01]),
        main_trie: true,
    }));
    let nk = match vm.inject_externality(Externality::StorageNextKey {
        key: vec![0x10],
        main_trie: true,
    }) {
        RuntimeHostVm::NextKey(nk) => nk,
        _ => panic!("a next-key query must yield"),
    };
    // The backing store has nothing after 0x10.
    let vm = expect_vm(nk.inject_key(None));
    match vm.resume_value() {
        ResumeValue::NextKey { key } => assert_eq!(key, &Some(k.clone())),
        _ => panic!("the overlay insertion must be found"),
    }
    // The same with a backing answer after the insertion.
    let nk = match vm.inject_externality(Externality::StorageNextKey {
        key: vec![0x10],
        main_trie: true,
    }) {
        RuntimeHostVm::NextKey(nk) => nk,
        _ => panic!("a next-key query must yield"),
    };
    let vm = expect_vm(nk.inject_key(Some(nibbles(&[0x60]))));
    match vm.resume_value() {
        ResumeValue::NextKey { key } => assert_eq!(key, &Some(k)),
        _ => panic!("the overlay insertion must win"),
    }
}

#[test]
fn root_calculation_sub_protocol() {
    // The root sub-protocol: construction over a snapshot of the diff, a
    // descent query, the odd-nibble shortcut, a storage value, a declined
    // Merkle value, and the final root.
    let vm = start();
    let vm = expect_vm(vm.inject_externality(Externality::StorageSet {
        key: vec![0xAB],
        value: Some(vec![0x01]),
        main_trie: true,
    }));
    let calc = match vm.inject_externality(Externality::StorageRoot { main_trie: true }) {
        RuntimeHostVm::CalcResume(c) => c,
        _ => panic!("the root needs the calculator"),
    };
    match calc.input() {
        CalcInput::Start { diff, version, depth_hint } => {
            assert_eq!(diff.diff_get(&vec![0xAB]), Some(Some(vec![0x01])));
            assert_eq!(*version, TrieEntryVersion::V0);
            assert_eq!(*depth_hint, 16);
        }
        _ => panic!("a fresh calculator must be built"),
    }
    // A closest-descendant query becomes a next-key request with branch
    // nodes included and the query key as prefix.
    let nk = match calc.inject_progress(RootCalcProgress::ClosestDescendant {
        key: vec![0x0A],
    }) {
        RuntimeHostVm::NextKey(nk) => nk,
        _ => panic!("a descent query must yield"),
    };
    assert_eq!(nk.key(), vec![0x0A]);
    assert!(nk.or_equal());
    assert!(nk.branch_nodes());
    assert_eq!(nk.prefix(), vec![0x0A]);
    let calc = match nk.inject_key(Some(vec![0x0A, 0x0B])) {
        RuntimeHostVm::CalcResume(c) => c,
        _ => panic!("the answer goes straight to the calculator"),
    };
    match calc.input() {
        CalcInput::NextKey { key } => assert_eq!(key, &Some(vec![0x0A, 0x0B])),
        _ => panic!("the answer goes straight to the calculator"),
    }
    // A value request for an odd-nibble key is answered inside the driver.
    let calc = match calc.inject_progress(RootCalcProgress::StorageValue { key: vec![0x0A] }) {
        RuntimeHostVm::CalcResume(c) => c,
        _ => panic!("an odd-nibble key has no storage value"),
    };
    match calc.input() {
        CalcInput::StorageValue { value } => assert!(value.is_none()),
        _ => panic!("an odd-nibble key has no storage value"),
    }
    // A value request for an even-nibble key reaches the client, as bytes.
    let get = match calc.inject_progress(RootCalcProgress::StorageValue {
        key: vec![0x0A, 0x0B],
    }) {
        RuntimeHostVm::StorageGet(g) => g,
        _ => panic!("an even-nibble key needs the backing store"),
    };
    assert_eq!(get.key(), vec![0xAB]);
    let calc = match get.inject_value(Some((vec![0x01], TrieEntryVersion::V0))) {
        RuntimeHostVm::CalcResume(c) => c,
        _ => panic!("the value goes to the calculator"),
    };
    match calc.input() {
        CalcInput::StorageValue { value } => {
            assert_eq!(value, &Some((vec![0x01], TrieEntryVersion::V0)));
        }
        _ => panic!("the value goes to the calculator"),
    }
    // A Merkle-value request may be declined.
    let mv = match calc.inject_progress(RootCalcProgress::ClosestDescendantMerkleValue {
        key: vec![0x0A, 0x0B],
    }) {
        RuntimeHostVm::ClosestDescendantMerkleValue(m) => m,
        _ => panic!("a Merkle query must yield"),
    };
    assert_eq!(mv.key(), vec![0x0A, 0x0B]);
    let calc = match mv.resume_unknown() {
        RuntimeHostVm::CalcResume(c) => c,
        _ => panic!("declining goes back to the calculator"),
    };
    match calc.input() {
        CalcInput::MerkleValue { value } => assert!(value.is_none()),
        _ => panic!("declining goes back to the calculator"),
    }
    // The finished root resumes the machine and drops the calculator.
    let root = vec![0x42; 32];
    let vm = expect_vm(calc.inject_progress(RootCalcProgress::Finished { hash: root.clone() }));
    match vm.resume_value() {
        ResumeValue::Root { hash } => assert_eq!(hash, &Some(root)),
        _ => panic!("the machine must receive the root"),
    }
    // The diff is untouched by the whole sub-protocol.
    match vm.inject_externality(Externality::Finished { value: vec![] }) {
        RuntimeHostVm::Finished(Ok(success)) => {
            assert_eq!(
                success.storage_main_trie_changes.diff_get(&vec![0xAB]),
                Some(Some(vec![0x01]))
            );
        }
        _ => panic!("the call must finish"),
    }
}

#[test]
fn merkle_value_can_be_supplied() {
    let vm = start();
    let calc = match vm.inject_externality(Externality::StorageRoot { main_trie: true }) {
        RuntimeHostVm::CalcResume(c) => c,
        _ => panic!("the root needs the calculator"),
    };
    let mv = match calc.inject_progress(RootCalcProgress::ClosestDescendantMerkleValue {
        key: vec![0x01, 0x02],
    }) {
        RuntimeHostVm::ClosestDescendantMerkleValue(m) => m,
        _ => panic!("a Merkle query must yield"),
    };
    let calc = match mv.inject_merkle_value(vec![0x33; 32]) {
        RuntimeHostVm::CalcResume(c) => c,
        _ => panic!("the value goes to the calculator"),
    };
    match calc.input() {
        CalcInput::MerkleValue { value } => assert_eq!(value, &Some(vec![0x33; 32])),
        _ => panic!("the value goes to the calculator"),
    }
}

#[test]
fn repeated_writes_to_one_key_keep_the_last() {
    let mut d = TrieDiff::new();
    d.diff_insert(vec![0x01], vec![0xAA]);
    d.diff_insert(vec![0x01], vec![0xBB]);
    assert_eq!(d.diff_get(&vec![0x01]), Some(Some(vec![0xBB])));
    d.diff_insert_erase(vec![0x01]);
    assert_eq!(d.diff_get(&vec![0x01]), Some(None));
    d.diff_insert(vec![0x01], vec![0xCC]);
    assert_eq!(d.diff_get(&vec![0x01]), Some(Some(vec![0xCC])));
    assert!(!d.is_empty());
}

#[test]
fn overlay_write_survives_other_writes() {
    // A write is still observed after writes to other keys in between.
    let vm = start();
    let vm = expect_vm(vm.inject_externality(Externality::StorageSet {
        key: vec![0x01],
        value: Some(vec![0xAA]),
        main_trie: true,
    }));
    let vm = expect_vm(vm.inject_externality(Externality::StorageSet {
        key: vec![0x02],
        value: Some(vec![0xBB]),
        main_trie: true,
    }));
    let vm = expect_vm(vm.inject_externality(Externality::OffchainStorageSet {
        key: vec![0x01],
        value: Some(vec![0xCC]),
    }));
    let vm = expect_vm(vm.inject_externality(Externality::StorageGet {
        key: vec![0x01],
        main_trie: true,
    }));
    match vm.resume_value() {
        ResumeValue::StorageValue { value } => assert_eq!(value, &Some(vec![0xAA])),
        _ => panic!("the first write must still be observed"),
    }
}
