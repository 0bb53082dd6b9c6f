//! The suspension state machine that drives a call to completion.
//!
//! The driver consumes the virtual machine's host calls one by one. Most it
//! answers itself, from the storage overlay, the transaction stack, the log
//! buffer, or the configured log level; the rest it turns into a typed
//! suspension handle through which the environment supplies backing-store
//! data, a Merkle value, or a signature verdict. Every public step is
//! specified against a ghost [`DriverModel`] and the transition functions
//! [`ext_step_spec`], [`inject_value_spec`], [`inject_key_ok`] and
//! [`inject_progress_spec`].

use vstd::prelude::*;
use vstd::pervasive::unreached;
use crate::diff::{TrieDiff, StorageNextKey, NextKeyOutcome, next_key_result_ok, nk_view};
use crate::events::{Externality, ResumeValue, ResumeModel, RootCalcProgress, CalcInput,
    CalcInputModel, TrieEntryVersion, VmPrototype, VmState, resume_view, calc_input_view,
    opt_bytes_view};
use crate::nibbles::{nibbles_of, bytes_of_nibbles, valid_nibbles, bytes_to_nibbles,
    nibbles_to_bytes, lemma_nibble_lex};
use crate::bytes_order::{lex_lt, lex_le, is_prefix, copy_bytes};
use crate::append::{appended_value, append_to_storage_value, push_all};

verus! {

/// The driver's whole state, as mathematics.
pub ghost struct DriverModel {
    /// The externality the virtual machine is parked in.
    pub vm: VmState,
    /// The pending main-trie changes.
    pub diff: Map<Seq<u8>, Option<Seq<u8>>>,
    /// The stack of transaction snapshots, oldest first.
    pub stack: Seq<Map<Seq<u8>, Option<Seq<u8>>>>,
    /// The pending off-chain changes.
    pub offchain: Map<Seq<u8>, Option<Seq<u8>>>,
    /// The state-trie version every write carries.
    pub version: TrieEntryVersion,
    /// The root calculation in flight, if any.
    pub root_calc: Option<RootCalcProgress>,
    /// The accumulated log bytes.
    pub logs: Seq<u8>,
    /// The log level exposed to the runtime.
    pub max_log_level: u32,
    /// The prototype handed back on completion or cancellation.
    pub prototype: VmPrototype,
}

/// What a driver step produced, as mathematics.
pub ghost enum StatusModel {
    /// The call finished; these are the pieces of the [`Success`].
    Done {
        value: Seq<u8>,
        diff: Map<Seq<u8>, Option<Seq<u8>>>,
        version: TrieEntryVersion,
        offchain: Map<Seq<u8>, Option<Seq<u8>>>,
        logs: Seq<u8>,
        prototype: VmPrototype,
    },
    /// The virtual machine faulted.
    VmFault { message: Seq<u8>, logs: Seq<u8>, prototype: VmPrototype },
    /// The log buffer would have reached its ceiling.
    LogsOverflow { prototype: VmPrototype },
    /// Resume the virtual machine with this value and hand back its next host call.
    ToVm { state: DriverModel, resume: ResumeModel },
    /// A storage value is needed.
    NeedValue { state: DriverModel },
    /// A next key is needed.
    NeedKey { state: DriverModel, key_overwrite: Option<Seq<u8>>, keys_removed: u32 },
    /// A closest-descendant Merkle value is needed.
    NeedMerkle { state: DriverModel },
    /// A signature verdict is needed.
    NeedSignature { state: DriverModel },
    /// Feed this input to the root calculator and hand back its next progress.
    ToCalc { state: DriverModel, input: CalcInputModel },
}

/// The prototype a status carries, whatever its kind.
pub open spec fn status_prototype(s: StatusModel) -> VmPrototype {
    match s {
        StatusModel::Done { prototype, .. } => prototype,
        StatusModel::VmFault { prototype, .. } => prototype,
        StatusModel::LogsOverflow { prototype } => prototype,
        StatusModel::ToVm { state, .. } => state.prototype,
        StatusModel::NeedValue { state } => state.prototype,
        StatusModel::NeedKey { state, .. } => state.prototype,
        StatusModel::NeedMerkle { state } => state.prototype,
        StatusModel::NeedSignature { state } => state.prototype,
        StatusModel::ToCalc { state, .. } => state.prototype,
    }
}

/// How the driver resolves one host call of the virtual machine.
///
/// Defined for a driver whose machine is ready to run and whose root
/// calculator is idle.
pub open spec fn ext_step_spec(pre: DriverModel, ext: Externality) -> StatusModel {
    match ext {
        Externality::Finished { value } => StatusModel::Done {
            value: value@,
            diff: pre.diff,
            version: pre.version,
            offchain: pre.offchain,
            logs: pre.logs,
            prototype: pre.prototype,
        },
        Externality::Error { message } => StatusModel::VmFault {
            message: message@,
            logs: pre.logs,
            prototype: pre.prototype,
        },
        Externality::StorageGet { key, main_trie } => {
            if !main_trie {
                StatusModel::ToVm {
                    state: pre,
                    resume: ResumeModel::StorageValue { value: None },
                }
            } else if pre.diff.contains_key(key@) {
                StatusModel::ToVm {
                    state: pre,
                    resume: ResumeModel::StorageValue { value: pre.diff[key@] },
                }
            } else {
                StatusModel::NeedValue {
                    state: DriverModel { vm: VmState::StorageGet { key }, ..pre },
                }
            }
        },
        Externality::StorageSet { key, value, main_trie } => {
            if !main_trie {
                StatusModel::ToVm { state: pre, resume: ResumeModel::Ready }
            } else {
                StatusModel::ToVm {
                    state: DriverModel {
                        diff: pre.diff.insert(key@, opt_bytes_view(value)),
                        ..pre
                    },
                    resume: ResumeModel::Ready,
                }
            }
        },
        Externality::StorageAppend { key, value, main_trie } => {
            if !main_trie {
                StatusModel::ToVm { state: pre, resume: ResumeModel::Ready }
            } else if pre.diff.contains_key(key@) {
                let cur = match pre.diff[key@] {
                    Some(v) => v,
                    None => Seq::empty(),
                };
                StatusModel::ToVm {
                    state: DriverModel {
                        diff: pre.diff.insert(key@, Some(appended_value(cur, value@))),
                        ..pre
                    },
                    resume: ResumeModel::Ready,
                }
            } else {
                StatusModel::NeedValue {
                    state: DriverModel { vm: VmState::StorageAppend { key, value }, ..pre },
                }
            }
        },
        Externality::StorageClearPrefix { prefix, max_keys_to_remove, main_trie } => {
            if !main_trie {
                StatusModel::ToVm {
                    state: pre,
                    resume: ResumeModel::ClearedPrefix { keys_removed: 0, all_done: false },
                }
            } else {
                StatusModel::NeedKey {
                    state: DriverModel {
                        vm: VmState::StorageClearPrefix { prefix, max_keys_to_remove },
                        ..pre
                    },
                    key_overwrite: Some(prefix@),
                    keys_removed: 0,
                }
            }
        },
        Externality::StorageRoot { main_trie } => {
            if !main_trie {
                StatusModel::ToVm { state: pre, resume: ResumeModel::Root { hash: None } }
            } else {
                StatusModel::ToCalc {
                    state: DriverModel { vm: VmState::StorageRoot, ..pre },
                    input: CalcInputModel::Start {
                        diff: pre.diff,
                        version: pre.version,
                        depth_hint: 16,
                    },
                }
            }
        },
        Externality::StorageNextKey { key, main_trie } => {
            if !main_trie {
                StatusModel::ToVm { state: pre, resume: ResumeModel::NextKey { key: None } }
            } else {
                StatusModel::NeedKey {
                    state: DriverModel { vm: VmState::StorageNextKey { key }, ..pre },
                    key_overwrite: None,
                    keys_removed: 0,
                }
            }
        },
        Externality::OffchainStorageSet { key, value } => StatusModel::ToVm {
            state: DriverModel {
                offchain: pre.offchain.insert(key@, opt_bytes_view(value)),
                ..pre
            },
            resume: ResumeModel::Ready,
        },
        Externality::SignatureVerification { message, signature, public_key, valid } => {
            StatusModel::NeedSignature {
                state: DriverModel {
                    vm: VmState::SignatureVerification { message, signature, public_key, valid },
                    ..pre
                },
            }
        },
        Externality::CallRuntimeVersion { version } => StatusModel::ToVm {
            state: pre,
            resume: ResumeModel::RuntimeVersion { version: opt_bytes_view(version) },
        },
        Externality::StartStorageTransaction => StatusModel::ToVm {
            state: DriverModel { stack: pre.stack.push(pre.diff), ..pre },
            resume: ResumeModel::Ready,
        },
        Externality::EndStorageTransaction { rollback } => {
            if pre.stack.len() == 0 {
                StatusModel::ToVm { state: pre, resume: ResumeModel::Ready }
            } else {
                StatusModel::ToVm {
                    state: DriverModel {
                        diff: if rollback {
                            pre.stack.last()
                        } else {
                            pre.diff
                        },
                        stack: pre.stack.drop_last(),
                        ..pre
                    },
                    resume: ResumeModel::Ready,
                }
            }
        },
        Externality::GetMaxLogLevel => StatusModel::ToVm {
            state: pre,
            resume: ResumeModel::MaxLogLevel { level: pre.max_log_level },
        },
        Externality::LogEmit { message } => {
            if pre.logs.len() + message@.len() >= 0x10_0000 {
                StatusModel::LogsOverflow { prototype: pre.prototype }
            } else {
                StatusModel::ToVm {
                    state: DriverModel { logs: pre.logs + message@, ..pre },
                    resume: ResumeModel::Ready,
                }
            }
        },
    }
}

/// How the driver resolves an injected storage value.
pub open spec fn inject_value_spec(
    pre: DriverModel,
    value: Option<(Seq<u8>, TrieEntryVersion)>,
) -> StatusModel {
    match pre.vm {
        VmState::StorageGet { key } => StatusModel::ToVm {
            state: DriverModel { vm: VmState::ReadyToRun, ..pre },
            resume: ResumeModel::StorageValue {
                value: match value {
                    Some(v) => Some(v.0),
                    None => None,
                },
            },
        },
        VmState::StorageAppend { key, value: elem } => {
            let cur = match value {
                Some(v) => v.0,
                None => Seq::empty(),
            };
            StatusModel::ToVm {
                state: DriverModel {
                    vm: VmState::ReadyToRun,
                    diff: pre.diff.insert(key@, Some(appended_value(cur, elem@))),
                    ..pre
                },
                resume: ResumeModel::Ready,
            }
        },
        VmState::StorageRoot => StatusModel::ToCalc {
            state: DriverModel { root_calc: None, ..pre },
            input: CalcInputModel::StorageValue { value },
        },
        _ => StatusModel::ToVm { state: pre, resume: ResumeModel::Ready },
    }
}

/// One admissible resolution of a next-key answer: the overlay search over
/// `req` and the backing answer produced `out`, and `r` acts on it.
pub open spec fn nk_matches(
    pre: DriverModel,
    req: Seq<u8>,
    ans: Option<Seq<u8>>,
    out: NextKeyOutcome,
    r: StatusModel,
) -> bool {
    &&& next_key_result_ok(pre.diff, req, ans, false, out)
    &&& match out {
        NextKeyOutcome::Found(k) => r == StatusModel::ToVm {
            state: DriverModel { vm: VmState::ReadyToRun, ..pre },
            resume: ResumeModel::NextKey { key: k },
        },
        NextKeyOutcome::NextOf(n) => r == StatusModel::NeedKey {
            state: pre,
            key_overwrite: Some(n),
            keys_removed: 0,
        },
    }
}

/// `r` acts on some admissible outcome of the overlay's next-key search.
pub open spec fn next_key_step_ok(
    pre: DriverModel,
    req: Seq<u8>,
    ans: Option<Seq<u8>>,
    r: StatusModel,
) -> bool {
    exists|out: NextKeyOutcome| #[trigger] nk_matches(pre, req, ans, out, r)
}

/// What resolving an injected next key may produce.
///
/// `key_overwrite` and `keys_removed` are the handle's own state; `answer`
/// is the client's nibble-level answer.
pub open spec fn inject_key_ok(
    pre: DriverModel,
    key_overwrite: Option<Seq<u8>>,
    keys_removed: u32,
    answer: Option<Seq<u8>>,
    r: StatusModel,
) -> bool {
    match pre.vm {
        VmState::StorageNextKey { key } => {
            let req = match key_overwrite {
                Some(k) => k,
                None => key@,
            };
            let answer_bytes = match answer {
                Some(a) => Some(bytes_of_nibbles(a)),
                None => None,
            };
            next_key_step_ok(pre, req, answer_bytes, r)
        },
        VmState::StorageClearPrefix { prefix, max_keys_to_remove } => {
            match answer {
                None => r == StatusModel::ToVm {
                    state: DriverModel { vm: VmState::ReadyToRun, ..pre },
                    resume: ResumeModel::ClearedPrefix { keys_removed, all_done: false },
                },
                Some(a) => {
                    let kb = bytes_of_nibbles(a);
                    if match max_keys_to_remove {
                        Some(m) => keys_removed >= m,
                        None => false,
                    } {
                        r == StatusModel::ToVm {
                            state: DriverModel { vm: VmState::ReadyToRun, ..pre },
                            resume: ResumeModel::ClearedPrefix { keys_removed, all_done: true },
                        }
                    } else {
                        r == StatusModel::NeedKey {
                            state: DriverModel { diff: pre.diff.insert(kb, None), ..pre },
                            key_overwrite: Some(kb),
                            keys_removed: (keys_removed + 1) as u32,
                        }
                    }
                },
            }
        },
        VmState::StorageRoot => r == StatusModel::ToCalc {
            state: DriverModel { root_calc: None, ..pre },
            input: CalcInputModel::NextKey { key: answer },
        },
        _ => true,
    }
}

/// How the driver resolves the root calculator's next progress report.
pub open spec fn inject_progress_spec(pre: DriverModel, p: RootCalcProgress) -> StatusModel {
    match p {
        RootCalcProgress::ClosestDescendant { key } => StatusModel::NeedKey {
            state: DriverModel { root_calc: Some(p), ..pre },
            key_overwrite: None,
            keys_removed: 0,
        },
        RootCalcProgress::StorageValue { key } => {
            if key@.len() % 2 == 0 {
                StatusModel::NeedValue { state: DriverModel { root_calc: Some(p), ..pre } }
            } else {
                // A key of an odd number of nibbles can hold no storage value.
                StatusModel::ToCalc {
                    state: pre,
                    input: CalcInputModel::StorageValue { value: None },
                }
            }
        },
        RootCalcProgress::ClosestDescendantMerkleValue { key } => StatusModel::NeedMerkle {
            state: DriverModel { root_calc: Some(p), ..pre },
        },
        RootCalcProgress::Finished { hash } => StatusModel::ToVm {
            state: DriverModel { vm: VmState::ReadyToRun, root_calc: None, ..pre },
            resume: ResumeModel::Root { hash: Some(hash@) },
        },
    }
}

/// The views of a stack of diff snapshots.
pub open spec fn stack_model(s: Seq<TrieDiff>) -> Seq<Map<Seq<u8>, Option<Seq<u8>>>> {
    s.map_values(|d: TrieDiff| d@)
}

/// Shared state of every suspended driver.
struct Inner {
    vm: VmState,
    main_trie_changes: TrieDiff,
    main_trie_transaction: Vec<TrieDiff>,
    state_trie_version: TrieEntryVersion,
    offchain_storage_changes: TrieDiff,
    root_calculation: Option<RootCalcProgress>,
    logs: Vec<u8>,
    max_log_level: u32,
    prototype: VmPrototype,
}

impl Inner {
    spec fn model(&self) -> DriverModel {
        DriverModel {
            vm: self.vm,
            diff: self.main_trie_changes@,
            stack: stack_model(self.main_trie_transaction@),
            offchain: self.offchain_storage_changes@,
            version: self.state_trie_version,
            root_calc: self.root_calculation,
            logs: self.logs@,
            max_log_level: self.max_log_level,
            prototype: self.prototype,
        }
    }

    spec fn wf(&self) -> bool {
        &&& self.main_trie_changes.wf()
        &&& self.offchain_storage_changes.wf()
        &&& forall|i: int| 0 <= i < self.main_trie_transaction@.len()
            ==> (#[trigger] self.main_trie_transaction@[i]).wf()
        &&& self.logs@.len() < 0x10_0000
        &&& (self.root_calculation is Some ==> self.vm is StorageRoot)
        &&& match self.root_calculation {
            Some(RootCalcProgress::ClosestDescendant { key }) => valid_nibbles(key@),
            Some(RootCalcProgress::StorageValue { key }) => valid_nibbles(key@),
            Some(RootCalcProgress::ClosestDescendantMerkleValue { key }) => valid_nibbles(key@),
            Some(RootCalcProgress::Finished { hash }) => true,
            None => true,
        }
    }
}

/// Execution is over; holds the call's return value and the machine.
pub struct SuccessVirtualMachine {
    value: Vec<u8>,
    prototype: VmPrototype,
}

impl SuccessVirtualMachine {
    /// The returned bytes, as mathematics.
    pub closed spec fn value_spec(&self) -> Seq<u8> {
        self.value@
    }

    /// The prototype inside, as mathematics.
    pub closed spec fn prototype_spec(&self) -> VmPrototype {
        self.prototype
    }

    /// Returns the value the called function has returned.
    pub fn value(&self) -> (r: &Vec<u8>)
        ensures
            r@ == self.value_spec(),
    {
        &self.value
    }

    /// Turns the virtual machine back into a prototype.
    pub fn into_prototype(self) -> (r: VmPrototype)
        ensures
            r == self.prototype_spec(),
    {
        self.prototype
    }
}

/// Execution is successful.
pub struct Success {
    /// The finished machine, carrying the call's return value.
    pub virtual_machine: SuccessVirtualMachine,
    /// The accumulated main-trie changes.
    pub storage_main_trie_changes: TrieDiff,
    /// The state-trie version every change carries.
    pub state_trie_version: TrieEntryVersion,
    /// The accumulated off-chain changes.
    pub offchain_storage_changes: TrieDiff,
    /// The concatenation of every log message the runtime printed.
    pub logs: Vec<u8>,
}

/// Execution failed.
pub struct Error {
    /// What went wrong.
    pub detail: ErrorDetail,
    /// The prototype of the machine that was driven.
    pub prototype: VmPrototype,
}

/// The exact error that happened.
pub enum ErrorDetail {
    /// The virtual machine faulted; the logs are surfaced for diagnosis.
    WasmVm { error: Vec<u8>, logs: Vec<u8> },
    /// The logs would have passed the 1 MiB ceiling.
    LogsTooLong,
}

/// A suspended driver that needs a storage value.
pub struct StorageGet {
    inner: Inner,
}

/// A suspended driver that needs a next key.
pub struct NextKey {
    inner: Inner,
    key_overwrite: Option<Vec<u8>>,
    keys_removed_so_far: u32,
}

/// A suspended driver that needs a closest-descendant Merkle value.
pub struct ClosestDescendantMerkleValue {
    inner: Inner,
}

/// A suspended driver that needs a signature verdict.
pub struct SignatureVerification {
    inner: Inner,
}

/// A suspended driver that hands the virtual machine a resume value and
/// awaits its next host call.
pub struct VmResume {
    inner: Inner,
    resume: ResumeValue,
}

/// A suspended driver that hands the root calculator an input and awaits
/// its next progress report.
pub struct CalcResume {
    inner: Inner,
    input: CalcInput,
}

/// Current state of the execution.
#[must_use]
pub enum RuntimeHostVm {
    /// Execution is over.
    Finished(Result<Success, Error>),
    /// Loading a storage value is required in order to continue.
    StorageGet(StorageGet),
    /// The Merkle value of a closest descendant is required in order to continue.
    ClosestDescendantMerkleValue(ClosestDescendantMerkleValue),
    /// The key that follows a given one is required in order to continue.
    NextKey(NextKey),
    /// A signature verdict is required in order to continue.
    SignatureVerification(SignatureVerification),
    /// The virtual machine must be resumed with the value inside.
    VmResume(VmResume),
    /// The root calculator must be fed the input inside.
    CalcResume(CalcResume),
}

impl RuntimeHostVm {
    /// The status, as mathematics.
    pub closed spec fn model(&self) -> StatusModel {
        match self {
            RuntimeHostVm::Finished(res) => match res {
                Ok(s) => StatusModel::Done {
                    value: s.virtual_machine.value@,
                    diff: s.storage_main_trie_changes@,
                    version: s.state_trie_version,
                    offchain: s.offchain_storage_changes@,
                    logs: s.logs@,
                    prototype: s.virtual_machine.prototype,
                },
                Err(e) => match &e.detail {
                    ErrorDetail::WasmVm { error, logs } => StatusModel::VmFault {
                        message: error@,
                        logs: logs@,
                        prototype: e.prototype,
                    },
                    ErrorDetail::LogsTooLong => StatusModel::LogsOverflow {
                        prototype: e.prototype,
                    },
                },
            },
            RuntimeHostVm::StorageGet(g) => StatusModel::NeedValue { state: g.inner.model() },
            RuntimeHostVm::ClosestDescendantMerkleValue(m) => StatusModel::NeedMerkle {
                state: m.inner.model(),
            },
            RuntimeHostVm::NextKey(nk) => StatusModel::NeedKey {
                state: nk.inner.model(),
                key_overwrite: opt_bytes_view(nk.key_overwrite),
                keys_removed: nk.keys_removed_so_far,
            },
            RuntimeHostVm::SignatureVerification(s) => StatusModel::NeedSignature {
                state: s.inner.model(),
            },
            RuntimeHostVm::VmResume(v) => StatusModel::ToVm {
                state: v.inner.model(),
                resume: resume_view(v.resume),
            },
            RuntimeHostVm::CalcResume(c) => StatusModel::ToCalc {
                state: c.inner.model(),
                input: calc_input_view(c.input),
            },
        }
    }

    /// Every handle inside is well formed.
    pub closed spec fn wf(&self) -> bool {
        match self {
            RuntimeHostVm::Finished(res) => match res {
                Ok(s) => s.storage_main_trie_changes.wf() && s.offchain_storage_changes.wf(),
                Err(_) => true,
            },
            RuntimeHostVm::StorageGet(g) => g.wf(),
            RuntimeHostVm::ClosestDescendantMerkleValue(m) => m.wf(),
            RuntimeHostVm::NextKey(nk) => nk.wf(),
            RuntimeHostVm::SignatureVerification(s) => s.wf(),
            RuntimeHostVm::VmResume(v) => v.wf(),
            RuntimeHostVm::CalcResume(c) => c.wf(),
        }
    }

    /// Cancels execution and returns back the prototype.
    ///
    /// All accumulated diffs, logs and transaction state are discarded; the
    /// prototype always comes back, whatever the state.
    pub fn into_prototype(self) -> (r: VmPrototype)
        ensures
            r == status_prototype(self.model()),
    {
        match self {
            RuntimeHostVm::Finished(res) => match res {
                Ok(s) => s.virtual_machine.into_prototype(),
                Err(e) => e.prototype,
            },
            RuntimeHostVm::StorageGet(g) => g.inner.prototype,
            RuntimeHostVm::ClosestDescendantMerkleValue(m) => m.inner.prototype,
            RuntimeHostVm::NextKey(nk) => nk.inner.prototype,
            RuntimeHostVm::SignatureVerification(s) => s.inner.prototype,
            RuntimeHostVm::VmResume(v) => v.inner.prototype,
            RuntimeHostVm::CalcResume(c) => c.inner.prototype,
        }
    }
}

/// Configuration for [`run`].
pub struct Config {
    /// Virtual machine to be run.
    pub virtual_machine: VmPrototype,
    /// Name of the function to be called, as UTF-8 bytes.
    pub function_to_call: Vec<u8>,
    /// Parameter of the call, as chunks whose concatenation is the input.
    pub parameter: Vec<Vec<u8>>,
    /// Initial main-trie changes to layer the execution's own over.
    pub storage_main_trie_changes: TrieDiff,
    /// Initial off-chain changes to layer the execution's own over.
    pub offchain_storage_changes: TrieDiff,
    /// Maximum log level of the runtime.
    pub max_log_level: u32,
}

/// The concatenation of a sequence of byte chunks.
pub open spec fn concat_chunks(s: Seq<Vec<u8>>) -> Seq<u8>
    decreases s.len(),
{
    if s.len() == 0 {
        Seq::empty()
    } else {
        concat_chunks(s.drop_last()) + s.last()@
    }
}

/// What starting the driver produces: the machine is asked to start the
/// call, over a fresh overlay state read from the configuration.
pub open spec fn run_spec(config: Config) -> StatusModel {
    StatusModel::ToVm {
        state: DriverModel {
            vm: VmState::ReadyToRun,
            diff: config.storage_main_trie_changes@,
            stack: Seq::empty(),
            offchain: config.offchain_storage_changes@,
            version: match config.virtual_machine.state_version {
                Some(v) => v,
                None => TrieEntryVersion::V0,
            },
            root_calc: None,
            logs: Seq::empty(),
            max_log_level: config.max_log_level,
            prototype: config.virtual_machine,
        },
        resume: ResumeModel::Start {
            function: config.function_to_call@,
            parameter: concat_chunks(config.parameter@),
        },
    }
}

/// Starts running the call the configuration describes.
pub fn run(config: Config) -> (r: RuntimeHostVm)
    requires
        config.storage_main_trie_changes.wf(),
        config.offchain_storage_changes.wf(),
    ensures
        r.wf(),
        r.model() == run_spec(config),
{
    let ghost cfg = config;
    let Config {
        virtual_machine,
        function_to_call,
        parameter,
        storage_main_trie_changes,
        offchain_storage_changes,
        max_log_level,
    } = config;
    let state_trie_version = match virtual_machine.state_version {
        Some(v) => v,
        None => TrieEntryVersion::V0,
    };
    let mut param: Vec<u8> = Vec::new();
    let mut i: usize = 0;
    while i < parameter.len()
        invariant
            0 <= i <= parameter@.len(),
            param@ == concat_chunks(parameter@.subrange(0, i as int)),
        decreases parameter@.len() - i,
    {
        proof {
            assert(parameter@.subrange(0, i + 1).drop_last() =~= parameter@.subrange(0, i as int));
            assert(parameter@.subrange(0, i + 1).last() == parameter@[i as int]);
        }
        push_all(&mut param, &parameter[i]);
        i = i + 1;
    }
    proof {
        assert(parameter@.subrange(0, parameter@.len() as int) =~= parameter@);
        assert(stack_model(Seq::<TrieDiff>::empty()) =~= Seq::<Map<Seq<u8>, Option<Seq<u8>>>>::empty());
    }
    let inner = Inner {
        vm: VmState::ReadyToRun,
        main_trie_changes: storage_main_trie_changes,
        main_trie_transaction: Vec::new(),
        state_trie_version,
        offchain_storage_changes,
        root_calculation: None,
        logs: Vec::new(),
        max_log_level,
        prototype: virtual_machine,
    };
    RuntimeHostVm::VmResume(
        VmResume {
            inner,
            resume: ResumeValue::Start { function: function_to_call, parameter: param },
        },
    )
}

impl StorageGet {
    /// The handle is well formed.
    pub closed spec fn wf(&self) -> bool {
        &&& self.inner.wf()
        &&& match self.inner.vm {
            VmState::StorageGet { .. } => true,
            VmState::StorageAppend { .. } => true,
            VmState::StorageRoot => match self.inner.root_calculation {
                Some(RootCalcProgress::StorageValue { key }) => key@.len() % 2 == 0,
                _ => false,
            },
            _ => false,
        }
    }

    /// The suspended driver, as mathematics.
    pub closed spec fn state(&self) -> DriverModel {
        self.inner.model()
    }
}

impl NextKey {
    /// The handle is well formed.
    pub closed spec fn wf(&self) -> bool {
        &&& self.inner.wf()
        &&& match self.inner.vm {
            VmState::StorageNextKey { .. } => true,
            VmState::StorageClearPrefix { .. } => self.key_overwrite is Some,
            VmState::StorageRoot => self.key_overwrite is None && match self
                .inner
                .root_calculation {
                Some(RootCalcProgress::ClosestDescendant { .. }) => true,
                _ => false,
            },
            _ => false,
        }
    }

    /// The suspended driver, as mathematics.
    pub closed spec fn state(&self) -> DriverModel {
        self.inner.model()
    }

    /// The handle's own state beside the driver.
    pub closed spec fn key_overwrite_spec(&self) -> Option<Seq<u8>> {
        opt_bytes_view(self.key_overwrite)
    }

    /// How many keys the running clear-prefix has erased.
    pub closed spec fn keys_removed_spec(&self) -> u32 {
        self.keys_removed_so_far
    }
}

impl ClosestDescendantMerkleValue {
    /// The handle is well formed.
    pub closed spec fn wf(&self) -> bool {
        &&& self.inner.wf()
        &&& self.inner.vm is StorageRoot
        &&& match self.inner.root_calculation {
            Some(RootCalcProgress::ClosestDescendantMerkleValue { .. }) => true,
            _ => false,
        }
    }

    /// The suspended driver, as mathematics.
    pub closed spec fn state(&self) -> DriverModel {
        self.inner.model()
    }
}

impl SignatureVerification {
    /// The handle is well formed.
    pub closed spec fn wf(&self) -> bool {
        self.inner.wf() && self.inner.vm is SignatureVerification
    }

    /// The suspended driver, as mathematics.
    pub closed spec fn state(&self) -> DriverModel {
        self.inner.model()
    }
}

impl CalcResume {
    /// The handle is well formed.
    pub closed spec fn wf(&self) -> bool {
        &&& self.inner.wf()
        &&& self.inner.vm is StorageRoot
        &&& self.inner.root_calculation is None
    }

    /// The suspended driver, as mathematics.
    pub closed spec fn state(&self) -> DriverModel {
        self.inner.model()
    }

    /// The input to feed the root calculator, as mathematics.
    pub closed spec fn input_spec(&self) -> CalcInputModel {
        calc_input_view(self.input)
    }

    /// The input to feed the root calculator.
    pub fn input(&self) -> (r: &CalcInput)
        ensures
            calc_input_view(*r) == self.input_spec(),
    {
        &self.input
    }
}

impl VmResume {
    /// The handle is well formed.
    pub closed spec fn wf(&self) -> bool {
        &&& self.inner.wf()
        &&& self.inner.vm is ReadyToRun
        &&& self.inner.root_calculation is None
    }

    /// The suspended driver, as mathematics.
    pub closed spec fn state(&self) -> DriverModel {
        self.inner.model()
    }

    /// The resume value, as mathematics.
    pub closed spec fn resume_spec(&self) -> ResumeModel {
        resume_view(self.resume)
    }

    /// The value to resume the virtual machine with.
    pub fn resume_value(&self) -> (r: &ResumeValue)
        ensures
            resume_view(*r) == self.resume_spec(),
    {
        &self.resume
    }

    /// The depth of the open transaction stack.
    pub fn transaction_depth(&self) -> (r: usize)
        ensures
            r == self.state().stack.len(),
    {
        self.inner.main_trie_transaction.len()
    }

    /// Resolves the machine's next host call.
    ///
    /// Calls that the overlay, the transaction stack, the log buffer or the
    /// configuration can answer produce a new [`RuntimeHostVm::VmResume`];
    /// the others suspend towards the client or the root calculator, or
    /// finish.
    pub fn inject_externality(self, ext: Externality) -> (r: RuntimeHostVm)
        requires
            self.wf(),
            (ext matches Externality::EndStorageTransaction { .. }) ==> self.state().stack.len()
                > 0,
        ensures
            r.wf(),
            r.model() == ext_step_spec(self.state(), ext),
    {
        let VmResume { mut inner, resume: _ } = self;
        let ghost pre = inner.model();
        match ext {
            Externality::Finished { value } => {
                RuntimeHostVm::Finished(
                    Ok(
                        Success {
                            virtual_machine: SuccessVirtualMachine {
                                value,
                                prototype: inner.prototype,
                            },
                            storage_main_trie_changes: inner.main_trie_changes,
                            state_trie_version: inner.state_trie_version,
                            offchain_storage_changes: inner.offchain_storage_changes,
                            logs: inner.logs,
                        },
                    ),
                )
            },
            Externality::Error { message } => {
                RuntimeHostVm::Finished(
                    Err(
                        Error {
                            detail: ErrorDetail::WasmVm { error: message, logs: inner.logs },
                            prototype: inner.prototype,
                        },
                    ),
                )
            },
            Externality::StorageGet { key, main_trie } => {
                if !main_trie {
                    RuntimeHostVm::VmResume(
                        VmResume {
                            inner,
                            resume: ResumeValue::StorageValue { value: None },
                        },
                    )
                } else {
                    let got = inner.main_trie_changes.diff_get(&key);
                    match got {
                        Some(overlay) => RuntimeHostVm::VmResume(
                            VmResume {
                                inner,
                                resume: ResumeValue::StorageValue { value: overlay },
                            },
                        ),
                        None => {
                            inner.vm = VmState::StorageGet { key };
                            RuntimeHostVm::StorageGet(StorageGet { inner })
                        },
                    }
                }
            },
            Externality::StorageSet { key, value, main_trie } => {
                if !main_trie {
                    RuntimeHostVm::VmResume(VmResume { inner, resume: ResumeValue::Ready })
                } else {
                    match value {
                        Some(v) => inner.main_trie_changes.diff_insert(key, v),
                        None => inner.main_trie_changes.diff_insert_erase(key),
                    }
                    RuntimeHostVm::VmResume(VmResume { inner, resume: ResumeValue::Ready })
                }
            },
            Externality::StorageAppend { key, value, main_trie } => {
                if !main_trie {
                    RuntimeHostVm::VmResume(VmResume { inner, resume: ResumeValue::Ready })
                } else {
                    let got = inner.main_trie_changes.diff_get(&key);
                    match got {
                        Some(overlay) => {
                            let mut cur = match overlay {
                                Some(v) => v,
                                None => Vec::new(),
                            };
                            append_to_storage_value(&mut cur, &value);
                            inner.main_trie_changes.diff_insert(key, cur);
                            RuntimeHostVm::VmResume(
                                VmResume { inner, resume: ResumeValue::Ready },
                            )
                        },
                        None => {
                            inner.vm = VmState::StorageAppend { key, value };
                            RuntimeHostVm::StorageGet(StorageGet { inner })
                        },
                    }
                }
            },
            Externality::StorageClearPrefix { prefix, max_keys_to_remove, main_trie } => {
                if !main_trie {
                    RuntimeHostVm::VmResume(
                        VmResume {
                            inner,
                            resume: ResumeValue::ClearedPrefix { keys_removed: 0, all_done: false },
                        },
                    )
                } else {
                    let prefix_copy = copy_bytes(&prefix);
                    inner.vm = VmState::StorageClearPrefix { prefix, max_keys_to_remove };
                    RuntimeHostVm::NextKey(
                        NextKey {
                            inner,
                            key_overwrite: Some(prefix_copy),
                            keys_removed_so_far: 0,
                        },
                    )
                }
            },
            Externality::StorageRoot { main_trie } => {
                if !main_trie {
                    RuntimeHostVm::VmResume(
                        VmResume { inner, resume: ResumeValue::Root { hash: None } },
                    )
                } else {
                    let snap = inner.main_trie_changes.snapshot();
                    let version = inner.state_trie_version;
                    inner.vm = VmState::StorageRoot;
                    RuntimeHostVm::CalcResume(
                        CalcResume {
                            inner,
                            input: CalcInput::Start { diff: snap, version, depth_hint: 16 },
                        },
                    )
                }
            },
            Externality::StorageNextKey { key, main_trie } => {
                if !main_trie {
                    RuntimeHostVm::VmResume(
                        VmResume { inner, resume: ResumeValue::NextKey { key: None } },
                    )
                } else {
                    inner.vm = VmState::StorageNextKey { key };
                    RuntimeHostVm::NextKey(
                        NextKey { inner, key_overwrite: None, keys_removed_so_far: 0 },
                    )
                }
            },
            Externality::OffchainStorageSet { key, value } => {
                match value {
                    Some(v) => inner.offchain_storage_changes.diff_insert(key, v),
                    None => inner.offchain_storage_changes.diff_insert_erase(key),
                }
                RuntimeHostVm::VmResume(VmResume { inner, resume: ResumeValue::Ready })
            },
            Externality::SignatureVerification { message, signature, public_key, valid } => {
                inner.vm = VmState::SignatureVerification { message, signature, public_key, valid };
                RuntimeHostVm::SignatureVerification(SignatureVerification { inner })
            },
            Externality::CallRuntimeVersion { version } => {
                RuntimeHostVm::VmResume(
                    VmResume { inner, resume: ResumeValue::RuntimeVersion { version } },
                )
            },
            Externality::StartStorageTransaction => {
                let snap = inner.main_trie_changes.snapshot();
                let ghost st0 = inner.main_trie_transaction@;
                inner.main_trie_transaction.push(snap);
                proof {
                    assert(stack_model(inner.main_trie_transaction@) =~= stack_model(st0).push(
                        pre.diff,
                    ));
                }
                RuntimeHostVm::VmResume(VmResume { inner, resume: ResumeValue::Ready })
            },
            Externality::EndStorageTransaction { rollback } => {
                let ghost st0 = inner.main_trie_transaction@;
                let popped = inner.main_trie_transaction.pop();
                proof {
                    assert(stack_model(inner.main_trie_transaction@) =~= stack_model(
                        st0,
                    ).drop_last());
                    assert(stack_model(st0).last() == st0.last()@);
                }
                match popped {
                    Some(snapshot) => {
                        if rollback {
                            inner.main_trie_changes = snapshot;
                        }
                    },
                    None => {},
                }
                RuntimeHostVm::VmResume(VmResume { inner, resume: ResumeValue::Ready })
            },
            Externality::GetMaxLogLevel => {
                let level = inner.max_log_level;
                RuntimeHostVm::VmResume(
                    VmResume { inner, resume: ResumeValue::MaxLogLevel { level } },
                )
            },
            Externality::LogEmit { message } => {
                if message.len() >= 0x10_0000 - inner.logs.len() {
                    RuntimeHostVm::Finished(
                        Err(
                            Error {
                                detail: ErrorDetail::LogsTooLong,
                                prototype: inner.prototype,
                            },
                        ),
                    )
                } else {
                    push_all(&mut inner.logs, &message);
                    RuntimeHostVm::VmResume(VmResume { inner, resume: ResumeValue::Ready })
                }
            },
        }
    }

}

/// The view of an injected storage value.
pub open spec fn storage_value_view(
    v: Option<(Vec<u8>, TrieEntryVersion)>,
) -> Option<(Seq<u8>, TrieEntryVersion)> {
    match v {
        Some(p) => Some((p.0@, p.1)),
        None => None,
    }
}

impl StorageGet {
    /// The key whose value must be injected, as mathematics; a byte key.
    pub closed spec fn key_spec(&self) -> Seq<u8> {
        match self.inner.vm {
            VmState::StorageGet { key } => key@,
            VmState::StorageAppend { key, .. } => key@,
            VmState::StorageRoot => match self.inner.root_calculation {
                Some(RootCalcProgress::StorageValue { key }) => bytes_of_nibbles(key@),
                _ => Seq::empty(),
            },
            _ => Seq::empty(),
        }
    }

    /// Returns the key whose value must be passed to [`StorageGet::inject_value`].
    pub fn key(&self) -> (r: Vec<u8>)
        requires
            self.wf(),
        ensures
            r@ == self.key_spec(),
    {
        match &self.inner.vm {
            VmState::StorageGet { key } => copy_bytes(key),
            VmState::StorageAppend { key, .. } => copy_bytes(key),
            VmState::StorageRoot => match &self.inner.root_calculation {
                Some(RootCalcProgress::StorageValue { key }) => nibbles_to_bytes(key),
                _ => {
                    proof {
                        assert(false);
                    }
                    unreached()
                },
            },
            _ => {
                proof {
                    assert(false);
                }
                unreached()
            },
        }
    }

    /// Injects the corresponding storage value and continues.
    pub fn inject_value(self, value: Option<(Vec<u8>, TrieEntryVersion)>) -> (r: RuntimeHostVm)
        requires
            self.wf(),
        ensures
            r.wf(),
            r.model() == inject_value_spec(self.state(), storage_value_view(value)),
    {
        let StorageGet { mut inner } = self;
        let ghost pre = inner.model();
        let vm = inner.vm;
        inner.vm = VmState::ReadyToRun;
        match vm {
            VmState::StorageGet { key: _ } => {
                let v = match value {
                    Some(p) => Some(p.0),
                    None => None,
                };
                RuntimeHostVm::VmResume(
                    VmResume { inner, resume: ResumeValue::StorageValue { value: v } },
                )
            },
            VmState::StorageAppend { key, value: elem } => {
                let mut cur = match value {
                    Some(p) => p.0,
                    None => Vec::new(),
                };
                append_to_storage_value(&mut cur, &elem);
                inner.main_trie_changes.diff_insert(key, cur);
                RuntimeHostVm::VmResume(VmResume { inner, resume: ResumeValue::Ready })
            },
            VmState::StorageRoot => {
                inner.vm = VmState::StorageRoot;
                inner.root_calculation = None;
                RuntimeHostVm::CalcResume(
                    CalcResume { inner, input: CalcInput::StorageValue { value } },
                )
            },
            _ => {
                proof {
                    assert(false);
                }
                unreached()
            },
        }
    }
}

impl NextKey {
    /// The key whose next key must be passed back, as nibbles.
    pub closed spec fn key_spec(&self) -> Seq<u8> {
        match self.key_overwrite {
            Some(k) => nibbles_of(k@),
            None => match self.inner.vm {
                VmState::StorageNextKey { key } => nibbles_of(key@),
                VmState::StorageRoot => match self.inner.root_calculation {
                    Some(RootCalcProgress::ClosestDescendant { key }) => key@,
                    _ => Seq::empty(),
                },
                _ => Seq::empty(),
            },
        }
    }

    /// Whether the answer may equal the requested key.
    pub closed spec fn or_equal_spec(&self) -> bool {
        (self.inner.vm is StorageClearPrefix && self.keys_removed_so_far == 0)
            || self.inner.vm is StorageRoot
    }

    /// Whether the search covers branch nodes besides storage nodes.
    pub closed spec fn branch_nodes_spec(&self) -> bool {
        self.inner.vm is StorageRoot
    }

    /// The prefix the answer must start with, as nibbles.
    pub closed spec fn prefix_spec(&self) -> Seq<u8> {
        match self.inner.vm {
            VmState::StorageClearPrefix { prefix, .. } => nibbles_of(prefix@),
            VmState::StorageRoot => self.key_spec(),
            _ => Seq::empty(),
        }
    }

    /// Returns the key whose next key must be passed back, as nibbles.
    pub fn key(&self) -> (r: Vec<u8>)
        requires
            self.wf(),
        ensures
            r@ == self.key_spec(),
    {
        if let Some(k) = &self.key_overwrite {
            return bytes_to_nibbles(k);
        }
        match &self.inner.vm {
            VmState::StorageNextKey { key } => bytes_to_nibbles(key),
            VmState::StorageRoot => match &self.inner.root_calculation {
                Some(RootCalcProgress::ClosestDescendant { key }) => copy_bytes(key),
                _ => {
                    proof {
                        assert(false);
                    }
                    unreached()
                },
            },
            _ => {
                proof {
                    assert(false);
                }
                unreached()
            },
        }
    }

    /// If `true`, the answer must be at or after the requested key; if
    /// `false`, strictly after it.
    pub fn or_equal(&self) -> (r: bool)
        ensures
            r == self.or_equal_spec(),
    {
        (matches!(self.inner.vm, VmState::StorageClearPrefix { .. }) && self.keys_removed_so_far
            == 0) || matches!(self.inner.vm, VmState::StorageRoot)
    }

    /// If `true`, the search must include branch nodes besides storage nodes.
    pub fn branch_nodes(&self) -> (r: bool)
        ensures
            r == self.branch_nodes_spec(),
    {
        matches!(self.inner.vm, VmState::StorageRoot)
    }

    /// Returns the prefix the answer must start with, as nibbles.
    pub fn prefix(&self) -> (r: Vec<u8>)
        requires
            self.wf(),
        ensures
            r@ == self.prefix_spec(),
    {
        match &self.inner.vm {
            VmState::StorageClearPrefix { prefix, .. } => bytes_to_nibbles(prefix),
            VmState::StorageRoot => self.key(),
            _ => Vec::new(),
        }
    }

    /// Injects the next key, as nibbles, or `None` when there is none.
    ///
    /// A clear-prefix erases the keys the backing store's ordered walk
    /// offers, and those alone: a key that exists only as an overlay write
    /// and matches the prefix is deliberately left in place, so that the
    /// iteration mirrors what the backing store holds.
    pub fn inject_key(self, key: Option<Vec<u8>>) -> (r: RuntimeHostVm)
        requires
            self.wf(),
            key matches Some(a) ==> valid_nibbles(a@) && (if self.or_equal_spec() {
                lex_le(self.key_spec(), a@)
            } else {
                lex_lt(self.key_spec(), a@)
            }) && is_prefix(self.prefix_spec(), a@) && (!(self.state().vm is StorageRoot)
                ==> a@.len() % 2 == 0),
            (self.state().vm matches VmState::StorageClearPrefix { .. })
                ==> self.keys_removed_spec() < u32::MAX,
        ensures
            r.wf(),
            inject_key_ok(
                self.state(),
                self.key_overwrite_spec(),
                self.keys_removed_spec(),
                opt_bytes_view(key),
                r.model(),
            ),
    {
        let NextKey { mut inner, key_overwrite, keys_removed_so_far } = self;
        let ghost pre = inner.model();
        if matches!(inner.vm, VmState::StorageNextKey { .. }) {
            let answer_bytes: Option<Vec<u8>> = match &key {
                Some(a) => Some(nibbles_to_bytes(a)),
                None => None,
            };
            proof {
                if key is Some && key_overwrite is None {
                    let kreq = inner.vm->StorageNextKey_key;
                    lemma_nibble_lex(kreq@, answer_bytes->Some_0@);
                }
                if key is Some && key_overwrite is Some {
                    lemma_nibble_lex(key_overwrite->Some_0@, answer_bytes->Some_0@);
                }
            }
            let search = {
                let backing: Option<&Vec<u8>> = match &answer_bytes {
                    Some(b) => Some(b),
                    None => None,
                };
                match &key_overwrite {
                    Some(req) => inner.main_trie_changes.storage_next_key(req, backing, false),
                    None => match &inner.vm {
                        VmState::StorageNextKey { key: req } => inner
                            .main_trie_changes
                            .storage_next_key(req, backing, false),
                        _ => {
                            proof {
                                assert(false);
                            }
                            unreached()
                        },
                    },
                }
            };
            let ghost ko0 = key_overwrite;
            let ghost search0 = search;
            let result = match search {
                StorageNextKey::Found(k) => {
                    inner.vm = VmState::ReadyToRun;
                    RuntimeHostVm::VmResume(
                        VmResume { inner, resume: ResumeValue::NextKey { key: k } },
                    )
                },
                StorageNextKey::NextOf(n) => {
                    RuntimeHostVm::NextKey(
                        NextKey { inner, key_overwrite: Some(n), keys_removed_so_far: 0 },
                    )
                },
            };
            proof {
                let reqv: Seq<u8> = match opt_bytes_view(ko0) {
                    Some(k) => k,
                    None => pre.vm->StorageNextKey_key@,
                };
                let ansv: Option<Seq<u8>> = match opt_bytes_view(key) {
                    Some(a) => Some(bytes_of_nibbles(a)),
                    None => None,
                };
                let out = nk_view(search0);
                assert(next_key_result_ok(pre.diff, reqv, ansv, false, out));
                match out {
                    NextKeyOutcome::Found(k) => {
                        assert(result.model() == StatusModel::ToVm {
                            state: DriverModel { vm: VmState::ReadyToRun, ..pre },
                            resume: ResumeModel::NextKey { key: k },
                        });
                    },
                    NextKeyOutcome::NextOf(n) => {
                        assert(result.model() == StatusModel::NeedKey {
                            state: pre,
                            key_overwrite: Some(n),
                            keys_removed: 0,
                        });
                    },
                }
                assert(nk_matches(pre, reqv, ansv, out, result.model()));
                assert(inject_key_ok(pre, opt_bytes_view(ko0), keys_removed_so_far, opt_bytes_view(key), result.model()));
            }
            result
        } else if matches!(inner.vm, VmState::StorageClearPrefix { .. }) {
            match key {
                None => {
                    inner.vm = VmState::ReadyToRun;
                    RuntimeHostVm::VmResume(
                        VmResume {
                            inner,
                            resume: ResumeValue::ClearedPrefix {
                                keys_removed: keys_removed_so_far,
                                all_done: false,
                            },
                        },
                    )
                },
                Some(a) => {
                    let kb = nibbles_to_bytes(&a);
                    let max = match &inner.vm {
                        VmState::StorageClearPrefix { max_keys_to_remove, .. } => {
                            *max_keys_to_remove
                        },
                        _ => {
                            proof {
                                assert(false);
                            }
                            unreached()
                        },
                    };
                    let capped = match max {
                        Some(m) => keys_removed_so_far >= m,
                        None => false,
                    };
                    if capped {
                        inner.vm = VmState::ReadyToRun;
                        RuntimeHostVm::VmResume(
                            VmResume {
                                inner,
                                resume: ResumeValue::ClearedPrefix {
                                    keys_removed: keys_removed_so_far,
                                    all_done: true,
                                },
                            },
                        )
                    } else {
                        let kb2 = copy_bytes(&kb);
                        inner.main_trie_changes.diff_insert_erase(kb);
                        RuntimeHostVm::NextKey(
                            NextKey {
                                inner,
                                key_overwrite: Some(kb2),
                                keys_removed_so_far: keys_removed_so_far + 1,
                            },
                        )
                    }
                },
            }
        } else if matches!(inner.vm, VmState::StorageRoot) {
            inner.root_calculation = None;
            RuntimeHostVm::CalcResume(CalcResume { inner, input: CalcInput::NextKey { key } })
        } else {
            proof {
                assert(false);
            }
            unreached()
        }
    }
}

/// How the driver resolves an injected Merkle value (`None` asks the
/// calculator to descend and compute it itself).
pub open spec fn merkle_resume_spec(pre: DriverModel, v: Option<Seq<u8>>) -> StatusModel {
    StatusModel::ToCalc {
        state: DriverModel { root_calc: None, ..pre },
        input: CalcInputModel::MerkleValue { value: v },
    }
}

impl ClosestDescendantMerkleValue {
    /// The descendant-query key, as nibbles.
    pub closed spec fn key_spec(&self) -> Seq<u8> {
        match self.inner.root_calculation {
            Some(RootCalcProgress::ClosestDescendantMerkleValue { key }) => key@,
            _ => Seq::empty(),
        }
    }

    /// Returns the key whose closest-descendant Merkle value is asked for,
    /// as nibbles.
    pub fn key(&self) -> (r: Vec<u8>)
        requires
            self.wf(),
        ensures
            r@ == self.key_spec(),
    {
        match &self.inner.root_calculation {
            Some(RootCalcProgress::ClosestDescendantMerkleValue { key }) => copy_bytes(key),
            _ => {
                proof {
                    assert(false);
                }
                unreached()
            },
        }
    }

    /// Indicates that the value is unknown; the calculator computes it by
    /// descent, which takes more time.
    pub fn resume_unknown(self) -> (r: RuntimeHostVm)
        requires
            self.wf(),
        ensures
            r.wf(),
            r.model() == merkle_resume_spec(self.state(), None),
    {
        let ClosestDescendantMerkleValue { mut inner } = self;
        inner.root_calculation = None;
        RuntimeHostVm::CalcResume(
            CalcResume { inner, input: CalcInput::MerkleValue { value: None } },
        )
    }

    /// Injects the corresponding Merkle value.
    pub fn inject_merkle_value(self, merkle_value: Vec<u8>) -> (r: RuntimeHostVm)
        requires
            self.wf(),
        ensures
            r.wf(),
            r.model() == merkle_resume_spec(self.state(), Some(merkle_value@)),
    {
        let ClosestDescendantMerkleValue { mut inner } = self;
        inner.root_calculation = None;
        RuntimeHostVm::CalcResume(
            CalcResume { inner, input: CalcInput::MerkleValue { value: Some(merkle_value) } },
        )
    }
}

/// How the driver resolves a signature verdict.
pub open spec fn sig_resume_spec(pre: DriverModel, valid: bool) -> StatusModel {
    StatusModel::ToVm {
        state: DriverModel { vm: VmState::ReadyToRun, ..pre },
        resume: ResumeModel::SignatureValid { valid },
    }
}

impl SignatureVerification {
    /// The signed message, as mathematics.
    pub closed spec fn message_spec(&self) -> Seq<u8> {
        match self.inner.vm {
            VmState::SignatureVerification { message, .. } => message@,
            _ => Seq::empty(),
        }
    }

    /// The signature, as mathematics.
    pub closed spec fn signature_spec(&self) -> Seq<u8> {
        match self.inner.vm {
            VmState::SignatureVerification { signature, .. } => signature@,
            _ => Seq::empty(),
        }
    }

    /// The public key, as mathematics.
    pub closed spec fn public_key_spec(&self) -> Seq<u8> {
        match self.inner.vm {
            VmState::SignatureVerification { public_key, .. } => public_key@,
            _ => Seq::empty(),
        }
    }

    /// The embedded verifier's verdict, as mathematics.
    pub closed spec fn is_valid_spec(&self) -> bool {
        match self.inner.vm {
            VmState::SignatureVerification { valid, .. } => valid,
            _ => false,
        }
    }

    /// Returns the message that the signature is expected to sign.
    pub fn message(&self) -> (r: &Vec<u8>)
        requires
            self.wf(),
        ensures
            r@ == self.message_spec(),
    {
        match &self.inner.vm {
            VmState::SignatureVerification { message, .. } => message,
            _ => {
                proof {
                    assert(false);
                }
                unreached()
            },
        }
    }

    /// Returns the signature. It is untrusted input.
    pub fn signature(&self) -> (r: &Vec<u8>)
        requires
            self.wf(),
        ensures
            r@ == self.signature_spec(),
    {
        match &self.inner.vm {
            VmState::SignatureVerification { signature, .. } => signature,
            _ => {
                proof {
                    assert(false);
                }
                unreached()
            },
        }
    }

    /// Returns the public key the signature is against. It is untrusted input.
    pub fn public_key(&self) -> (r: &Vec<u8>)
        requires
            self.wf(),
        ensures
            r@ == self.public_key_spec(),
    {
        match &self.inner.vm {
            VmState::SignatureVerification { public_key, .. } => public_key,
            _ => {
                proof {
                    assert(false);
                }
                unreached()
            },
        }
    }

    /// The verdict of the machine's embedded verifier.
    pub fn is_valid(&self) -> (r: bool)
        requires
            self.wf(),
        ensures
            r == self.is_valid_spec(),
    {
        match &self.inner.vm {
            VmState::SignatureVerification { valid, .. } => *valid,
            _ => {
                proof {
                    assert(false);
                }
                unreached()
            },
        }
    }

    /// Resumes with the embedded verifier's own verdict.
    pub fn verify_and_resume(self) -> (r: RuntimeHostVm)
        requires
            self.wf(),
        ensures
            r.wf(),
            r.model() == sig_resume_spec(self.state(), self.is_valid_spec()),
    {
        let valid = self.is_valid();
        let SignatureVerification { mut inner } = self;
        inner.vm = VmState::ReadyToRun;
        RuntimeHostVm::VmResume(
            VmResume { inner, resume: ResumeValue::SignatureValid { valid } },
        )
    }

    /// Resumes as if the signature were valid; meant for debugging only.
    pub fn resume_success(self) -> (r: RuntimeHostVm)
        requires
            self.wf(),
        ensures
            r.wf(),
            r.model() == sig_resume_spec(self.state(), true),
    {
        let SignatureVerification { mut inner } = self;
        inner.vm = VmState::ReadyToRun;
        RuntimeHostVm::VmResume(
            VmResume { inner, resume: ResumeValue::SignatureValid { valid: true } },
        )
    }

    /// Resumes as if the signature were invalid; meant for debugging only.
    pub fn resume_failed(self) -> (r: RuntimeHostVm)
        requires
            self.wf(),
        ensures
            r.wf(),
            r.model() == sig_resume_spec(self.state(), false),
    {
        let SignatureVerification { mut inner } = self;
        inner.vm = VmState::ReadyToRun;
        RuntimeHostVm::VmResume(
            VmResume { inner, resume: ResumeValue::SignatureValid { valid: false } },
        )
    }
}

impl CalcResume {
    /// Hands the driver the calculator's next progress report.
    pub fn inject_progress(self, progress: RootCalcProgress) -> (r: RuntimeHostVm)
        requires
            self.wf(),
            match progress {
                RootCalcProgress::ClosestDescendant { key } => valid_nibbles(key@),
                RootCalcProgress::StorageValue { key } => valid_nibbles(key@),
                RootCalcProgress::ClosestDescendantMerkleValue { key } => valid_nibbles(key@),
                RootCalcProgress::Finished { hash } => true,
            },
        ensures
            r.wf(),
            r.model() == inject_progress_spec(self.state(), progress),
    {
        let CalcResume { mut inner, input: _ } = self;
        if matches!(progress, RootCalcProgress::ClosestDescendant { .. }) {
            inner.root_calculation = Some(progress);
            RuntimeHostVm::NextKey(
                NextKey { inner, key_overwrite: None, keys_removed_so_far: 0 },
            )
        } else if matches!(progress, RootCalcProgress::StorageValue { .. }) {
            let even = match &progress {
                RootCalcProgress::StorageValue { key } => key.len() % 2 == 0,
                _ => {
                    proof {
                        assert(false);
                    }
                    unreached()
                },
            };
            if even {
                inner.root_calculation = Some(progress);
                RuntimeHostVm::StorageGet(StorageGet { inner })
            } else {
                RuntimeHostVm::CalcResume(
                    CalcResume { inner, input: CalcInput::StorageValue { value: None } },
                )
            }
        } else if matches!(progress, RootCalcProgress::ClosestDescendantMerkleValue { .. }) {
            inner.root_calculation = Some(progress);
            RuntimeHostVm::ClosestDescendantMerkleValue(ClosestDescendantMerkleValue { inner })
        } else {
            let hash = match progress {
                RootCalcProgress::Finished { hash } => hash,
                _ => {
                    proof {
                        assert(false);
                    }
                    unreached()
                },
            };
            inner.vm = VmState::ReadyToRun;
            RuntimeHostVm::VmResume(
                VmResume { inner, resume: ResumeValue::Root { hash: Some(hash) } },
            )
        }
    }
}

} // verus!
