//! The wire between the driver and its two outside collaborators.
//!
//! The virtual machine and the trie-root calculator are pausable machines
//! owned by the environment. The driver sees the virtual machine as a
//! stream of [`Externality`] events and answers each with a [`ResumeValue`];
//! it sees the root calculator as a stream of [`RootCalcProgress`] events
//! and feeds it [`CalcInput`] values.

use vstd::prelude::*;
use crate::diff::TrieDiff;

verus! {

/// The per-entry format tag of the state trie.
#[derive(Clone, Copy, PartialEq, Eq, Structural, Debug)]
pub enum TrieEntryVersion {
    V0,
    V1,
}

/// A virtual-machine prototype, ready to be started.
///
/// The machine itself is opaque to the driver; the prototype carries the
/// one piece of metadata the driver reads, the declared state-trie version.
#[derive(Clone, Copy, PartialEq, Eq, Debug)]
pub struct VmPrototype {
    /// The state-trie version the runtime's metadata declares, if any.
    pub state_version: Option<TrieEntryVersion>,
}

/// A host call the paused virtual machine asks the driver to resolve.
#[derive(Debug)]
pub enum Externality {
    /// The call ran to completion and returned these bytes.
    Finished { value: Vec<u8> },
    /// The virtual machine faulted; the message describes the fault.
    Error { message: Vec<u8> },
    /// Read the storage value at `key`.
    StorageGet { key: Vec<u8>, main_trie: bool },
    /// Write `value` at `key`, or erase `key` when `value` is `None`.
    StorageSet { key: Vec<u8>, value: Option<Vec<u8>>, main_trie: bool },
    /// Append the element `value` to the SCALE sequence stored at `key`.
    StorageAppend { key: Vec<u8>, value: Vec<u8>, main_trie: bool },
    /// Erase every key starting with `prefix`, at most `max_keys_to_remove` of them.
    StorageClearPrefix { prefix: Vec<u8>, max_keys_to_remove: Option<u32>, main_trie: bool },
    /// Compute the storage root.
    StorageRoot { main_trie: bool },
    /// Find the key that follows `key`.
    StorageNextKey { key: Vec<u8>, main_trie: bool },
    /// Write or erase a key of the off-chain storage.
    OffchainStorageSet { key: Vec<u8>, value: Option<Vec<u8>> },
    /// Decide a signature; `valid` is the embedded verifier's own verdict.
    SignatureVerification {
        message: Vec<u8>,
        signature: Vec<u8>,
        public_key: Vec<u8>,
        valid: bool,
    },
    /// Read the version of another runtime; `version` is the outcome of
    /// compiling it, `None` when the compilation failed.
    CallRuntimeVersion { version: Option<Vec<u8>> },
    /// Open a storage transaction.
    StartStorageTransaction,
    /// Close the innermost storage transaction.
    EndStorageTransaction { rollback: bool },
    /// Read the configured maximum log level.
    GetMaxLogLevel,
    /// Emit one formatted log message.
    LogEmit { message: Vec<u8> },
}

/// What the driver hands the virtual machine to resume it.
#[derive(Debug)]
pub enum ResumeValue {
    /// Start the call: invoke `function` on the concatenated `parameter`.
    Start { function: Vec<u8>, parameter: Vec<u8> },
    /// Plain resumption, nothing to pass.
    Ready,
    /// The storage value asked for, or `None` when absent.
    StorageValue { value: Option<Vec<u8>> },
    /// The following key, or `None` when there is none.
    NextKey { key: Option<Vec<u8>> },
    /// The outcome of a clear-prefix.
    ClearedPrefix { keys_removed: u32, all_done: bool },
    /// The storage root, or `None` for a stubbed trie.
    Root { hash: Option<Vec<u8>> },
    /// The configured maximum log level.
    MaxLogLevel { level: u32 },
    /// The signature verdict.
    SignatureValid { valid: bool },
    /// The other runtime's version bytes, or `None` when it did not compile.
    RuntimeVersion { version: Option<Vec<u8>> },
}

/// Where the paused root calculator stands; keys are nibble strings.
#[derive(Debug)]
pub enum RootCalcProgress {
    /// The calculator asks for the closest descendant of `key`.
    ClosestDescendant { key: Vec<u8> },
    /// The calculator asks for the storage value at `key`.
    StorageValue { key: Vec<u8> },
    /// The calculator asks for the Merkle value of the closest descendant of `key`.
    ClosestDescendantMerkleValue { key: Vec<u8> },
    /// The calculation is done; `hash` is the 32-byte root.
    Finished { hash: Vec<u8> },
}

/// What the driver feeds the root calculator.
pub enum CalcInput {
    /// Build a calculator over this diff and entry version.
    Start { diff: TrieDiff, version: TrieEntryVersion, depth_hint: u32 },
    /// The answer to a closest-descendant request, as nibbles.
    NextKey { key: Option<Vec<u8>> },
    /// The answer to a storage-value request.
    StorageValue { value: Option<(Vec<u8>, TrieEntryVersion)> },
    /// The answer to a Merkle-value request; `None` asks the calculator to
    /// compute the value itself by descent.
    MerkleValue { value: Option<Vec<u8>> },
}

/// The externality the virtual machine is currently parked in, as the
/// driver remembers it across a suspension.
pub enum VmState {
    /// No externality pending: the machine can run.
    ReadyToRun,
    /// Parked in a storage read.
    StorageGet { key: Vec<u8> },
    /// Parked in a storage append.
    StorageAppend { key: Vec<u8>, value: Vec<u8> },
    /// Parked in a clear-prefix.
    StorageClearPrefix { prefix: Vec<u8>, max_keys_to_remove: Option<u32> },
    /// Parked in a storage-root computation.
    StorageRoot,
    /// Parked in a next-key query.
    StorageNextKey { key: Vec<u8> },
    /// Parked in a signature verification.
    SignatureVerification {
        message: Vec<u8>,
        signature: Vec<u8>,
        public_key: Vec<u8>,
        valid: bool,
    },
}

/// The view of a [`ResumeValue`].
pub ghost enum ResumeModel {
    Start { function: Seq<u8>, parameter: Seq<u8> },
    Ready,
    StorageValue { value: Option<Seq<u8>> },
    NextKey { key: Option<Seq<u8>> },
    ClearedPrefix { keys_removed: u32, all_done: bool },
    Root { hash: Option<Seq<u8>> },
    MaxLogLevel { level: u32 },
    SignatureValid { valid: bool },
    RuntimeVersion { version: Option<Seq<u8>> },
}

/// The view of a byte option.
pub open spec fn opt_bytes_view(o: Option<Vec<u8>>) -> Option<Seq<u8>> {
    match o {
        Some(v) => Some(v@),
        None => None,
    }
}

/// The view of a [`ResumeValue`].
pub open spec fn resume_view(r: ResumeValue) -> ResumeModel {
    match r {
        ResumeValue::Start { function, parameter } => ResumeModel::Start {
            function: function@,
            parameter: parameter@,
        },
        ResumeValue::Ready => ResumeModel::Ready,
        ResumeValue::StorageValue { value } => ResumeModel::StorageValue {
            value: opt_bytes_view(value),
        },
        ResumeValue::NextKey { key } => ResumeModel::NextKey { key: opt_bytes_view(key) },
        ResumeValue::ClearedPrefix { keys_removed, all_done } => ResumeModel::ClearedPrefix {
            keys_removed,
            all_done,
        },
        ResumeValue::Root { hash } => ResumeModel::Root { hash: opt_bytes_view(hash) },
        ResumeValue::MaxLogLevel { level } => ResumeModel::MaxLogLevel { level },
        ResumeValue::SignatureValid { valid } => ResumeModel::SignatureValid { valid },
        ResumeValue::RuntimeVersion { version } => ResumeModel::RuntimeVersion {
            version: opt_bytes_view(version),
        },
    }
}

/// The view of a [`CalcInput`].
pub ghost enum CalcInputModel {
    Start { diff: Map<Seq<u8>, Option<Seq<u8>>>, version: TrieEntryVersion, depth_hint: u32 },
    NextKey { key: Option<Seq<u8>> },
    StorageValue { value: Option<(Seq<u8>, TrieEntryVersion)> },
    MerkleValue { value: Option<Seq<u8>> },
}

/// The view of a [`CalcInput`].
pub open spec fn calc_input_view(c: CalcInput) -> CalcInputModel {
    match c {
        CalcInput::Start { diff, version, depth_hint } => CalcInputModel::Start {
            diff: diff@,
            version,
            depth_hint,
        },
        CalcInput::NextKey { key } => CalcInputModel::NextKey { key: opt_bytes_view(key) },
        CalcInput::StorageValue { value } => CalcInputModel::StorageValue {
            value: match value {
                Some(v) => Some((v.0@, v.1)),
                None => None,
            },
        },
        CalcInput::MerkleValue { value } => CalcInputModel::MerkleValue {
            value: opt_bytes_view(value),
        },
    }
}

} // verus!
