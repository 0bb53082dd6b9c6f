//! Host driver for a paused WebAssembly runtime.
//!
//! The driver sits between an opaque, pausable virtual machine and the
//! client that owns the backing key/value store. The machine yields typed
//! host calls; the driver answers most of them itself from a storage
//! overlay, a nested transaction stack, and a bounded log buffer, and
//! yields to the client only when backing-store data, a Merkle value, or a
//! signature verdict is required.
//!
//! The virtual machine and the trie-root calculator are external
//! collaborators: the library represents them by the events they emit
//! ([`Externality`], [`RootCalcProgress`]) and the values fed back to them
//! ([`ResumeValue`], [`CalcInput`]). The environment that owns them pumps
//! the driver: on every non-terminal [`RuntimeHostVm`] it performs the
//! requested piece of outside work and re-enters with the outcome.

pub mod bytes_order;
pub mod codec;
pub mod nibbles;
pub mod append;
pub mod diff;
pub mod events;
pub mod driver;
pub mod laws;

pub use events::{Externality, ResumeValue, RootCalcProgress, CalcInput, TrieEntryVersion,
    VmPrototype, VmState};
pub use driver::{run, Config, RuntimeHostVm, Success, SuccessVirtualMachine, Error, ErrorDetail,
    StorageGet, NextKey, ClosestDescendantMerkleValue, SignatureVerification, VmResume,
    CalcResume};
pub use diff::{TrieDiff, StorageNextKey};
pub use append::append_to_storage_value;
pub use codec::{encode_compact_u64, decode_compact_u64};
pub use nibbles::{bytes_to_nibbles, nibbles_to_bytes};
