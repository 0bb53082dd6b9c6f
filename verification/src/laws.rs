//! The driver's laws: properties that hold of every execution, proved over
//! the spec transitions of [`crate::driver`].

use vstd::prelude::*;
use crate::driver::{DriverModel, StatusModel, ext_step_spec, inject_key_ok, inject_value_spec,
    inject_progress_spec, merkle_resume_spec, sig_resume_spec, status_prototype, nk_matches,
    next_key_step_ok};
use crate::events::TrieEntryVersion;
use crate::events::{Externality, ResumeModel, RootCalcProgress, VmState, opt_bytes_view};
use crate::diff::{NextKeyOutcome, next_key_result_ok, diff_candidate, bound_ok};
use crate::nibbles::bytes_of_nibbles;
use crate::bytes_order::{lex_lt, lex_le, lemma_lex_trichotomy, lemma_lex_le_lt_transitive};
use crate::append::appended_value;

verus! {

/// The event only writes: it touches the overlays and nothing else.
pub open spec fn is_write_event(ev: Externality) -> bool {
    match ev {
        Externality::StorageSet { .. } => true,
        Externality::StorageAppend { .. } => true,
        Externality::OffchainStorageSet { .. } => true,
        _ => false,
    }
}

/// What a write event does to the main-trie diff.
pub open spec fn apply_write(
    d: Map<Seq<u8>, Option<Seq<u8>>>,
    ev: Externality,
) -> Map<Seq<u8>, Option<Seq<u8>>> {
    match ev {
        Externality::StorageSet { key, value, main_trie } => if main_trie {
            d.insert(key@, opt_bytes_view(value))
        } else {
            d
        },
        Externality::StorageAppend { key, value, main_trie } => if main_trie
            && d.contains_key(key@) {
            d.insert(
                key@,
                Some(
                    appended_value(
                        match d[key@] {
                            Some(v) => v,
                            None => Seq::empty(),
                        },
                        value@,
                    ),
                ),
            )
        } else {
            d
        },
        _ => d,
    }
}

/// What a sequence of write events does to the main-trie diff.
pub open spec fn apply_writes(
    d: Map<Seq<u8>, Option<Seq<u8>>>,
    evs: Seq<Externality>,
) -> Map<Seq<u8>, Option<Seq<u8>>>
    decreases evs.len(),
{
    if evs.len() == 0 {
        d
    } else {
        apply_write(apply_writes(d, evs.drop_last()), evs.last())
    }
}

/// A trace of events the driver answers itself: step `i` takes `states[i]`
/// to `states[i + 1]`, and `states[0]` is the starting state.
pub open spec fn trace_ok(
    s0: DriverModel,
    evs: Seq<Externality>,
    states: Seq<DriverModel>,
) -> bool {
    &&& states.len() == evs.len() + 1
    &&& states[0] == s0
    &&& forall|i: int| 0 <= i < evs.len()
        ==> ((#[trigger] ext_step_spec(states[i], evs[i])) matches StatusModel::ToVm { state, .. }
            && state == states[i + 1])
}

/// A write event moves the overlays alone: the stack, the parked
/// externality, the logs, the version and the prototype stay.
pub proof fn lemma_write_step(s: DriverModel, ev: Externality, post: DriverModel)
    requires
        is_write_event(ev),
        ext_step_spec(s, ev) matches StatusModel::ToVm { state, .. } && state == post,
    ensures
        post.stack == s.stack,
        post.vm == s.vm,
        post.logs == s.logs,
        post.version == s.version,
        post.root_calc == s.root_calc,
        post.max_log_level == s.max_log_level,
        post.prototype == s.prototype,
        post.diff == apply_write(s.diff, ev),
{
}

/// Over a trace of writes, the diff is the folded writes and all the rest
/// of the state stays.
pub proof fn lemma_writes_fold(s0: DriverModel, evs: Seq<Externality>, states: Seq<DriverModel>)
    requires
        trace_ok(s0, evs, states),
        forall|i: int| 0 <= i < evs.len() ==> is_write_event(#[trigger] evs[i]),
    ensures
        states.last().diff == apply_writes(s0.diff, evs),
        states.last().stack == s0.stack,
        states.last().vm == s0.vm,
        states.last().logs == s0.logs,
        states.last().version == s0.version,
        states.last().root_calc == s0.root_calc,
        states.last().prototype == s0.prototype,
    decreases evs.len(),
{
    if evs.len() == 0 {
        assert(states.last() == s0);
    } else {
        let n = evs.len() as int;
        assert(trace_ok(s0, evs.drop_last(), states.drop_last())) by {
            assert(forall|i: int| 0 <= i < n - 1 ==> #[trigger] evs.drop_last()[i] == evs[i]);
            assert(forall|i: int| 0 <= i < n ==> #[trigger] states.drop_last()[i] == states[i]);
        }
        assert(forall|i: int| 0 <= i < n - 1 ==> is_write_event(#[trigger] evs.drop_last()[i]));
        lemma_writes_fold(s0, evs.drop_last(), states.drop_last());
        assert(states.drop_last().last() == states[n - 1]);
        assert(ext_step_spec(states[n - 1], evs[n - 1]) matches StatusModel::ToVm { state, .. }
            && state == states[n]);
        lemma_write_step(states[n - 1], evs[n - 1], states[n]);
        assert(apply_writes(s0.diff, evs) == apply_write(apply_writes(s0.diff, evs.drop_last()),
        evs.last()));
    }
}

/// Transaction rollback: whatever writes happen between `Start` and
/// `End { rollback: true }`, the post-transaction diff equals the
/// pre-transaction diff, and the snapshot stack returns to its prior state.
pub proof fn lemma_transaction_rollback(
    s0: DriverModel,
    s1: DriverModel,
    evs: Seq<Externality>,
    states: Seq<DriverModel>,
    post: DriverModel,
)
    requires
        ext_step_spec(s0, Externality::StartStorageTransaction) matches StatusModel::ToVm {
            state,
            ..
        } && state == s1,
        trace_ok(s1, evs, states),
        forall|i: int| 0 <= i < evs.len() ==> is_write_event(#[trigger] evs[i]),
        ext_step_spec(
            states.last(),
            Externality::EndStorageTransaction { rollback: true },
        ) matches StatusModel::ToVm { state, .. } && state == post,
    ensures
        post.diff == s0.diff,
        post.stack == s0.stack,
{
    assert(s1.stack == s0.stack.push(s0.diff));
    lemma_writes_fold(s1, evs, states);
    let s2 = states.last();
    assert(s2.stack == s0.stack.push(s0.diff));
    assert(s2.stack.len() > 0);
    assert(post.diff == s2.stack.last());
    assert(s2.stack.last() == s0.diff);
    assert(post.stack == s2.stack.drop_last());
    assert(s0.stack.push(s0.diff).drop_last() =~= s0.stack);
}

/// Transaction commit: `End { rollback: false }` keeps every intervening
/// write: the post-transaction diff is the pre-transaction diff with the
/// writes folded over it, and the snapshot stack returns to its prior state.
pub proof fn lemma_transaction_commit(
    s0: DriverModel,
    s1: DriverModel,
    evs: Seq<Externality>,
    states: Seq<DriverModel>,
    post: DriverModel,
)
    requires
        ext_step_spec(s0, Externality::StartStorageTransaction) matches StatusModel::ToVm {
            state,
            ..
        } && state == s1,
        trace_ok(s1, evs, states),
        forall|i: int| 0 <= i < evs.len() ==> is_write_event(#[trigger] evs[i]),
        ext_step_spec(
            states.last(),
            Externality::EndStorageTransaction { rollback: false },
        ) matches StatusModel::ToVm { state, .. } && state == post,
    ensures
        post.diff == apply_writes(s0.diff, evs),
        post.stack == s0.stack,
{
    assert(s1.stack == s0.stack.push(s0.diff));
    lemma_writes_fold(s1, evs, states);
    let s2 = states.last();
    assert(s2.stack.len() > 0);
    assert(post.diff == s2.diff);
    assert(post.stack == s2.stack.drop_last());
    assert(s0.stack.push(s0.diff).drop_last() =~= s0.stack);
}

/// Nested rollback: rolling back an inner transaction returns the stack to
/// its state before the inner `Start`, so every outer snapshot, and with it
/// every outer transaction, is unaffected.
pub proof fn lemma_nested_rollback(
    s0: DriverModel,
    s1: DriverModel,
    evs: Seq<Externality>,
    states: Seq<DriverModel>,
    post: DriverModel,
)
    requires
        s0.stack.len() > 0,
        ext_step_spec(s0, Externality::StartStorageTransaction) matches StatusModel::ToVm {
            state,
            ..
        } && state == s1,
        trace_ok(s1, evs, states),
        forall|i: int| 0 <= i < evs.len() ==> is_write_event(#[trigger] evs[i]),
        ext_step_spec(
            states.last(),
            Externality::EndStorageTransaction { rollback: true },
        ) matches StatusModel::ToVm { state, .. } && state == post,
    ensures
        post.stack == s0.stack,
        post.stack.last() == s0.stack.last(),
        post.diff == s0.diff,
{
    lemma_transaction_rollback(s0, s1, evs, states, post);
}

/// `ev` writes the main-trie key `k`.
pub open spec fn writes_key(ev: Externality, k: Seq<u8>) -> bool {
    match ev {
        Externality::StorageSet { key, main_trie, .. } => main_trie && key@ == k,
        Externality::StorageAppend { key, main_trie, .. } => main_trie && key@ == k,
        _ => false,
    }
}

/// Writes to other keys do not move `k`'s overlay entry.
pub proof fn lemma_key_preserved(
    s0: DriverModel,
    evs: Seq<Externality>,
    states: Seq<DriverModel>,
    k: Seq<u8>,
)
    requires
        trace_ok(s0, evs, states),
        forall|i: int| 0 <= i < evs.len() ==> is_write_event(#[trigger] evs[i]) && !writes_key(
            evs[i],
            k,
        ),
    ensures
        states.last().diff.contains_key(k) == s0.diff.contains_key(k),
        s0.diff.contains_key(k) ==> states.last().diff[k] == s0.diff[k],
    decreases evs.len(),
{
    if evs.len() > 0 {
        let n = evs.len() as int;
        assert(trace_ok(s0, evs.drop_last(), states.drop_last())) by {
            assert(forall|i: int| 0 <= i < n - 1 ==> #[trigger] evs.drop_last()[i] == evs[i]);
            assert(forall|i: int| 0 <= i < n ==> #[trigger] states.drop_last()[i] == states[i]);
        }
        assert(forall|i: int| 0 <= i < n - 1 ==> is_write_event(#[trigger] evs.drop_last()[i])
            && !writes_key(evs.drop_last()[i], k));
        lemma_key_preserved(s0, evs.drop_last(), states.drop_last(), k);
        assert(states.drop_last().last() == states[n - 1]);
        assert(ext_step_spec(states[n - 1], evs[n - 1]) matches StatusModel::ToVm { state, .. }
            && state == states[n]);
        lemma_write_step(states[n - 1], evs[n - 1], states[n]);
        assert(!writes_key(evs[n - 1], k));
        assert(evs.last() == evs[n - 1]);
    } else {
        assert(states.last() == s0);
    }
}

/// Overlay primacy: after the driver records the write `k := v`, a read of
/// `k` is answered from the overlay with `v`, with no yield towards the
/// backing store, however many writes to other keys come in between.
pub proof fn lemma_overlay_primacy(
    s0: DriverModel,
    k: Vec<u8>,
    v: Vec<u8>,
    s1: DriverModel,
    evs: Seq<Externality>,
    states: Seq<DriverModel>,
    kq: Vec<u8>,
)
    requires
        ext_step_spec(
            s0,
            Externality::StorageSet { key: k, value: Some(v), main_trie: true },
        ) matches StatusModel::ToVm { state, .. } && state == s1,
        trace_ok(s1, evs, states),
        forall|i: int| 0 <= i < evs.len() ==> is_write_event(#[trigger] evs[i]) && !writes_key(
            evs[i],
            k@,
        ),
        kq@ == k@,
    ensures
        ext_step_spec(states.last(), Externality::StorageGet { key: kq, main_trie: true })
            == (StatusModel::ToVm {
            state: states.last(),
            resume: ResumeModel::StorageValue { value: Some(v@) },
        }),
{
    assert(s1.diff == s0.diff.insert(k@, Some(v@)));
    lemma_key_preserved(s1, evs, states, k@);
    assert(states.last().diff.contains_key(k@));
    assert(states.last().diff[k@] == Some(v@));
}

/// Erase visibility: after the driver records the erasure of `k`, a read
/// of `k` observes "absent" without consulting the backing store, and no
/// next-key search through the overlay can return `k`.
pub proof fn lemma_erase_visibility(s0: DriverModel, k: Vec<u8>, s1: DriverModel, kq: Vec<u8>)
    requires
        ext_step_spec(
            s0,
            Externality::StorageSet { key: k, value: None, main_trie: true },
        ) matches StatusModel::ToVm { state, .. } && state == s1,
        kq@ == k@,
    ensures
        ext_step_spec(s1, Externality::StorageGet { key: kq, main_trie: true })
            == (StatusModel::ToVm {
            state: s1,
            resume: ResumeModel::StorageValue { value: None },
        }),
        forall|req: Seq<u8>, bk: Option<Seq<u8>>, oe: bool, out: NextKeyOutcome|
            #[trigger] next_key_result_ok(s1.diff, req, bk, oe, out) ==> out
                != NextKeyOutcome::Found(Some(k@)),
{
    assert(s1.diff == s0.diff.insert(k@, None));
    assert(s1.diff.contains_key(k@) && s1.diff[k@] is None);
    assert forall|req: Seq<u8>, bk: Option<Seq<u8>>, oe: bool, out: NextKeyOutcome|
        #[trigger] next_key_result_ok(s1.diff, req, bk, oe, out) implies out
        != NextKeyOutcome::Found(Some(k@)) by {
        if out == NextKeyOutcome::Found(Some(k@)) {
            assert(s1.diff[k@] is Some);
        }
    }
}

/// The log cap: while the buffer is below 1 MiB, a message that would push
/// it to the ceiling terminates the driver before any byte of it is
/// recorded, and a message that fits is recorded whole, keeping the buffer
/// below the ceiling.
pub proof fn lemma_log_cap(s: DriverModel, msg: Vec<u8>)
    requires
        s.logs.len() < 0x10_0000,
    ensures
        s.logs.len() + msg@.len() >= 0x10_0000 ==> ext_step_spec(
            s,
            Externality::LogEmit { message: msg },
        ) == (StatusModel::LogsOverflow { prototype: s.prototype }),
        s.logs.len() + msg@.len() < 0x10_0000 ==> ext_step_spec(
            s,
            Externality::LogEmit { message: msg },
        ) == (StatusModel::ToVm {
            state: DriverModel { logs: s.logs + msg@, ..s },
            resume: ResumeModel::Ready,
        }) && (s.logs + msg@).len() < 0x10_0000,
{
}

/// Cancellation is lossless of the prototype: every step of the driver
/// carries the configured prototype through unchanged, whatever the status.
pub proof fn lemma_prototype_preserved(
    s: DriverModel,
    ev: Externality,
    p: RootCalcProgress,
    v: Option<(Seq<u8>, TrieEntryVersion)>,
    mv: Option<Seq<u8>>,
    valid: bool,
)
    ensures
        status_prototype(ext_step_spec(s, ev)) == s.prototype,
        status_prototype(inject_progress_spec(s, p)) == s.prototype,
        status_prototype(inject_value_spec(s, v)) == s.prototype,
        status_prototype(merkle_resume_spec(s, mv)) == s.prototype,
        status_prototype(sig_resume_spec(s, valid)) == s.prototype,
{
}

/// Cancellation is lossless of the prototype across a next-key injection
/// too, whichever admissible outcome the overlay search produced.
pub proof fn lemma_inject_key_prototype(
    pre: DriverModel,
    ko: Option<Seq<u8>>,
    removed: u32,
    answer: Option<Seq<u8>>,
    r: StatusModel,
)
    requires
        inject_key_ok(pre, ko, removed, answer, r),
        !(pre.vm is ReadyToRun || pre.vm is StorageGet || pre.vm is StorageAppend
            || pre.vm is SignatureVerification),
    ensures
        status_prototype(r) == pre.prototype,
{
    if pre.vm is StorageNextKey {
        let req = match ko {
            Some(k) => k,
            None => pre.vm->StorageNextKey_key@,
        };
        let ans = match answer {
            Some(a) => Some(bytes_of_nibbles(a)),
            None => None,
        };
        assert(next_key_step_ok(pre, req, ans, r));
        let out = choose|out: NextKeyOutcome| nk_matches(pre, req, ans, out, r);
        assert(nk_matches(pre, req, ans, out, r));
    }
}

/// Next-key consistency: when `k` is an overlay write past the requested
/// key, no other overlay write comes between, and the backing store has
/// nothing before `k` to offer, the search returns `k`, whatever the
/// backing store answered.
pub proof fn lemma_next_key_consistency(
    m: Map<Seq<u8>, Option<Seq<u8>>>,
    req: Seq<u8>,
    k: Seq<u8>,
    bk: Option<Seq<u8>>,
    out: NextKeyOutcome,
)
    requires
        m.contains_key(k) && m[k] is Some,
        bound_ok(req, k, false),
        forall|j: Seq<u8>| #[trigger] diff_candidate(m, req, false, j) ==> lex_le(k, j),
        bk matches Some(b) ==> lex_le(k, b),
        next_key_result_ok(m, req, bk, false, out),
    ensures
        out == NextKeyOutcome::Found(Some(k)),
{
    assert(diff_candidate(m, req, false, k));
    match out {
        NextKeyOutcome::Found(ko) => {
            match ko {
                Some(x) => {
                    assert(lex_le(x, k));
                    assert(lex_le(k, x)) by {
                        if diff_candidate(m, req, false, x) {
                        } else {
                            assert(bk == Some(x));
                        }
                    }
                    lemma_lex_trichotomy(x, k);
                    assert(x == k);
                },
                None => {
                    assert(false);
                },
            }
        },
        NextKeyOutcome::NextOf(b) => {
            assert(lex_lt(b, k));
            assert(lex_le(k, b));
            lemma_lex_le_lt_transitive(k, b, k);
            lemma_lex_trichotomy(k, k);
            assert(false);
        },
    }
}

/// The clear-prefix cap: under a cap of `m`, a continuing step erases
/// exactly one more key and only happens below the cap, and a resumption
/// reports at most `m` keys removed, with `all_done` exactly when the cap
/// was reached before the prefix ran out of keys.
pub proof fn lemma_clear_prefix_cap(
    pre: DriverModel,
    ko: Option<Seq<u8>>,
    removed: u32,
    answer: Option<Seq<u8>>,
    r: StatusModel,
    m: u32,
)
    requires
        pre.vm matches VmState::StorageClearPrefix { max_keys_to_remove, .. }
            && max_keys_to_remove == Some(m),
        removed <= m,
        removed < u32::MAX,
        inject_key_ok(pre, ko, removed, answer, r),
    ensures
        r matches StatusModel::NeedKey { keys_removed, state, .. } ==> removed < m && keys_removed
            == removed + 1 && keys_removed <= m && (answer matches Some(a) && state.diff
            == pre.diff.insert(bytes_of_nibbles(a), None)),
        r matches StatusModel::ToVm { resume: ResumeModel::ClearedPrefix { keys_removed, all_done }, .. }
            ==> keys_removed == removed && keys_removed <= m && (all_done <==> (answer is Some
            && removed >= m)),
{
}

/// During the root sub-protocol the driver only routes: taking the
/// calculator's progress report never changes the overlays, the snapshot
/// stack, or the logs.
pub proof fn lemma_root_routing_preserves_state(pre: DriverModel, p: RootCalcProgress)
    ensures
        match inject_progress_spec(pre, p) {
            StatusModel::NeedKey { state, .. } => state.diff == pre.diff && state.stack
                == pre.stack && state.offchain == pre.offchain && state.logs == pre.logs,
            StatusModel::NeedValue { state } => state.diff == pre.diff && state.stack == pre.stack
                && state.offchain == pre.offchain && state.logs == pre.logs,
            StatusModel::NeedMerkle { state } => state.diff == pre.diff && state.stack == pre.stack
                && state.offchain == pre.offchain && state.logs == pre.logs,
            StatusModel::ToCalc { state, .. } => state.diff == pre.diff && state.stack == pre.stack
                && state.offchain == pre.offchain && state.logs == pre.logs,
            StatusModel::ToVm { state, .. } => state.diff == pre.diff && state.stack == pre.stack
                && state.offchain == pre.offchain && state.logs == pre.logs,
            _ => true,
        },
{
}

} // verus!

