//! The laws of the coordination API, proved of the reference semantics.

use vstd::prelude::*;

use crate::keys::{is_strict_descendant, valid_key};
use crate::result::OffkvError;
use crate::store::{
    apply_ops, check_ok, first_failed_check, spec_cas, spec_commit, spec_create, spec_erase,
    spec_get, spec_set, spec_txn_op, StoreView, TxnOpResultView,
};
use crate::txn::{OpView, TransactionView};
use crate::wire::txn_keys_valid;

verus! {

/// What `create` stored, `get` reads back: the same version and a byte
/// identical value.
pub proof fn lemma_create_then_get(s: StoreView, k: Seq<char>, v: Seq<u8>, leased: bool)
    requires
        spec_create(s, k, v, leased).1 is Ok,
    ensures
        spec_get(spec_create(s, k, v, leased).0, k) == Ok::<(int, Seq<u8>), OffkvError>(
            (spec_create(s, k, v, leased).1->Ok_0, v),
        ),
{
}

/// A `cas` whose expected version does not match the current one is a
/// no-op: it answers the sentinel version `0` and leaves the key space,
/// and so the stored value and version, untouched.
pub proof fn lemma_cas_mismatch(s: StoreView, k: Seq<char>, v: Seq<u8>, expected: int)
    requires
        valid_key(k),
        expected != s.version_of(k),
    ensures
        spec_cas(s, k, v, expected) == (s, Ok::<int, OffkvError>(0)),
{
}

/// A `cas` whose expected version matches an existing key's current one
/// succeeds, returns a version strictly above the expected one, and `get`
/// then reads the new value under that version.
pub proof fn lemma_cas_match(s: StoreView, k: Seq<char>, v: Seq<u8>, expected: int)
    requires
        s.wf(),
        s.contains(k),
        expected == s.version_of(k),
    ensures
        spec_cas(s, k, v, expected).1 is Ok,
        spec_cas(s, k, v, expected).1->Ok_0 > expected,
        spec_get(spec_cas(s, k, v, expected).0, k) == Ok::<(int, Seq<u8>), OffkvError>(
            (spec_cas(s, k, v, expected).1->Ok_0, v),
        ),
{
}

/// An unconditional erase of an existing key succeeds and removes the key
/// and every descendant; a second unconditional erase then fails with
/// `NoEntry` and changes nothing.
pub proof fn lemma_erase_then_erase(s: StoreView, k: Seq<char>)
    requires
        s.wf(),
        s.contains(k),
    ensures
        spec_erase(s, k, 0).1 is Ok,
        !spec_erase(s, k, 0).0.contains(k),
        forall|d: Seq<char>| #[trigger] is_strict_descendant(d, k) ==> !spec_erase(
            s,
            k,
            0,
        ).0.contains(d),
        spec_erase(spec_erase(s, k, 0).0, k, 0) == (
            spec_erase(s, k, 0).0,
            Err::<(), OffkvError>(OffkvError::NoEntry),
        ),
{
}

/// Versions grow strictly per key: every write that assigns a version
/// returns one strictly above the key's previous version (`0` for a key
/// that did not exist). For `cas`, the sentinel answer `0` reports a
/// mismatch and assigns nothing.
pub proof fn lemma_versions_monotonic(
    s: StoreView,
    k: Seq<char>,
    v: Seq<u8>,
    leased: bool,
    expected: int,
)
    requires
        s.wf(),
    ensures
        spec_create(s, k, v, leased).1 is Ok ==> spec_create(s, k, v, leased).1->Ok_0
            > s.version_of(k),
        spec_set(s, k, v).1 is Ok ==> spec_set(s, k, v).1->Ok_0 > s.version_of(k),
        spec_cas(s, k, v, expected).1 is Ok && spec_cas(s, k, v, expected).1->Ok_0 != 0
            ==> spec_cas(s, k, v, expected).1->Ok_0 > s.version_of(k),
{
}

/// A transaction whose first check fails commits nothing: the key space is
/// left untouched, every key unchanged, and the failure names index `0`.
pub proof fn lemma_commit_first_check_fails(s: StoreView, t: TransactionView)
    requires
        txn_keys_valid(t),
        t.checks.len() >= 1,
        !check_ok(s, t.checks[0]),
    ensures
        spec_commit(s, t) == (
            s,
            Err::<Seq<TxnOpResultView>, OffkvError>(OffkvError::TxnFailed(0)),
        ),
{
}

/// A failed commit is atomic: whatever failed, a check or an operation,
/// the key space is left exactly as it was.
pub proof fn lemma_commit_failure_atomic(s: StoreView, t: TransactionView)
    requires
        spec_commit(s, t).1 is Err,
    ensures
        spec_commit(s, t).0 == s,
{
}

/// A transaction with satisfied checks whose operations are a `Create` and
/// then an `Assign` of distinct keys succeeds: it returns exactly their two
/// new versions, in submission order, and both mutations are visible
/// together in the resulting key space.
pub proof fn lemma_commit_create_assign(
    s: StoreView,
    t: TransactionView,
    ck: Seq<char>,
    cv: Seq<u8>,
    leased: bool,
    ak: Seq<char>,
    av: Seq<u8>,
)
    requires
        s.wf(),
        txn_keys_valid(t),
        first_failed_check(s, t.checks) is None,
        t.ops == seq![
            OpView::Create { key: ck, value: cv, leased },
            OpView::Assign { key: ak, value: av },
        ],
        !s.contains(ck),
        s.parent_present(ck),
        !s.parent_leased(ck),
        s.contains(ak),
        ak != ck,
    ensures
        spec_commit(s, t).1 is Ok,
        spec_commit(s, t).1->Ok_0 == seq![
            TxnOpResultView::Create(s.next_version),
            TxnOpResultView::Assign(s.next_version + 1),
        ],
        spec_commit(s, t).0.contains(ck),
        spec_commit(s, t).0.entries[ck].value == cv,
        spec_commit(s, t).0.entries[ck].version == s.next_version,
        spec_commit(s, t).0.contains(ak),
        spec_commit(s, t).0.entries[ak].value == av,
        spec_commit(s, t).0.entries[ak].version == s.next_version + 1,
{
    let ops = t.ops;
    let op0 = OpView::Create { key: ck, value: cv, leased };
    let op1 = OpView::Assign { key: ak, value: av };
    assert(ops[0] == op0);
    let s1 = spec_txn_op(s, op0)->Some_0.0;
    assert(s1.contains(ak));
    assert(ops.skip(1) =~= seq![op1]);
    assert(ops.skip(1)[0] == op1);
    let s2 = spec_txn_op(s1, op1)->Some_0.0;
    assert(ops.skip(1).skip(1) =~= Seq::<OpView>::empty());
    assert(apply_ops(s2, ops.skip(1).skip(1)) == Ok::<(StoreView, Seq<TxnOpResultView>), int>(
        (s2, Seq::<TxnOpResultView>::empty()),
    ));
    assert(apply_ops(s1, ops.skip(1)) == Ok::<(StoreView, Seq<TxnOpResultView>), int>(
        (s2, seq![TxnOpResultView::Assign(s1.next_version)] + Seq::<TxnOpResultView>::empty()),
    ));
    assert(apply_ops(s, ops) is Ok);
    assert(apply_ops(s, ops)->Ok_0.0 == s2);
    assert(apply_ops(s, ops)->Ok_0.1 =~= seq![
        TxnOpResultView::Create(s.next_version),
        TxnOpResultView::Assign(s.next_version + 1),
    ]);
}

} // verus!
