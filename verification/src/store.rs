//! The reference semantics of the coordination API.
//!
//! `StoreView` is the abstract key space the service maintains; the spec
//! transitions below state exactly what each session call and each
//! transaction commit returns and how it changes that space. `Store` is an
//! executable in-memory realization, verified against those transitions; it
//! is what the tests drive, and the laws of the API are proved of the
//! transitions themselves.

use vstd::prelude::*;

use crate::keys::{
    check_key, is_child, is_descendant, is_direct_child, is_strict_descendant, parent_key,
    parent_of, str_eq, valid_key,
};
use crate::result::OffkvError;
use crate::txn::{CheckView, OpView, Transaction, TransactionView, TxnCheck, TxnOp, TxnOpResult};
use crate::wire::txn_keys_valid;

verus! {

/// What the service holds under one key.
pub struct RecView {
    /// The value bytes.
    pub value: Seq<u8>,
    /// The version the last write assigned; always at least `1`.
    pub version: int,
    /// Whether the key is leased.
    pub leased: bool,
}

/// The abstract state of the service's key space.
pub struct StoreView {
    /// The live entries.
    pub entries: Map<Seq<char>, RecView>,
    /// The version the next write will assign; versions grow strictly.
    pub next_version: int,
}

impl StoreView {
    /// The key is present.
    pub open spec fn contains(self, k: Seq<char>) -> bool {
        self.entries.contains_key(k)
    }

    /// The current version of the key, with `0` as the sentinel for an
    /// absent key.
    pub open spec fn version_of(self, k: Seq<char>) -> int {
        if self.contains(k) {
            self.entries[k].version
        } else {
            0
        }
    }

    /// The key's direct parent is present; a top-level key hangs off the
    /// root, which always exists.
    pub open spec fn parent_present(self, k: Seq<char>) -> bool {
        parent_key(k).len() == 0 || self.contains(parent_key(k))
    }

    /// The key's direct parent is a leased entry.
    pub open spec fn parent_leased(self, k: Seq<char>) -> bool {
        &&& parent_key(k).len() > 0
        &&& self.contains(parent_key(k))
        &&& self.entries[parent_key(k)].leased
    }

    /// Well-formedness: versions start at `1` and every stored version is
    /// below the next one to be assigned, and every stored key obeys the
    /// key grammar.
    pub open spec fn wf(self) -> bool {
        &&& self.next_version >= 1
        &&& forall|k: Seq<char>|
            self.entries.contains_key(k) ==> 1 <= (#[trigger] self.entries[k]).version
                < self.next_version
        &&& forall|k: Seq<char>| #[trigger] self.entries.contains_key(k) ==> valid_key(k)
    }
}

/// The keys a subtree erase takes out: the key itself and every strict
/// descendant.
pub open spec fn subtree_keys(k: Seq<char>) -> Set<Seq<char>> {
    Set::new(|d: Seq<char>| d == k || is_strict_descendant(d, k))
}

/// What `create` returns and how it changes the key space.
pub open spec fn spec_create(s: StoreView, k: Seq<char>, v: Seq<u8>, leased: bool) -> (
    StoreView,
    Result<int, OffkvError>,
) {
    if !valid_key(k) {
        (s, Err(OffkvError::InvalidKey))
    } else if s.contains(k) {
        (s, Err(OffkvError::EntryExists))
    } else if !s.parent_present(k) {
        (s, Err(OffkvError::NoEntry))
    } else if s.parent_leased(k) {
        (s, Err(OffkvError::NoChildrenForEphemeral))
    } else {
        (
            StoreView {
                entries: s.entries.insert(
                    k,
                    RecView { value: v, version: s.next_version, leased },
                ),
                next_version: s.next_version + 1,
            },
            Ok(s.next_version),
        )
    }
}

/// What `set` returns and how it changes the key space: overwrite when the
/// key exists, create (under a live, unleased parent) when it does not;
/// either way the new version is returned.
pub open spec fn spec_set(s: StoreView, k: Seq<char>, v: Seq<u8>) -> (
    StoreView,
    Result<int, OffkvError>,
) {
    if !valid_key(k) {
        (s, Err(OffkvError::InvalidKey))
    } else if s.contains(k) {
        (
            StoreView {
                entries: s.entries.insert(
                    k,
                    RecView { value: v, version: s.next_version, leased: s.entries[k].leased },
                ),
                next_version: s.next_version + 1,
            },
            Ok(s.next_version),
        )
    } else if !s.parent_present(k) {
        (s, Err(OffkvError::NoEntry))
    } else if s.parent_leased(k) {
        (s, Err(OffkvError::NoChildrenForEphemeral))
    } else {
        (
            StoreView {
                entries: s.entries.insert(
                    k,
                    RecView { value: v, version: s.next_version, leased: false },
                ),
                next_version: s.next_version + 1,
            },
            Ok(s.next_version),
        )
    }
}

/// What `cas` returns and how it changes the key space. The expected
/// version is compared against the current one, with `0` standing for an
/// absent key; a mismatch is a no-op answered with the sentinel version
/// `0`, not an error.
pub open spec fn spec_cas(s: StoreView, k: Seq<char>, v: Seq<u8>, expected: int) -> (
    StoreView,
    Result<int, OffkvError>,
) {
    if !valid_key(k) {
        (s, Err(OffkvError::InvalidKey))
    } else if expected != s.version_of(k) {
        (s, Ok(0))
    } else if s.contains(k) {
        (
            StoreView {
                entries: s.entries.insert(
                    k,
                    RecView { value: v, version: s.next_version, leased: s.entries[k].leased },
                ),
                next_version: s.next_version + 1,
            },
            Ok(s.next_version),
        )
    } else if !s.parent_present(k) {
        (s, Err(OffkvError::NoEntry))
    } else if s.parent_leased(k) {
        (s, Err(OffkvError::NoChildrenForEphemeral))
    } else {
        (
            StoreView {
                entries: s.entries.insert(
                    k,
                    RecView { value: v, version: s.next_version, leased: false },
                ),
                next_version: s.next_version + 1,
            },
            Ok(s.next_version),
        )
    }
}

/// What `erase` returns and how it changes the key space. A non-zero
/// expected version that does not match is a no-op, not an error; erasing
/// an absent key is `NoEntry`; an erase that goes through takes the key
/// and all its descendants.
pub open spec fn spec_erase(s: StoreView, k: Seq<char>, expected: int) -> (
    StoreView,
    Result<(), OffkvError>,
) {
    if !valid_key(k) {
        (s, Err(OffkvError::InvalidKey))
    } else if !s.contains(k) {
        (s, Err(OffkvError::NoEntry))
    } else if expected != 0 && expected != s.entries[k].version {
        (s, Ok(()))
    } else {
        (
            StoreView { entries: s.entries.remove_keys(subtree_keys(k)), next_version: s.next_version },
            Ok(()),
        )
    }
}

/// What `get` returns: the current version and value of a present key.
pub open spec fn spec_get(s: StoreView, k: Seq<char>) -> Result<(int, Seq<u8>), OffkvError> {
    if !valid_key(k) {
        Err(OffkvError::InvalidKey)
    } else if !s.contains(k) {
        Err(OffkvError::NoEntry)
    } else {
        Ok((s.entries[k].version, s.entries[k].value))
    }
}

/// What `exists` returns: the current version, with the sentinel `0` for an
/// absent key; absence is not an error.
pub open spec fn spec_exists(s: StoreView, k: Seq<char>) -> Result<int, OffkvError> {
    if !valid_key(k) {
        Err(OffkvError::InvalidKey)
    } else {
        Ok(s.version_of(k))
    }
}

/// What `get_children` returns: the set of direct children of a present
/// key; grandchildren are not in it.
pub open spec fn spec_children(s: StoreView, k: Seq<char>) -> Result<Set<Seq<char>>, OffkvError> {
    if !valid_key(k) {
        Err(OffkvError::InvalidKey)
    } else if !s.contains(k) {
        Err(OffkvError::NoEntry)
    } else {
        Ok(Set::new(|d: Seq<char>| s.contains(d) && is_direct_child(d, k)))
    }
}

/// A check holds when the key's current version equals the given one, or,
/// when the given version is the sentinel `0`, when the key merely exists.
pub open spec fn check_ok(s: StoreView, c: CheckView) -> bool {
    if c.version == 0 {
        s.contains(c.key)
    } else {
        s.version_of(c.key) == c.version
    }
}

/// The index of the first check that does not hold, if any.
pub open spec fn first_failed_check(s: StoreView, checks: Seq<CheckView>) -> Option<int>
    decreases checks.len(),
{
    if checks.len() == 0 {
        None
    } else if !check_ok(s, checks[0]) {
        Some(0)
    } else {
        match first_failed_check(s, checks.skip(1)) {
            Some(i) => Some(i + 1),
            None => None,
        }
    }
}

/// The mathematical content of one transaction result entry.
pub enum TxnOpResultView {
    /// The initial version of the entry a `Create` made.
    Create(int),
    /// The new version an `Assign` gave its key.
    Assign(int),
}

impl View for TxnOpResult {
    type V = TxnOpResultView;

    open spec fn view(&self) -> TxnOpResultView {
        match self {
            TxnOpResult::Create(v) => TxnOpResultView::Create(*v as int),
            TxnOpResult::Assign(v) => TxnOpResultView::Assign(*v as int),
        }
    }
}

/// The result entries of a committed transaction, as mathematical values.
pub open spec fn results_view(rs: Seq<TxnOpResult>) -> Seq<TxnOpResultView> {
    rs.map_values(|r: TxnOpResult| r@)
}

/// What one transaction operation does: `None` when it aborts the
/// transaction, otherwise the new key space and the result entry the
/// operation contributes, if it contributes one.
pub open spec fn spec_txn_op(s: StoreView, op: OpView) -> Option<(StoreView, Option<TxnOpResultView>)> {
    match op {
        OpView::Create { key, value, leased } => {
            if s.contains(key) || !s.parent_present(key) || s.parent_leased(key) {
                None
            } else {
                Some(
                    (
                        StoreView {
                            entries: s.entries.insert(
                                key,
                                RecView { value, version: s.next_version, leased },
                            ),
                            next_version: s.next_version + 1,
                        },
                        Some(TxnOpResultView::Create(s.next_version)),
                    ),
                )
            }
        },
        OpView::Assign { key, value } => {
            if !s.contains(key) {
                None
            } else {
                Some(
                    (
                        StoreView {
                            entries: s.entries.insert(
                                key,
                                RecView {
                                    value,
                                    version: s.next_version,
                                    leased: s.entries[key].leased,
                                },
                            ),
                            next_version: s.next_version + 1,
                        },
                        Some(TxnOpResultView::Assign(s.next_version)),
                    ),
                )
            }
        },
        OpView::Erase { key } => {
            if !s.contains(key) {
                None
            } else {
                Some(
                    (
                        StoreView {
                            entries: s.entries.remove_keys(subtree_keys(key)),
                            next_version: s.next_version,
                        },
                        None,
                    ),
                )
            }
        },
    }
}

/// Applies the operations in order. `Err` carries the index of the first
/// operation that aborts; `Ok` carries the final key space and the result
/// entries in submission order.
pub open spec fn apply_ops(s: StoreView, ops: Seq<OpView>) -> Result<
    (StoreView, Seq<TxnOpResultView>),
    int,
>
    decreases ops.len(),
{
    if ops.len() == 0 {
        Ok((s, Seq::empty()))
    } else {
        match spec_txn_op(s, ops[0]) {
            None => Err(0),
            Some((s1, r0)) => match apply_ops(s1, ops.skip(1)) {
                Err(i) => Err(i + 1),
                Ok((s2, rs)) => Ok(
                    (
                        s2,
                        match r0 {
                            Some(r) => seq![r] + rs,
                            None => rs,
                        },
                    ),
                ),
            },
        }
    }
}

/// What `commit` returns and how it changes the key space. Every key is
/// validated first; then the checks are evaluated as a group against the
/// current state; only when all hold are the operations applied, in order.
/// A failure leaves the key space untouched and names the failing index:
/// the index into the check list when a check failed, else the index into
/// the operation list.
pub open spec fn spec_commit(s: StoreView, t: TransactionView) -> (
    StoreView,
    Result<Seq<TxnOpResultView>, OffkvError>,
) {
    if !txn_keys_valid(t) {
        (s, Err(OffkvError::InvalidKey))
    } else {
        match first_failed_check(s, t.checks) {
            Some(i) => (s, Err(OffkvError::TxnFailed(i as u32))),
            None => match apply_ops(s, t.ops) {
                Err(j) => (s, Err(OffkvError::TxnFailed(j as u32))),
                Ok((s2, rs)) => (s2, Ok(rs)),
            },
        }
    }
}

/// One stored entry of the executable store.
struct StoreEntry {
    key: String,
    value: Vec<u8>,
    version: i64,
    leased: bool,
}

/// The record an entry denotes.
spec fn entry_rec(e: StoreEntry) -> RecView {
    RecView { value: e.value@, version: e.version as int, leased: e.leased }
}

/// The map a sequence of entries denotes.
spec fn entries_map(s: Seq<StoreEntry>) -> Map<Seq<char>, RecView>
    decreases s.len(),
{
    if s.len() == 0 {
        Map::empty()
    } else {
        entries_map(s.drop_last()).insert(s.last().key@, entry_rec(s.last()))
    }
}

/// No two entries share a key.
spec fn keys_distinct(s: Seq<StoreEntry>) -> bool {
    forall|i: int, j: int| 0 <= i < j < s.len() ==> s[i].key@ != s[j].key@
}

/// A key is in the denoted map exactly when some entry holds it.
proof fn lemma_entries_map_domain(s: Seq<StoreEntry>, k: Seq<char>)
    ensures
        entries_map(s).contains_key(k) <==> exists|i: int|
            0 <= i < s.len() && (#[trigger] s[i]).key@ == k,
    decreases s.len(),
{
    if s.len() > 0 {
        lemma_entries_map_domain(s.drop_last(), k);
        if s.last().key@ == k {
            assert(s[s.len() - 1].key@ == k);
        } else if entries_map(s).contains_key(k) {
            let i = choose|i: int| 0 <= i < s.len() - 1 && (#[trigger] s.drop_last()[i]).key@ == k;
            assert(s[i].key@ == k);
        } else if exists|i: int| 0 <= i < s.len() && (#[trigger] s[i]).key@ == k {
            let i = choose|i: int| 0 <= i < s.len() && (#[trigger] s[i]).key@ == k;
            assert(s.drop_last()[i].key@ == k);
        }
    }
}

/// Under distinct keys, the denoted map sends each entry's key to that
/// entry's record.
proof fn lemma_entries_map_index(s: Seq<StoreEntry>, i: int)
    requires
        keys_distinct(s),
        0 <= i < s.len(),
    ensures
        entries_map(s).contains_key(s[i].key@),
        entries_map(s)[s[i].key@] == entry_rec(s[i]),
    decreases s.len(),
{
    if i < s.len() - 1 {
        assert(keys_distinct(s.drop_last())) by {
            assert(forall|p: int, q: int|
                0 <= p < q < s.len() - 1 ==> s.drop_last()[p].key@ == s[p].key@
                    && s.drop_last()[q].key@ == s[q].key@);
        }
        lemma_entries_map_index(s.drop_last(), i);
        assert(s.drop_last()[i] == s[i]);
        assert(s[i].key@ != s.last().key@);
    }
}

/// Appending an entry inserts its record.
proof fn lemma_entries_map_push(s: Seq<StoreEntry>, e: StoreEntry)
    ensures
        entries_map(s.push(e)) == entries_map(s).insert(e.key@, entry_rec(e)),
{
    assert(s.push(e).drop_last() =~= s);
    assert(s.push(e).last() == e);
}

/// Overwriting the entry that holds a key inserts the new record over the
/// old one.
proof fn lemma_entries_map_update(s: Seq<StoreEntry>, i: int, e: StoreEntry)
    requires
        keys_distinct(s),
        0 <= i < s.len(),
        e.key@ == s[i].key@,
    ensures
        entries_map(s.update(i, e)) == entries_map(s).insert(e.key@, entry_rec(e)),
    decreases s.len(),
{
    let t = s.update(i, e);
    if i == s.len() - 1 {
        assert(t.drop_last() =~= s.drop_last());
        assert(t.last() == e);
        assert(entries_map(s).insert(e.key@, entry_rec(e)) =~= entries_map(s.drop_last()).insert(
            e.key@,
            entry_rec(e),
        ));
    } else {
        assert(keys_distinct(s.drop_last())) by {
            assert(forall|p: int, q: int|
                0 <= p < q < s.len() - 1 ==> s.drop_last()[p].key@ == s[p].key@
                    && s.drop_last()[q].key@ == s[q].key@);
        }
        lemma_entries_map_update(s.drop_last(), i, e);
        assert(t.drop_last() =~= s.drop_last().update(i, e));
        assert(t.last() == s.last());
        assert(s[i].key@ != s.last().key@);
        assert(entries_map(s.drop_last()).insert(e.key@, entry_rec(e)).insert(
            s.last().key@,
            entry_rec(s.last()),
        ) =~= entries_map(s.drop_last()).insert(s.last().key@, entry_rec(s.last())).insert(
            e.key@,
            entry_rec(e),
        ));
    }
}

/// Entry sequences that agree key-for-key and record-for-record denote the
/// same map.
proof fn lemma_entries_map_pointwise(a: Seq<StoreEntry>, b: Seq<StoreEntry>)
    requires
        a.len() == b.len(),
        forall|i: int|
            0 <= i < a.len() ==> (#[trigger] a[i]).key@ == b[i].key@ && entry_rec(a[i])
                == entry_rec(b[i]),
    ensures
        entries_map(a) == entries_map(b),
    decreases a.len(),
{
    if a.len() > 0 {
        assert(forall|i: int|
            0 <= i < a.len() - 1 ==> (#[trigger] a.drop_last()[i]).key@ == b.drop_last()[i].key@
                && entry_rec(a.drop_last()[i]) == entry_rec(b.drop_last()[i]));
        lemma_entries_map_pointwise(a.drop_last(), b.drop_last());
        assert(a.last().key@ == b.last().key@);
        assert(entry_rec(a.last()) == entry_rec(b.last()));
    }
}

/// An executable in-memory store realizing the reference semantics.
pub struct Store {
    entries: Vec<StoreEntry>,
    next_version: i64,
}

impl View for Store {
    type V = StoreView;

    closed spec fn view(&self) -> StoreView {
        StoreView { entries: entries_map(self.entries@), next_version: self.next_version as int }
    }
}

impl Store {
    /// The representation invariant: no key twice, and the denoted key
    /// space is well-formed.
    pub closed spec fn inv(&self) -> bool {
        &&& keys_distinct(self.entries@)
        &&& self@.wf()
    }

    /// An empty store; the first write will assign version `1`.
    pub fn new() -> (s: Store)
        ensures
            s.inv(),
            s@.entries == Map::<Seq<char>, RecView>::empty(),
            s@.next_version == 1,
    {
        Store { entries: Vec::new(), next_version: 1 }
    }

    /// The position of the entry holding `key`, if any.
    fn find(&self, key: &str) -> (r: Option<usize>)
        ensures
            match r {
                Some(i) => i < self.entries@.len() && self.entries@[i as int].key@ == key@
                    && self@.contains(key@),
                None => !self@.contains(key@),
            },
    {
        let mut i: usize = 0;
        while i < self.entries.len()
            invariant
                0 <= i <= self.entries@.len(),
                forall|j: int| 0 <= j < i ==> (#[trigger] self.entries@[j]).key@ != key@,
            decreases self.entries@.len() - i,
        {
            if str_eq(self.entries[i].key.as_str(), key) {
                proof {
                    lemma_entries_map_domain(self.entries@, key@);
                }
                return Some(i);
            }
            i = i + 1;
        }
        proof {
            lemma_entries_map_domain(self.entries@, key@);
        }
        None
    }

    /// Reads a key: its current version and value.
    pub fn get(&self, key: &str) -> (r: Result<(i64, Vec<u8>), OffkvError>)
        requires
            self.inv(),
        ensures
            match (r, spec_get(self@, key@)) {
                (Ok(a), Ok(b)) => a.0 as int == b.0 && a.1@ == b.1,
                (Err(a), Err(b)) => a == b,
                _ => false,
            },
    {
        if !check_key(key) {
            return Err(OffkvError::InvalidKey);
        }
        match self.find(key) {
            None => Err(OffkvError::NoEntry),
            Some(i) => {
                proof {
                    lemma_entries_map_index(self.entries@, i as int);
                }
                let e = &self.entries[i];
                Ok((e.version, crate::wire::copy_bytes(&e.value)))
            },
        }
    }

    /// Reads a key's current version, with the sentinel `0` when it is
    /// absent; absence is not an error.
    pub fn exists_version(&self, key: &str) -> (r: Result<i64, OffkvError>)
        requires
            self.inv(),
        ensures
            version_result_matches(r, spec_exists(self@, key@)),
    {
        if !check_key(key) {
            return Err(OffkvError::InvalidKey);
        }
        match self.find(key) {
            None => Ok(0),
            Some(i) => {
                proof {
                    lemma_entries_map_index(self.entries@, i as int);
                }
                Ok(self.entries[i].version)
            },
        }
    }
}

/// A write of version `next_version` under a valid fresh or present key
/// keeps the key space well-formed.
proof fn lemma_wf_insert(s: StoreView, k: Seq<char>, rec: RecView)
    requires
        s.wf(),
        valid_key(k),
        rec.version == s.next_version,
    ensures
        (StoreView { entries: s.entries.insert(k, rec), next_version: s.next_version + 1 }).wf(),
{
    let t = StoreView { entries: s.entries.insert(k, rec), next_version: s.next_version + 1 };
    assert forall|k2: Seq<char>| t.entries.contains_key(k2) implies 1 <= (
    #[trigger] t.entries[k2]).version < t.next_version && valid_key(k2) by {
        if k2 != k {
            assert(s.entries.contains_key(k2));
        }
    }
}

impl Store {
    /// Stores a fresh entry under `key` and assigns it the next version.
    fn insert_new(&mut self, key: &str, value: &Vec<u8>, leased: bool) -> (ver: i64)
        requires
            old(self).inv(),
            valid_key(key@),
            !old(self)@.contains(key@),
            old(self)@.next_version < i64::MAX,
        ensures
            final(self).inv(),
            ver == old(self)@.next_version,
            final(self)@.entries == old(self)@.entries.insert(
                key@,
                RecView { value: value@, version: old(self)@.next_version, leased },
            ),
            final(self)@.next_version == old(self)@.next_version + 1,
    {
        let ver = self.next_version;
        let e = StoreEntry {
            key: key.to_owned(),
            value: crate::wire::copy_bytes(value),
            version: ver,
            leased,
        };
        let ghost s0 = self.entries@;
        let ghost e0 = e;
        self.entries.push(e);
        self.next_version = ver + 1;
        proof {
            lemma_entries_map_domain(s0, key@);
            lemma_entries_map_push(s0, e0);
            assert(keys_distinct(self.entries@)) by {
                assert(forall|j: int| 0 <= j < s0.len() ==> (#[trigger] s0[j]).key@ != key@);
                assert(forall|j: int| 0 <= j < s0.len() ==> self.entries@[j] == s0[j]);
            }
            lemma_wf_insert(
                old(self)@,
                key@,
                RecView { value: value@, version: old(self)@.next_version, leased },
            );
        }
        ver
    }

    /// Overwrites the entry at `i` with a new value, keeping its key and
    /// lease, and assigns it the next version.
    fn overwrite_at(&mut self, i: usize, value: &Vec<u8>) -> (ver: i64)
        requires
            old(self).inv(),
            i < old(self).entries@.len(),
            old(self)@.next_version < i64::MAX,
        ensures
            final(self).inv(),
            ver == old(self)@.next_version,
            final(self)@.entries == old(self)@.entries.insert(
                old(self).entries@[i as int].key@,
                RecView {
                    value: value@,
                    version: old(self)@.next_version,
                    leased: old(self)@.entries[old(self).entries@[i as int].key@].leased,
                },
            ),
            final(self)@.next_version == old(self)@.next_version + 1,
    {
        proof {
            lemma_entries_map_index(self.entries@, i as int);
        }
        let ver = self.next_version;
        let leased = self.entries[i].leased;
        let e = StoreEntry {
            key: self.entries[i].key.clone(),
            value: crate::wire::copy_bytes(value),
            version: ver,
            leased,
        };
        let ghost s0 = self.entries@;
        let ghost e0 = e;
        self.entries.set(i, e);
        self.next_version = ver + 1;
        proof {
            lemma_entries_map_update(s0, i as int, e0);
            assert(keys_distinct(self.entries@)) by {
                assert(forall|j: int|
                    0 <= j < s0.len() ==> (#[trigger] self.entries@[j]).key@ == s0[j].key@);
            }
            lemma_wf_insert(
                old(self)@,
                s0[i as int].key@,
                RecView {
                    value: value@,
                    version: old(self)@.next_version,
                    leased: old(self)@.entries[s0[i as int].key@].leased,
                },
            );
        }
        ver
    }

    /// Creates a key. Fails when the key grammar is broken, the key already
    /// exists, its parent is missing, or its parent is leased.
    pub fn create(&mut self, key: &str, value: &Vec<u8>, leased: bool) -> (r: Result<
        i64,
        OffkvError,
    >)
        requires
            old(self).inv(),
            old(self)@.next_version < i64::MAX,
        ensures
            final(self).inv(),
            final(self)@ == spec_create(old(self)@, key@, value@, leased).0,
            version_result_matches(r, spec_create(old(self)@, key@, value@, leased).1),
    {
        if !check_key(key) {
            return Err(OffkvError::InvalidKey);
        }
        match self.find(key) {
            Some(_) => Err(OffkvError::EntryExists),
            None => {
                let parent = parent_of(key);
                if !parent.as_str().is_empty() {
                    match self.find(parent.as_str()) {
                        None => {
                            return Err(OffkvError::NoEntry);
                        },
                        Some(pi) => {
                            proof {
                                lemma_entries_map_index(self.entries@, pi as int);
                            }
                            if self.entries[pi].leased {
                                return Err(OffkvError::NoChildrenForEphemeral);
                            }
                        },
                    }
                }
                let ver = self.insert_new(key, value, leased);
                Ok(ver)
            },
        }
    }

    /// Writes a key: overwrites it when present, creates it (under a live,
    /// unleased parent) when absent; returns the new version either way.
    pub fn set(&mut self, key: &str, value: &Vec<u8>) -> (r: Result<i64, OffkvError>)
        requires
            old(self).inv(),
            old(self)@.next_version < i64::MAX,
        ensures
            final(self).inv(),
            final(self)@ == spec_set(old(self)@, key@, value@).0,
            version_result_matches(r, spec_set(old(self)@, key@, value@).1),
    {
        if !check_key(key) {
            return Err(OffkvError::InvalidKey);
        }
        match self.find(key) {
            Some(i) => {
                let ver = self.overwrite_at(i, value);
                Ok(ver)
            },
            None => {
                let parent = parent_of(key);
                if !parent.as_str().is_empty() {
                    match self.find(parent.as_str()) {
                        None => {
                            return Err(OffkvError::NoEntry);
                        },
                        Some(pi) => {
                            proof {
                                lemma_entries_map_index(self.entries@, pi as int);
                            }
                            if self.entries[pi].leased {
                                return Err(OffkvError::NoChildrenForEphemeral);
                            }
                        },
                    }
                }
                let ver = self.insert_new(key, value, false);
                Ok(ver)
            },
        }
    }

    /// Compare-and-set: writes only when the expected version equals the
    /// current one, with `0` standing for an absent key; a mismatch is a
    /// no-op answered with the sentinel version `0`.
    pub fn cas(&mut self, key: &str, value: &Vec<u8>, version: i64) -> (r: Result<
        i64,
        OffkvError,
    >)
        requires
            old(self).inv(),
            old(self)@.next_version < i64::MAX,
        ensures
            final(self).inv(),
            final(self)@ == spec_cas(old(self)@, key@, value@, version as int).0,
            version_result_matches(r, spec_cas(old(self)@, key@, value@, version as int).1),
    {
        if !check_key(key) {
            return Err(OffkvError::InvalidKey);
        }
        match self.find(key) {
            Some(i) => {
                proof {
                    lemma_entries_map_index(self.entries@, i as int);
                }
                if version != self.entries[i].version {
                    return Ok(0);
                }
                let ver = self.overwrite_at(i, value);
                Ok(ver)
            },
            None => {
                if version != 0 {
                    return Ok(0);
                }
                let parent = parent_of(key);
                if !parent.as_str().is_empty() {
                    match self.find(parent.as_str()) {
                        None => {
                            return Err(OffkvError::NoEntry);
                        },
                        Some(pi) => {
                            proof {
                                lemma_entries_map_index(self.entries@, pi as int);
                            }
                            if self.entries[pi].leased {
                                return Err(OffkvError::NoChildrenForEphemeral);
                            }
                        },
                    }
                }
                let ver = self.insert_new(key, value, false);
                Ok(ver)
            },
        }
    }
}

/// `v` lists exactly the keys of `cs`, each once.
pub open spec fn children_listing(v: Seq<String>, cs: Set<Seq<char>>) -> bool {
    &&& forall|p: int| 0 <= p < v.len() ==> cs.contains((#[trigger] v[p])@)
    &&& forall|d: Seq<char>| #[trigger] cs.contains(d) ==> exists|p: int|
        0 <= p < v.len() && (#[trigger] v[p])@ == d
    &&& forall|p: int, q: int| 0 <= p < q < v.len() ==> (#[trigger] v[p])@ != (#[trigger] v[q])@
}

/// Clones one entry.
fn clone_entry(e: &StoreEntry) -> (r: StoreEntry)
    ensures
        r.key@ == e.key@,
        entry_rec(r) == entry_rec(*e),
{
    StoreEntry {
        key: e.key.clone(),
        value: crate::wire::copy_bytes(&e.value),
        version: e.version,
        leased: e.leased,
    }
}

impl Store {
    /// Takes out a key's whole subtree: the key itself and every strict
    /// descendant.
    fn remove_subtree(&mut self, key: &str)
        requires
            old(self).inv(),
        ensures
            final(self).inv(),
            final(self)@.entries == old(self)@.entries.remove_keys(subtree_keys(key@)),
            final(self)@.next_version == old(self)@.next_version,
    {
        let ghost s0 = self.entries@;
        let ghost sub = subtree_keys(key@);
        let mut kept: Vec<StoreEntry> = Vec::new();
        let mut j: usize = 0;
                while j < self.entries.len()
                    invariant
                        0 <= j <= s0.len(),
                        self.entries@ == s0,
                        keys_distinct(s0),
                        sub == subtree_keys(key@),
                        entries_map(kept@) == entries_map(s0.take(j as int)).remove_keys(sub),
                        forall|p: int| 0 <= p < kept@.len() ==> exists|q: int|
                            0 <= q < j && (#[trigger] kept@[p]).key@ == s0[q].key@,
                        keys_distinct(kept@),
                    decreases s0.len() - j,
                {
                    let e = &self.entries[j];
                    let drop_it = str_eq(e.key.as_str(), key) || is_descendant(e.key.as_str(), key);
                    proof {
                        assert(s0.take(j as int + 1).drop_last() =~= s0.take(j as int));
                        assert(s0.take(j as int + 1).last() == s0[j as int]);
                    }
                    if !drop_it {
                        let e2 = clone_entry(e);
                        let ghost kept0 = kept@;
                        let ghost e2g = e2;
                        kept.push(e2);
                        proof {
                            lemma_entries_map_push(kept0, e2g);
                            assert(!sub.contains(e2g.key@));
                            assert(entries_map(kept0).remove_keys(sub).insert(
                                e2g.key@,
                                entry_rec(e2g),
                            ) =~= entries_map(s0.take(j as int + 1)).remove_keys(sub)) by {
                                assert(entries_map(s0.take(j as int + 1)) == entries_map(
                                    s0.take(j as int),
                                ).insert(s0[j as int].key@, entry_rec(s0[j as int])));
                            }
                            assert(entries_map(kept@) == entries_map(kept0).insert(
                                e2g.key@,
                                entry_rec(e2g),
                            ));
                            assert(entries_map(kept0).insert(e2g.key@, entry_rec(e2g)) =~= entries_map(
                                kept0,
                            ).remove_keys(sub).insert(e2g.key@, entry_rec(e2g)));
                            assert(keys_distinct(kept@)) by {
                                assert forall|p: int| 0 <= p < kept0.len() implies (
                                #[trigger] kept0[p]).key@ != e2g.key@ by {
                                    let q = choose|q: int|
                                        0 <= q < j && (#[trigger] kept0[p]).key@ == s0[q].key@;
                                    assert(s0[q].key@ != s0[j as int].key@);
                                }
                                assert(forall|p: int|
                                    0 <= p < kept0.len() ==> #[trigger] kept@[p] == kept0[p]);
                            }
                        }
                    } else {
                        proof {
                            assert(sub.contains(s0[j as int].key@));
                            assert(entries_map(s0.take(j as int + 1)).remove_keys(sub)
                                =~= entries_map(s0.take(j as int)).remove_keys(sub)) by {
                                assert(entries_map(s0.take(j as int + 1)) == entries_map(
                                    s0.take(j as int),
                                ).insert(s0[j as int].key@, entry_rec(s0[j as int])));
                            }
                        }
                    }
                    j = j + 1;
                }
        proof {
            assert(s0.take(s0.len() as int) =~= s0);
        }
        self.entries = kept;
        proof {
            assert(self@.entries == old(self)@.entries.remove_keys(sub));
            assert(self@.wf()) by {
                assert forall|k2: Seq<char>| self@.entries.contains_key(k2) implies 1 <= (
                #[trigger] self@.entries[k2]).version < self@.next_version && valid_key(k2) by {
                    assert(old(self)@.entries.contains_key(k2));
                    assert(self@.entries[k2] == old(self)@.entries[k2]);
                }
            }
        }
    }

    /// Erases a key and all its descendants when the expected version is
    /// the sentinel `0` or matches; a non-zero mismatch is a no-op, and an
    /// absent key is an error.
    pub fn erase(&mut self, key: &str, version: i64) -> (r: Result<(), OffkvError>)
        requires
            old(self).inv(),
        ensures
            final(self).inv(),
            final(self)@ == spec_erase(old(self)@, key@, version as int).0,
            match (r, spec_erase(old(self)@, key@, version as int).1) {
                (Ok(_), Ok(_)) => true,
                (Err(a), Err(b)) => a == b,
                _ => false,
            },
    {
        if !check_key(key) {
            return Err(OffkvError::InvalidKey);
        }
        match self.find(key) {
            None => Err(OffkvError::NoEntry),
            Some(i) => {
                proof {
                    lemma_entries_map_index(self.entries@, i as int);
                }
                if version != 0 && version != self.entries[i].version {
                    return Ok(());
                }
                self.remove_subtree(key);
                Ok(())
            },
        }
    }

    /// Lists the direct children of a present key, each exactly once;
    /// grandchildren are not among them.
    pub fn get_children(&self, key: &str) -> (r: Result<Vec<String>, OffkvError>)
        requires
            self.inv(),
        ensures
            match (r, spec_children(self@, key@)) {
                (Ok(v), Ok(cs)) => children_listing(v@, cs),
                (Err(a), Err(b)) => a == b,
                _ => false,
            },
    {
        if !check_key(key) {
            return Err(OffkvError::InvalidKey);
        }
        match self.find(key) {
            None => Err(OffkvError::NoEntry),
            Some(_) => {
                let ghost s0 = self.entries@;
                let mut out: Vec<String> = Vec::new();
                let mut j: usize = 0;
                while j < self.entries.len()
                    invariant
                        0 <= j <= s0.len(),
                        self.entries@ == s0,
                        keys_distinct(s0),
                        forall|p: int| 0 <= p < out@.len() ==> exists|q: int|
                            0 <= q < j && (#[trigger] out@[p])@ == s0[q].key@,
                        forall|p: int|
                            0 <= p < out@.len() ==> is_direct_child((#[trigger] out@[p])@, key@),
                        forall|q: int|
                            0 <= q < j && is_direct_child((#[trigger] s0[q]).key@, key@)
                                ==> exists|p: int| 0 <= p < out@.len() && (#[trigger] out@[p])@
                                == s0[q].key@,
                        forall|p: int, q: int|
                            0 <= p < q < out@.len() ==> (#[trigger] out@[p])@ != (
                            #[trigger] out@[q])@,
                    decreases s0.len() - j,
                {
                    let e = &self.entries[j];
                    if is_child(e.key.as_str(), key) {
                        let ghost out0 = out@;
                        out.push(e.key.clone());
                        proof {
                            assert(out@[out0.len() as int]@ == s0[j as int].key@);
                            assert(forall|p: int|
                                0 <= p < out0.len() ==> #[trigger] out@[p] == out0[p]);
                            assert forall|p: int| 0 <= p < out0.len() implies (
                            #[trigger] out0[p])@ != s0[j as int].key@ by {
                                let q = choose|q: int|
                                    0 <= q < j && (#[trigger] out0[p])@ == s0[q].key@;
                                assert(s0[q].key@ != s0[j as int].key@);
                            }
                            assert forall|q: int|
                                0 <= q < j + 1 && is_direct_child(
                                    (#[trigger] s0[q]).key@,
                                    key@,
                                ) implies exists|p: int|
                                0 <= p < out@.len() && (#[trigger] out@[p])@ == s0[q].key@ by {
                                if q == j {
                                    assert(out@[out0.len() as int]@ == s0[q].key@);
                                } else {
                                    let p = choose|p: int|
                                        0 <= p < out0.len() && (#[trigger] out0[p])@
                                            == s0[q].key@;
                                    assert(out@[p]@ == s0[q].key@);
                                }
                            }
                        }
                    } else {
                        proof {
                            assert(!is_direct_child(s0[j as int].key@, key@));
                        }
                    }
                    j = j + 1;
                }
                proof {
                    let cs = spec_children(self@, key@)->Ok_0;
                    assert forall|p: int| 0 <= p < out@.len() implies cs.contains(
                        (#[trigger] out@[p])@,
                    ) by {
                        let q = choose|q: int|
                            0 <= q < s0.len() && (#[trigger] out@[p])@ == s0[q].key@;
                        lemma_entries_map_index(s0, q);
                    }
                    assert forall|d: Seq<char>| #[trigger] cs.contains(d) implies exists|p: int|
                        0 <= p < out@.len() && (#[trigger] out@[p])@ == d by {
                        lemma_entries_map_domain(s0, d);
                        let q = choose|q: int| 0 <= q < s0.len() && (#[trigger] s0[q]).key@ == d;
                        assert(is_direct_child(s0[q].key@, key@));
                    }
                }
                Ok(out)
            },
        }
    }
}

/// The mathematical content of a sequence of operations.
pub open spec fn ops_views(ops: Seq<TxnOp>) -> Seq<OpView> {
    ops.map_values(|o: TxnOp| o@)
}

/// When the checks up to `i` hold and the one at `i` does not, `i` is the
/// first failing index.
proof fn lemma_ffc_at(s: StoreView, checks: Seq<CheckView>, i: int)
    requires
        0 <= i < checks.len(),
        !check_ok(s, checks[i]),
        forall|j: int| 0 <= j < i ==> check_ok(s, #[trigger] checks[j]),
    ensures
        first_failed_check(s, checks) == Some(i),
    decreases i,
{
    if i > 0 {
        assert(check_ok(s, checks[0]));
        assert(checks.skip(1)[i - 1] == checks[i]);
        assert forall|j: int| 0 <= j < i - 1 implies check_ok(s, #[trigger] checks.skip(1)[j]) by {
            assert(checks.skip(1)[j] == checks[j + 1]);
        }
        lemma_ffc_at(s, checks.skip(1), i - 1);
    }
}

/// When every check holds, none fails.
proof fn lemma_ffc_none(s: StoreView, checks: Seq<CheckView>)
    requires
        forall|j: int| 0 <= j < checks.len() ==> check_ok(s, #[trigger] checks[j]),
    ensures
        first_failed_check(s, checks) is None,
    decreases checks.len(),
{
    if checks.len() > 0 {
        assert forall|j: int| 0 <= j < checks.len() - 1 implies check_ok(
            s,
            #[trigger] checks.skip(1)[j],
        ) by {
            assert(checks.skip(1)[j] == checks[j + 1]);
        }
        lemma_ffc_none(s, checks.skip(1));
    }
}

impl Store {
    /// Evaluates one check against the current state.
    fn eval_check(&self, c: &TxnCheck) -> (r: bool)
        requires
            self.inv(),
        ensures
            r == check_ok(self@, c@),
    {
        match self.find(c.key.as_str()) {
            None => false,
            Some(i) => {
                proof {
                    lemma_entries_map_index(self.entries@, i as int);
                }
                if c.version == 0 {
                    true
                } else {
                    self.entries[i].version == c.version
                }
            },
        }
    }

    /// A deep copy with the same key space.
    fn duplicate(&self) -> (r: Store)
        requires
            self.inv(),
        ensures
            r.inv(),
            r@ == self@,
    {
        let mut v: Vec<StoreEntry> = Vec::new();
        let mut j: usize = 0;
        while j < self.entries.len()
            invariant
                0 <= j <= self.entries@.len(),
                v@.len() == j,
                forall|p: int|
                    0 <= p < j ==> (#[trigger] v@[p]).key@ == self.entries@[p].key@ && entry_rec(
                        v@[p],
                    ) == entry_rec(self.entries@[p]),
            decreases self.entries@.len() - j,
        {
            let e2 = clone_entry(&self.entries[j]);
            v.push(e2);
            j = j + 1;
        }
        proof {
            lemma_entries_map_pointwise(v@, self.entries@);
            if self.inv() {
                assert(keys_distinct(v@));
            }
        }
        Store { entries: v, next_version: self.next_version }
    }

    /// One transaction `Create`: aborts when the key exists, its parent is
    /// missing, or its parent is leased.
    fn txn_create_step(&mut self, key: &str, value: &Vec<u8>, leased: bool) -> (ok: bool)
        requires
            old(self).inv(),
            valid_key(key@),
            old(self)@.next_version < i64::MAX,
        ensures
            final(self).inv(),
            match spec_txn_op(old(self)@, OpView::Create { key: key@, value: value@, leased }) {
                None => !ok && final(self)@ == old(self)@,
                Some((s2, _)) => ok && final(self)@ == s2,
            },
    {
        match self.find(key) {
            Some(_) => false,
            None => {
                let parent = parent_of(key);
                if !parent.as_str().is_empty() {
                    match self.find(parent.as_str()) {
                        None => {
                            return false;
                        },
                        Some(pi) => {
                            proof {
                                lemma_entries_map_index(self.entries@, pi as int);
                            }
                            if self.entries[pi].leased {
                                return false;
                            }
                        },
                    }
                }
                self.insert_new(key, value, leased);
                true
            },
        }
    }

    /// One transaction `Assign`: aborts when the key does not exist.
    fn txn_assign_step(&mut self, key: &str, value: &Vec<u8>) -> (ok: bool)
        requires
            old(self).inv(),
            old(self)@.next_version < i64::MAX,
        ensures
            final(self).inv(),
            match spec_txn_op(old(self)@, OpView::Assign { key: key@, value: value@ }) {
                None => !ok && final(self)@ == old(self)@,
                Some((s2, _)) => ok && final(self)@ == s2,
            },
    {
        match self.find(key) {
            None => false,
            Some(i) => {
                self.overwrite_at(i, value);
                true
            },
        }
    }

    /// One transaction `Erase`: aborts when the key does not exist, else
    /// takes the key and all its descendants.
    fn txn_erase_step(&mut self, key: &str) -> (ok: bool)
        requires
            old(self).inv(),
        ensures
            final(self).inv(),
            match spec_txn_op(old(self)@, OpView::Erase { key: key@ }) {
                None => !ok && final(self)@ == old(self)@,
                Some((s2, _)) => ok && final(self)@ == s2,
            },
    {
        match self.find(key) {
            None => false,
            Some(_) => {
                self.remove_subtree(key);
                true
            },
        }
    }

    /// Applies the operations from `i` on, in order, appending each result
    /// entry to `out`; stops at the first operation that aborts and
    /// reports its index.
    fn apply_txn_ops(&mut self, ops: &Vec<TxnOp>, i: usize, out: &mut Vec<TxnOpResult>) -> (r:
        Result<(), usize>)
        requires
            old(self).inv(),
            i <= ops@.len(),
            forall|j: int|
                0 <= j < ops@.len() ==> valid_key((#[trigger] ops_views(ops@)[j]).key()),
            old(self)@.next_version + (ops@.len() - i) <= i64::MAX,
        ensures
            final(self).inv(),
            match r {
                Ok(_) => {
                    &&& apply_ops(old(self)@, ops_views(ops@).skip(i as int)) is Ok
                    &&& final(self)@ == apply_ops(
                        old(self)@,
                        ops_views(ops@).skip(i as int),
                    )->Ok_0.0
                    &&& results_view(final(out)@) == results_view(old(out)@) + apply_ops(
                        old(self)@,
                        ops_views(ops@).skip(i as int),
                    )->Ok_0.1
                },
                Err(j) => {
                    &&& i <= j < ops@.len()
                    &&& apply_ops(old(self)@, ops_views(ops@).skip(i as int)) == Err::<
                        (StoreView, Seq<TxnOpResultView>),
                        int,
                    >((j - i) as int)
                },
            },
        decreases ops@.len() - i,
    {
        let ghost ovs = ops_views(ops@);
        if i == ops.len() {
            proof {
                assert(ovs.skip(i as int) =~= Seq::<OpView>::empty());
                assert(results_view(out@) =~= results_view(out@) + Seq::<
                    TxnOpResultView,
                >::empty());
            }
            return Ok(());
        }
        proof {
            assert(ovs.skip(i as int)[0] == ovs[i as int]);
            assert(ovs.skip(i as int).skip(1) =~= ovs.skip(i as int + 1));
        }
        let ver = self.next_version;
        let ghost out0 = out@;
        let ok = match &ops[i] {
            TxnOp::Create { key, value, leased } => {
                let ok = self.txn_create_step(key.as_str(), value, *leased);
                if ok {
                    out.push(TxnOpResult::Create(ver));
                }
                ok
            },
            TxnOp::Assign { key, value } => {
                let ok = self.txn_assign_step(key.as_str(), value);
                if ok {
                    out.push(TxnOpResult::Assign(ver));
                }
                ok
            },
            TxnOp::Erase { key } => self.txn_erase_step(key.as_str()),
        };
        if !ok {
            return Err(i);
        }
        let ghost s1 = self@;
        let ghost out1 = out@;
        let r = self.apply_txn_ops(ops, i + 1, out);
        proof {
            if r is Ok {
                let (s2, rs) = apply_ops(s1, ovs.skip(i as int + 1))->Ok_0;
                match spec_txn_op(old(self)@, ovs[i as int])->Some_0.1 {
                    Some(r0) => {
                        assert(results_view(out1) =~= results_view(out0) + seq![r0]);
                        assert(results_view(out@) =~= results_view(out0) + (seq![r0] + rs));
                    },
                    None => {
                        assert(results_view(out1) == results_view(out0));
                    },
                }
            }
        }
        match r {
            Ok(()) => Ok(()),
            Err(j) => Err(j),
        }
    }

    /// Commits a transaction: all keys validated locally first, then the
    /// checks evaluated as a group against the current state; only when
    /// all hold are the operations applied, in order and atomically. A
    /// failed check or operation leaves the key space untouched and names
    /// its index.
    pub fn commit(&mut self, t: &Transaction) -> (r: Result<Vec<TxnOpResult>, OffkvError>)
        requires
            old(self).inv(),
            old(self)@.next_version + t@.ops.len() <= i64::MAX,
            t@.checks.len() <= u32::MAX,
            t@.ops.len() <= u32::MAX,
        ensures
            final(self).inv(),
            final(self)@ == spec_commit(old(self)@, t@).0,
            match (r, spec_commit(old(self)@, t@).1) {
                (Ok(v), Ok(rs)) => results_view(v@) == rs,
                (Err(a), Err(b)) => a == b,
                _ => false,
            },
    {
        if !crate::wire::check_txn_keys(t) {
            return Err(OffkvError::InvalidKey);
        }
        let mut i: usize = 0;
        while i < t.checks.len()
            invariant
                0 <= i <= t.checks@.len(),
                t@.checks.len() == t.checks@.len(),
                t@.checks.len() <= u32::MAX,
                txn_keys_valid(t@),
                *self == *old(self),
                old(self).inv(),
                forall|j: int| 0 <= j < i ==> check_ok(old(self)@, #[trigger] t@.checks[j]),
            decreases t.checks@.len() - i,
        {
            if !self.eval_check(&t.checks[i]) {
                proof {
                    lemma_ffc_at(old(self)@, t@.checks, i as int);
                }
                return Err(OffkvError::TxnFailed(i as u32));
            }
            i = i + 1;
        }
        proof {
            lemma_ffc_none(old(self)@, t@.checks);
            assert(ops_views(t.ops@) == t@.ops);
        }
        let mut work = self.duplicate();
        let mut results: Vec<TxnOpResult> = Vec::new();
        proof {
            assert(ops_views(t.ops@).skip(0) =~= ops_views(t.ops@));
        }
        let r = work.apply_txn_ops(&t.ops, 0, &mut results);
        match r {
            Err(j) => Err(OffkvError::TxnFailed(j as u32)),
            Ok(()) => {
                self.entries = work.entries;
                self.next_version = work.next_version;
                proof {
                    assert(results_view(results@) =~= apply_ops(old(self)@, t@.ops)->Ok_0.1);
                }
                Ok(results)
            },
        }
    }
}

/// The executable version-or-error result realizes the mathematical one.
pub open spec fn version_result_matches(r: Result<i64, OffkvError>, m: Result<
    int,
    OffkvError,
>) -> bool {
    match (r, m) {
        (Ok(a), Ok(b)) => a as int == b,
        (Err(a), Err(b)) => a == b,
        _ => false,
    }
}

} // verus!
