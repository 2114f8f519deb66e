//! Bundle model and classification layer.
//!
//! A bundle is an ordered list of recovered transactions together with
//! two per-transaction attributes, `optional` and `allowed_to_fail`.
//! The classification layer derives four views over the transaction
//! list (required, optional, critical, failable) purely from those
//! attributes; it never mutates a bundle and never fails.
use vstd::prelude::*;

verus! {

/// Mathematical content of a recovered transaction: its identifying
/// hash and its execution-ready byte encoding.
pub ghost struct TxData {
    pub hash: u64,
    pub encoding: Seq<u8>,
}

/// A transaction whose sender has been verified, identified by its
/// hash and carrying its execution-ready encoding as supplied at
/// recovery time. Immutable once recovered.
#[derive(Debug)]
pub struct RecoveredTx {
    pub hash: u64,
    pub encoding: Vec<u8>,
}

impl View for RecoveredTx {
    type V = TxData;

    open spec fn view(&self) -> TxData {
        TxData { hash: self.hash, encoding: self.encoding@ }
    }
}

/// Position of the first transaction with hash `h`, or -1 if none.
pub open spec fn find_hash(s: Seq<TxData>, h: u64) -> int
    decreases s.len(),
{
    if s.len() == 0 {
        -1
    } else if s[0].hash == h {
        0
    } else {
        let r = find_hash(s.drop_first(), h);
        if r == -1 {
            -1
        } else {
            r + 1
        }
    }
}

/// Whether some transaction in `s` carries hash `h`.
pub open spec fn has_hash(s: Seq<TxData>, h: u64) -> bool {
    exists|i: int| 0 <= i < s.len() && s[i].hash == h
}

/// No two positions of `s` carry the same hash.
pub open spec fn hashes_unique(s: Seq<TxData>) -> bool {
    forall|i: int, j: int| 0 <= i < j < s.len() ==> (#[trigger] s[i]).hash != (#[trigger] s[j]).hash
}

/// `find_hash` finds the first position carrying `h`, and finds one
/// exactly when one exists.
pub proof fn lemma_find_hash(s: Seq<TxData>, h: u64)
    ensures
        find_hash(s, h) == -1 <==> !has_hash(s, h),
        has_hash(s, h) ==> {
            let i = find_hash(s, h);
            &&& 0 <= i < s.len()
            &&& s[i].hash == h
            &&& forall|j: int| 0 <= j < i ==> (#[trigger] s[j]).hash != h
        },
    decreases s.len(),
{
    if s.len() == 0 {
    } else if s[0].hash == h {
    } else {
        let t = s.drop_first();
        lemma_find_hash(t, h);
        assert forall|j: int| 0 <= j < t.len() implies #[trigger] t[j] == s[j + 1] by {}
        if has_hash(s, h) {
            let i = choose|i: int| 0 <= i < s.len() && s[i].hash == h;
            assert(t[i - 1].hash == h);
            assert(has_hash(t, h));
        }
        if has_hash(t, h) {
            let j = choose|j: int| 0 <= j < t.len() && t[j].hash == h;
            assert(s[j + 1].hash == h);
            assert(has_hash(s, h));
        }
        if has_hash(s, h) {
            let r = find_hash(t, h);
            assert(r != -1);
            assert(find_hash(s, h) == r + 1);
            assert(t[r] == s[r + 1]);
            assert(s[r + 1].hash == h);
            assert forall|j: int| 0 <= j < r + 1 implies (#[trigger] s[j]).hash != h by {
                if j > 0 {
                    assert(t[j - 1].hash != h);
                }
            }
        }
    }
}

/// Under unique hashes, looking a transaction's own hash up finds its
/// position.
pub proof fn lemma_find_hash_at(s: Seq<TxData>, i: int)
    requires
        hashes_unique(s),
        0 <= i < s.len(),
    ensures
        find_hash(s, s[i].hash) == i,
{
    let h = s[i].hash;
    assert(has_hash(s, h));
    lemma_find_hash(s, h);
    let i0 = find_hash(s, h);
    if i0 < i {
        assert(s[i0].hash == s[i].hash);
        assert(false);
    }
}

/// The capability a bundle offers to the classification layer: an
/// ordered transaction list and the two per-transaction attributes,
/// queried by hash.
pub trait Bundle: Sized {
    /// The bundle's transactions, in submission order.
    spec fn txs(&self) -> Seq<TxData>;

    /// Whether the transaction with hash `h` may be omitted from the
    /// included set without invalidating the bundle.
    spec fn optional_flag(&self, h: u64) -> bool;

    /// Whether the transaction with hash `h` may revert on execution
    /// without invalidating the bundle.
    spec fn fail_flag(&self, h: u64) -> bool;

    /// The invariant established when a bundle is accepted: attribute
    /// storage covers the transaction list and hashes are unique.
    spec fn wf(&self) -> bool;

    /// The ordered transaction list.
    fn transactions(&self) -> (r: &Vec<RecoveredTx>)
        ensures
            r@.map_values(|t: RecoveredTx| t@) == self.txs(),
    ;

    /// Whether the transaction with hash `h` is optional. Total over
    /// the bundle's declared transaction set.
    fn is_optional(&self, h: u64) -> (r: bool)
        requires
            self.wf(),
            has_hash(self.txs(), h),
        ensures
            r == self.optional_flag(h),
    ;

    /// Whether the transaction with hash `h` is allowed to fail. Total
    /// over the bundle's declared transaction set.
    fn is_allowed_to_fail(&self, h: u64) -> (r: bool)
        requires
            self.wf(),
            has_hash(self.txs(), h),
        ensures
            r == self.fail_flag(h),
    ;
}

/// An error reported at the boundary where a bundle is accepted;
/// classification itself never fails.
#[derive(Debug, Clone, Copy, PartialEq, Eq)]
pub enum BundleError {
    /// An attribute list does not match the transaction list in length.
    AttributeLengthMismatch,
    /// Two transactions in the submitted list carry the same hash.
    DuplicateTxHash,
}

/// A concrete bundle: the ordered transaction list with one attribute
/// entry per position. Immutable once accepted through [`TxBundle::new`].
#[derive(Debug)]
pub struct TxBundle {
    txs: Vec<RecoveredTx>,
    optional: Vec<bool>,
    allowed_to_fail: Vec<bool>,
}

impl Bundle for TxBundle {
    closed spec fn txs(&self) -> Seq<TxData> {
        self.txs@.map_values(|t: RecoveredTx| t@)
    }

    closed spec fn optional_flag(&self, h: u64) -> bool {
        let i = find_hash(self.txs(), h);
        if 0 <= i < self.optional@.len() {
            self.optional@[i]
        } else {
            false
        }
    }

    closed spec fn fail_flag(&self, h: u64) -> bool {
        let i = find_hash(self.txs(), h);
        if 0 <= i < self.allowed_to_fail@.len() {
            self.allowed_to_fail@[i]
        } else {
            false
        }
    }

    closed spec fn wf(&self) -> bool {
        &&& self.optional@.len() == self.txs@.len()
        &&& self.allowed_to_fail@.len() == self.txs@.len()
        &&& hashes_unique(self.txs())
    }

    fn transactions(&self) -> (r: &Vec<RecoveredTx>) {
        &self.txs
    }

    fn is_optional(&self, h: u64) -> (r: bool) {
        let i = self.hash_index(h);
        self.optional[i]
    }

    fn is_allowed_to_fail(&self, h: u64) -> (r: bool) {
        let i = self.hash_index(h);
        self.allowed_to_fail[i]
    }
}

impl TxBundle {
    /// Position of the transaction with hash `h`.
    fn hash_index(&self, h: u64) -> (r: usize)
        requires
            self.wf(),
            has_hash(self.txs(), h),
        ensures
            r == find_hash(self.txs(), h),
            r < self.txs().len(),
    {
        let ghost s = self.txs();
        let n = self.txs.len();
        let mut i: usize = 0;
        while i < n
            invariant
                n == self.txs@.len(),
                s == self.txs(),
                has_hash(s, h),
                i <= n,
                forall|j: int| 0 <= j < i ==> (#[trigger] s[j]).hash != h,
            decreases n - i,
        {
            proof {
                assert(s[i as int] == self.txs@.map_values(|t: RecoveredTx| t@)[i as int]);
            }
            if self.txs[i].hash == h {
                proof {
                    lemma_find_hash(s, h);
                    let i0 = find_hash(s, h);
                    if i0 < i as int {
                        assert(s[i0].hash != h);
                        assert(false);
                    }
                    if i0 > i as int {
                        assert(s[i as int].hash != h);
                        assert(false);
                    }
                }
                return i;
            }
            i += 1;
        }
        proof {
            let w = choose|j: int| 0 <= j < s.len() && s[j].hash == h;
            assert(s[w].hash != h);
            assert(false);
        }
        0
    }

    /// Both attribute lists match the transaction list in length.
    pub closed spec fn attrs_cover(&self) -> bool {
        self.optional@.len() == self.txs@.len() && self.allowed_to_fail@.len() == self.txs@.len()
    }

    /// Re-checks the acceptance conditions on an existing bundle,
    /// reporting the first violation found (lengths before hashes).
    pub fn validate(&self) -> (r: Result<(), BundleError>)
        ensures
            r is Ok <==> self.wf(),
            r == Err::<(), BundleError>(BundleError::AttributeLengthMismatch) <==> !self.attrs_cover(),
            r == Err::<(), BundleError>(BundleError::DuplicateTxHash) <==> (self.attrs_cover()
                && !hashes_unique(self.txs())),
    {
        if self.optional.len() != self.txs.len() || self.allowed_to_fail.len() != self.txs.len() {
            return Err(BundleError::AttributeLengthMismatch);
        }
        if !hashes_unique_check(&self.txs) {
            return Err(BundleError::DuplicateTxHash);
        }
        Ok(())
    }

    /// A fresh copy of this bundle: same transactions, same
    /// attributes.
    pub fn duplicate(&self) -> (r: TxBundle)
        ensures
            r.txs() == self.txs(),
            forall|h: u64| #[trigger] r.optional_flag(h) == self.optional_flag(h),
            forall|h: u64| #[trigger] r.fail_flag(h) == self.fail_flag(h),
            r.wf() == self.wf(),
    {
        let txs = copy_txs(&self.txs);
        let optional = copy_bools(&self.optional);
        let allowed_to_fail = copy_bools(&self.allowed_to_fail);
        let r = TxBundle { txs, optional, allowed_to_fail };
        proof {
            assert(r.txs() =~= self.txs());
        }
        r
    }

    /// Accepts a bundle at the boundary: both attribute lists must
    /// match the transaction list in length and the transaction hashes
    /// must be unique; otherwise the bundle is rejected with the first
    /// violation found (lengths are checked before hashes).
    pub fn new(txs: Vec<RecoveredTx>, optional: Vec<bool>, allowed_to_fail: Vec<bool>) -> (r:
        Result<TxBundle, BundleError>)
        ensures
            r == Err::<TxBundle, BundleError>(BundleError::AttributeLengthMismatch) <==> !(
            optional@.len() == txs@.len() && allowed_to_fail@.len() == txs@.len()),
            r == Err::<TxBundle, BundleError>(BundleError::DuplicateTxHash) <==> (optional@.len()
                == txs@.len() && allowed_to_fail@.len() == txs@.len() && !hashes_unique(
                txs@.map_values(|t: RecoveredTx| t@),
            )),
            r matches Ok(b) ==> {
                &&& b.wf()
                &&& b.txs() == txs@.map_values(|t: RecoveredTx| t@)
                &&& forall|i: int|
                    0 <= i < txs@.len() ==> b.optional_flag((#[trigger] txs@[i])@.hash)
                        == optional@[i]
                &&& forall|i: int|
                    0 <= i < txs@.len() ==> b.fail_flag((#[trigger] txs@[i])@.hash)
                        == allowed_to_fail@[i]
            },
            r is Ok <==> (optional@.len() == txs@.len() && allowed_to_fail@.len() == txs@.len()
                && hashes_unique(txs@.map_values(|t: RecoveredTx| t@))),
    {
        if optional.len() != txs.len() || allowed_to_fail.len() != txs.len() {
            return Err(BundleError::AttributeLengthMismatch);
        }
        if !hashes_unique_check(&txs) {
            return Err(BundleError::DuplicateTxHash);
        }
        let b = TxBundle { txs, optional, allowed_to_fail };
        proof {
            let s = b.txs();
            assert forall|i: int| 0 <= i < b.txs@.len() implies b.optional_flag(
                (#[trigger] b.txs@[i])@.hash,
            ) == b.optional@[i] && b.fail_flag(b.txs@[i]@.hash) == b.allowed_to_fail@[i] by {
                assert(s[i] == b.txs@.map_values(|t: RecoveredTx| t@)[i]);
                lemma_find_hash_at(s, i);
            }
        }
        Ok(b)
    }
}

/// Whether the hashes of `txs` are pairwise distinct.
fn hashes_unique_check(txs: &Vec<RecoveredTx>) -> (r: bool)
    ensures
        r == hashes_unique(txs@.map_values(|t: RecoveredTx| t@)),
{
    let ghost s = txs@.map_values(|t: RecoveredTx| t@);
    let n = txs.len();
    let mut i: usize = 0;
    while i < n
        invariant
            n == txs@.len(),
            s == txs@.map_values(|t: RecoveredTx| t@),
            i <= n,
            forall|a: int, b: int| 0 <= a < i && a < b < n ==> (#[trigger] s[a]).hash != (#[trigger] s[b]).hash,
        decreases n - i,
    {
        let mut j: usize = i + 1;
        while j < n
            invariant
                n == txs@.len(),
                s == txs@.map_values(|t: RecoveredTx| t@),
                i < n,
                i < j <= n,
                forall|a: int, b: int| 0 <= a < i && a < b < n ==> (#[trigger] s[a]).hash != (#[trigger] s[b]).hash,
                forall|b: int| i < b < j ==> s[i as int].hash != (#[trigger] s[b]).hash,
            decreases n - j,
        {
            proof {
                assert(s[i as int] == txs@.map_values(|t: RecoveredTx| t@)[i as int]);
                assert(s[j as int] == txs@.map_values(|t: RecoveredTx| t@)[j as int]);
            }
            if txs[i].hash == txs[j].hash {
                proof {
                    assert(s[i as int].hash == s[j as int].hash);
                    assert(!hashes_unique(s));
                }
                return false;
            }
            j += 1;
        }
        i += 1;
    }
    true
}

/// The four classification views a bundle supports.
#[derive(Debug, Clone, Copy)]
pub enum TxClass {
    /// May be omitted from the included set.
    Optional,
    /// Must be present for the bundle to be valid.
    Required,
    /// Must be present and must succeed.
    Critical,
    /// May revert on execution while the bundle stays valid.
    Failable,
}

/// The predicate a transaction must satisfy to fall into class `c` of
/// bundle `b`. `Failable` selects exactly the transactions whose
/// allowed-to-fail attribute is set.
pub open spec fn class_pred<B: Bundle>(b: &B, c: TxClass) -> spec_fn(TxData) -> bool {
    match c {
        TxClass::Optional => |t: TxData| b.optional_flag(t.hash),
        TxClass::Required => |t: TxData| !b.optional_flag(t.hash),
        TxClass::Critical => |t: TxData| !b.optional_flag(t.hash) && !b.fail_flag(t.hash),
        TxClass::Failable => |t: TxData| b.fail_flag(t.hash),
    }
}

/// The transactions of `b` that fall into class `c`, in bundle order.
pub open spec fn class_view<B: Bundle>(b: &B, c: TxClass) -> Seq<TxData> {
    b.txs().filter(class_pred(b, c))
}

/// The transactions of `b` that may be omitted.
pub open spec fn optional_view<B: Bundle>(b: &B) -> Seq<TxData> {
    class_view(b, TxClass::Optional)
}

/// The transactions of `b` that must be present.
pub open spec fn required_view<B: Bundle>(b: &B) -> Seq<TxData> {
    class_view(b, TxClass::Required)
}

/// The transactions of `b` that must be present and succeed.
pub open spec fn critical_view<B: Bundle>(b: &B) -> Seq<TxData> {
    class_view(b, TxClass::Critical)
}

/// The transactions of `b` that may revert.
pub open spec fn failable_view<B: Bundle>(b: &B) -> Seq<TxData> {
    class_view(b, TxClass::Failable)
}

/// The transaction data behind a sequence of transaction references.
pub open spec fn tx_views(s: Seq<&RecoveredTx>) -> Seq<TxData> {
    s.map_values(|t: &RecoveredTx| t@)
}

proof fn lemma_filter_empty<A>(p: spec_fn(A) -> bool)
    ensures
        Seq::<A>::empty().filter(p) == Seq::<A>::empty(),
{
    reveal(Seq::filter);
}

proof fn lemma_filter_singleton<A>(x: A, p: spec_fn(A) -> bool)
    ensures
        p(x) ==> seq![x].filter(p) == seq![x],
        !p(x) ==> seq![x].filter(p) == Seq::<A>::empty(),
    {
        reveal(Seq::filter);
        assert(seq![x].drop_last() =~= Seq::<A>::empty());
        assert(Seq::<A>::empty().filter(p) =~= Seq::<A>::empty());
        assert(seq![x].last() == x);
        if p(x) {
            assert(seq![x].filter(p) =~= seq![x]);
        } else {
            assert(seq![x].filter(p) =~= Seq::<A>::empty());
        }
    }

/// The transactions of `b` that fall into class `c`, as references
/// into the bundle, in bundle order.
fn classified_txs<'a, B: Bundle>(b: &'a B, c: TxClass) -> (r: Vec<&'a RecoveredTx>)
    requires
        b.wf(),
    ensures
        tx_views(r@) == class_view(b, c),
{
    let v = b.transactions();
    let ghost s = b.txs();
    let ghost p = class_pred(b, c);
    let mut out: Vec<&'a RecoveredTx> = Vec::new();
    proof {
        assert(s.take(0) =~= Seq::<TxData>::empty());
        lemma_filter_empty(p);
        assert(tx_views(out@) =~= Seq::<TxData>::empty());
    }
    let n = v.len();
    let mut i: usize = 0;
    while i < n
        invariant
            b.wf(),
            n == v.len(),
            i <= n,
            v@.map_values(|t: RecoveredTx| t@) == s,
            s == b.txs(),
            p == class_pred(b, c),
            tx_views(out@) == s.take(i as int).filter(p),
        decreases n - i,
    {
        let tx: &RecoveredTx = &v[i];
        proof {
            assert(s[i as int] == v@.map_values(|t: RecoveredTx| t@)[i as int]);
            assert(tx@ == s[i as int]);
            assert(has_hash(s, tx.hash));
        }
        let keep = match c {
            TxClass::Optional => b.is_optional(tx.hash),
            TxClass::Required => !b.is_optional(tx.hash),
            TxClass::Critical => {
                let o = b.is_optional(tx.hash);
                let f = b.is_allowed_to_fail(tx.hash);
                !o && !f
            },
            TxClass::Failable => b.is_allowed_to_fail(tx.hash),
        };
        proof {
            assert(keep == p(s[i as int]));
        }
        let ghost old_out = out@;
        if keep {
            out.push(tx);
        }
        proof {
            let i1 = i as int;
            assert(s.take(i1 + 1) =~= s.take(i1) + seq![s[i1]]);
            Seq::<TxData>::filter_distributes_over_add(s.take(i1), seq![s[i1]], p);
            lemma_filter_singleton(s[i1], p);
            if keep {
                assert(tx_views(out@) =~= tx_views(old_out).push(s[i1]));
                assert(s.take(i1).filter(p) + seq![s[i1]] =~= s.take(i1).filter(p).push(s[i1]));
            } else {
                assert(s.take(i1).filter(p) + Seq::<TxData>::empty() =~= s.take(i1).filter(p));
            }
            assert(tx_views(out@) == s.take(i1 + 1).filter(p));
        }
        i += 1;
    }
    proof {
        assert(s.take(n as int) =~= s);
    }
    out
}

/// Copies a transaction list.
fn copy_txs(v: &Vec<RecoveredTx>) -> (r: Vec<RecoveredTx>)
    ensures
        r@.len() == v@.len(),
        forall|i: int| 0 <= i < v@.len() ==> (#[trigger] r@[i])@ == v@[i]@,
{
    let mut r: Vec<RecoveredTx> = Vec::new();
    let n = v.len();
    let mut i: usize = 0;
    while i < n
        invariant
            n == v@.len(),
            i <= n,
            r@.len() == i,
            forall|j: int| 0 <= j < i ==> (#[trigger] r@[j])@ == v@[j]@,
        decreases n - i,
    {
        let tx = &v[i];
        let copy = RecoveredTx { hash: tx.hash, encoding: copy_bytes(&tx.encoding) };
        r.push(copy);
        i += 1;
    }
    r
}

/// Copies an attribute list.
fn copy_bools(v: &Vec<bool>) -> (r: Vec<bool>)
    ensures
        r@ == v@,
{
    let mut r: Vec<bool> = Vec::new();
    let n = v.len();
    let mut i: usize = 0;
    while i < n
        invariant
            n == v.len(),
            i <= n,
            r@ == v@.take(i as int),
        decreases n - i,
    {
        r.push(v[i]);
        proof {
            assert(v@.take(i as int).push(v@[i as int]) =~= v@.take(i as int + 1));
        }
        i += 1;
    }
    proof {
        assert(v@.take(n as int) =~= v@);
    }
    r
}

/// Copies a byte vector.
fn copy_bytes(v: &Vec<u8>) -> (r: Vec<u8>)
    ensures
        r@ == v@,
{
    let mut r: Vec<u8> = Vec::new();
    let n = v.len();
    let mut i: usize = 0;
    while i < n
        invariant
            n == v.len(),
            i <= n,
            r@ == v@.take(i as int),
        decreases n - i,
    {
        r.push(v[i]);
        proof {
            assert(v@.take(i as int).push(v@[i as int]) =~= v@.take(i as int + 1));
        }
        i += 1;
    }
    proof {
        assert(v@.take(n as int) =~= v@);
    }
    r
}

/// Classification over a bundle: four derived, non-owning views over
/// the bundle's transactions, each computed on demand from the two
/// per-transaction attributes, plus the execution-ready pairing of
/// each transaction with its encoding.
pub trait BundleExt: Bundle {
    /// The transactions that are permitted to revert while the bundle
    /// stays valid: exactly those whose allowed-to-fail attribute is
    /// set.
    fn failable_txs<'a>(&'a self) -> (r: Vec<&'a RecoveredTx>)
        requires
            self.wf(),
        ensures
            tx_views(r@) == failable_view(self),
    {
        classified_txs(self, TxClass::Failable)
    }

    /// The transactions that can be removed from the bundle without
    /// affecting its validity.
    fn optional_txs<'a>(&'a self) -> (r: Vec<&'a RecoveredTx>)
        requires
            self.wf(),
        ensures
            tx_views(r@) == optional_view(self),
    {
        classified_txs(self, TxClass::Optional)
    }

    /// The transactions that are required to be present for the bundle
    /// to be valid, including those that are allowed to fail but must
    /// be present.
    fn required_txs<'a>(&'a self) -> (r: Vec<&'a RecoveredTx>)
        requires
            self.wf(),
        ensures
            tx_views(r@) == required_view(self),
    {
        classified_txs(self, TxClass::Required)
    }

    /// The transactions that must be included and may not fail for the
    /// bundle to be valid.
    fn critical_txs<'a>(&'a self) -> (r: Vec<&'a RecoveredTx>)
        requires
            self.wf(),
        ensures
            tx_views(r@) == critical_view(self),
    {
        classified_txs(self, TxClass::Critical)
    }

    /// The bundle's transactions in a format ready for execution: each
    /// transaction paired with its byte encoding, in bundle order.
    ///
    /// The default pairs each transaction with a fresh copy of its
    /// encoding; an implementor holding the encodings elsewhere may
    /// override this, but the contract fixes the yielded transactions,
    /// their order and their bytes.
    fn transactions_encoded<'a>(&'a self) -> (r: Vec<(Vec<u8>, &'a RecoveredTx)>)
        ensures
            r@.len() == self.txs().len(),
            forall|i: int|
                0 <= i < r@.len() ==> (#[trigger] r@[i]).1@ == self.txs()[i] && r@[i].0@
                    == self.txs()[i].encoding,
    {
        let v = self.transactions();
        let mut out: Vec<(Vec<u8>, &'a RecoveredTx)> = Vec::new();
        let n = v.len();
        let mut i: usize = 0;
        while i < n
            invariant
                n == v.len(),
                i <= n,
                v@.map_values(|t: RecoveredTx| t@) == self.txs(),
                out@.len() == i,
                forall|j: int|
                    0 <= j < i ==> (#[trigger] out@[j]).1@ == self.txs()[j] && out@[j].0@
                        == self.txs()[j].encoding,
            decreases n - i,
        {
            let tx: &RecoveredTx = &v[i];
            proof {
                assert(self.txs()[i as int] == v@.map_values(|t: RecoveredTx| t@)[i as int]);
            }
            let bytes = copy_bytes(&tx.encoding);
            out.push((bytes, tx));
            i += 1;
        }
        out
    }
}

impl BundleExt for TxBundle {

}

proof fn lemma_filter_subset<A>(s: Seq<A>, p: spec_fn(A) -> bool)
    ensures
        forall|x: A| #[trigger] s.filter(p).contains(x) ==> s.contains(x),
    decreases s.len(),
{
    reveal(Seq::filter);
    if s.len() == 0 {
    } else {
        let dl = s.drop_last();
        lemma_filter_subset(dl, p);
        assert forall|x: A| #[trigger] s.filter(p).contains(x) implies s.contains(x) by {
            let f = s.filter(p);
            let k = choose|k: int| 0 <= k < f.len() && f[k] == x;
            if p(s.last()) && k == f.len() - 1 {
                assert(s[s.len() - 1] == x);
            } else {
                assert(dl.filter(p)[k] == x);
                assert(dl.filter(p).contains(x));
                assert(dl.contains(x));
                let j = choose|j: int| 0 <= j < dl.len() && dl[j] == x;
                assert(s[j] == x);
            }
        }
    }
}

proof fn lemma_filter_membership<A>(s: Seq<A>, p: spec_fn(A) -> bool)
    ensures
        forall|x: A| #[trigger] s.filter(p).contains(x) <==> s.contains(x) && p(x),
{
    broadcast use vstd::seq_lib::group_filter_ensures;

    lemma_filter_subset(s, p);
    assert forall|x: A| #[trigger] s.filter(p).contains(x) <==> s.contains(x) && p(x) by {
        if s.filter(p).contains(x) {
            let k = choose|k: int| 0 <= k < s.filter(p).len() && s.filter(p)[k] == x;
            assert(p(s.filter(p)[k]));
        }
        if s.contains(x) && p(x) {
            let j = choose|j: int| 0 <= j < s.len() && s[j] == x;
            assert(s.filter(p).contains(s[j]));
        }
    }
}

proof fn lemma_filter_complement_len<A>(s: Seq<A>, p: spec_fn(A) -> bool, q: spec_fn(A) -> bool)
    requires
        forall|x: A| #[trigger] q(x) == !p(x),
    ensures
        s.filter(p).len() + s.filter(q).len() == s.len(),
    decreases s.len(),
{
    reveal(Seq::filter);
    if s.len() == 0 {
    } else {
        lemma_filter_complement_len(s.drop_last(), p, q);
        assert(q(s.last()) == !p(s.last()));
    }
}

/// Law: the required and optional views partition a bundle's
/// transactions. Their lengths add up to the bundle's length, a
/// transaction is in exactly one of the two views, and membership is
/// decided by the optional attribute alone.
pub proof fn lemma_required_optional_partition<B: Bundle>(b: &B)
    ensures
        required_view(b).len() + optional_view(b).len() == b.txs().len(),
        forall|t: TxData| #[trigger] optional_view(b).contains(t) <==> b.txs().contains(t)
            && b.optional_flag(t.hash),
        forall|t: TxData| #[trigger] required_view(b).contains(t) <==> b.txs().contains(t)
            && !b.optional_flag(t.hash),
        forall|t: TxData| !(required_view(b).contains(t) && #[trigger] optional_view(b).contains(t)),
{
    let s = b.txs();
    let po = class_pred(b, TxClass::Optional);
    let pr = class_pred(b, TxClass::Required);
    lemma_filter_complement_len(s, po, pr);
    lemma_filter_membership(s, po);
    lemma_filter_membership(s, pr);
}

/// Law: the critical view is contained in the required view, and a
/// transaction is critical exactly when it is required and not allowed
/// to fail.
pub proof fn lemma_critical_iff_required_not_failable<B: Bundle>(b: &B)
    ensures
        forall|t: TxData| #[trigger] critical_view(b).contains(t) ==> required_view(b).contains(t),
        forall|t: TxData| #[trigger] critical_view(b).contains(t) <==> required_view(b).contains(t)
            && !b.fail_flag(t.hash),
{
    let s = b.txs();
    lemma_filter_membership(s, class_pred(b, TxClass::Critical));
    lemma_filter_membership(s, class_pred(b, TxClass::Required));
}

/// Law: the failable and critical views together cover a bundle's
/// transactions, and no transaction is in both. This holds with the
/// chosen polarity of the failable view (allowed-to-fail set) for every
/// bundle in which an optional transaction is also allowed to fail; a
/// transaction that is optional but not allowed to fail belongs to
/// neither view.
pub proof fn lemma_failable_critical_cover<B: Bundle>(b: &B)
    requires
        forall|t: TxData| #[trigger] b.txs().contains(t) && b.optional_flag(t.hash)
            ==> b.fail_flag(t.hash),
    ensures
        forall|t: TxData| #[trigger] b.txs().contains(t) <==> failable_view(b).contains(t)
            || critical_view(b).contains(t),
        forall|t: TxData| !(failable_view(b).contains(t) && #[trigger] critical_view(b).contains(t)),
{
    let s = b.txs();
    lemma_filter_membership(s, class_pred(b, TxClass::Failable));
    lemma_filter_membership(s, class_pred(b, TxClass::Critical));
}

} // verus!
