//! The pool handle.
//!
//! One pool instance per running node, created with empty state and
//! shared by every handle: cloning a handle copies the reference, not
//! the state, so a write completed through one handle is observed by
//! reads through any clone. The internal state sits behind a verified
//! reader-writer lock whose invariant keeps every stored bundle
//! well-formed, so classification is total on every bundle a handle
//! can observe.
use crate::bundle::{Bundle, BundleError, TxBundle};
use crate::surface::{ModulesView, RegistrationContext, RegistrationError, RpcModules, register_spec};
use std::sync::Arc;
use vstd::prelude::*;
use vstd::rwlock::{RwLock, RwLockPredicate};

verus! {

/// The pool's internal state: the bundles accepted so far, in
/// submission order.
pub struct PoolState {
    pub bundles: Vec<TxBundle>,
}

impl PoolState {
    /// Every bundle held by the pool is well-formed.
    pub open spec fn wf(&self) -> bool {
        forall|i: int| 0 <= i < self.bundles@.len() ==> (#[trigger] self.bundles@[i]).wf()
    }
}

/// The invariant each state stored behind the pool's lock satisfies.
pub struct StateInv;

impl RwLockPredicate<PoolState> for StateInv {
    open spec fn inv(self, s: PoolState) -> bool {
        s.wf()
    }
}

/// Relies on std's Arc::clone: the returned handle is backed by the
/// same allocation as the argument, so it carries the same lock.
#[verifier::external_body]
fn share_state(a: &Arc<RwLock<PoolState, StateInv>>) -> (r: Arc<RwLock<PoolState, StateInv>>)
    ensures
        r == *a,
{
    Arc::clone(a)
}

/// An order pool handling mempool operations for transactions and
/// bundles.
///
/// The handle is cheap to clone; all clones share the same underlying
/// instance. The pool is constructed once, at node startup, with
/// empty state.
pub struct OrderPool {
    inner: Arc<RwLock<PoolState, StateInv>>,
}

impl Clone for OrderPool {
    /// The new handle references the same underlying pool state as
    /// `self`; no state is copied, so reads through the new handle
    /// observe writes already completed through `self`.
    fn clone(&self) -> (r: Self)
        ensures
            r == *self,
    {
        OrderPool { inner: share_state(&self.inner) }
    }
}

impl Default for OrderPool {
    /// A pool with empty internal state; construction is atomic and
    /// never fails.
    fn default() -> (r: Self)
        ensures
            r.wf(),
    {
        let st = PoolState { bundles: Vec::new() };
        OrderPool { inner: Arc::new(RwLock::new(st, Ghost(StateInv))) }
    }
}

impl OrderPool {
    /// The handle's lock admits exactly the states satisfying the
    /// pool invariant.
    pub closed spec fn wf(&self) -> bool {
        self.inner.pred() == StateInv
    }

    /// Accepts a bundle into the pool. The bundle is rejected, and the
    /// pool state left untouched, exactly when it is malformed: an
    /// attribute list not covering the transaction list, or a
    /// duplicate transaction hash.
    pub fn submit_bundle(&self, b: TxBundle) -> (r: Result<(), BundleError>)
        ensures
            r is Ok <==> b.wf(),
            r == Err::<(), BundleError>(BundleError::AttributeLengthMismatch) <==> !b.attrs_cover(),
    {
        match b.validate() {
            Err(e) => Err(e),
            Ok(()) => {
                let (mut st, wh) = (*self.inner).acquire_write();
                let ghost before = st.bundles@;
                st.bundles.push(b);
                proof {
                    assert forall|i: int| 0 <= i < st.bundles@.len() implies (
                    #[trigger] st.bundles@[i]).wf() by {
                        if i < before.len() {
                            assert(st.bundles@[i] == before[i]);
                        }
                    }
                }
                wh.release_write(st);
                Ok(())
            },
        }
    }

    /// How many bundles one atomically observed pool state holds;
    /// other handles may change the count concurrently.
    pub fn bundle_count(&self) -> usize {
        let rh = (*self.inner).acquire_read();
        let n = rh.borrow().bundles.len();
        rh.release_read();
        n
    }

    /// The bundle at position `i` of one atomically observed pool
    /// state, as a fresh copy, or nothing if that state holds no such
    /// position. Every bundle handed out is well-formed, so
    /// classification is total on it.
    pub fn get_bundle(&self, i: usize) -> (r: Option<TxBundle>)
        ensures
            r matches Some(b) ==> b.wf(),
    {
        let rh = (*self.inner).acquire_read();
        let st = rh.borrow();
        let r = if i < st.bundles.len() {
            Some(st.bundles[i].duplicate())
        } else {
            None
        };
        rh.release_read();
        r
    }

    /// Registers the pool's operation set with the registration
    /// context supplied by the external transport framework, replacing
    /// any prior set under the pool's name. With replacement semantics
    /// the context never refuses; a refusal by the framework would be
    /// reported to the caller, never swallowed.
    pub fn configure_rpc(&self, rpc_context: &mut RegistrationContext) -> (r: Result<
        (),
        RegistrationError,
    >)
        ensures
            r is Ok,
            final(rpc_context)@ == register_spec(old(rpc_context)@, pool_modules_view()),
    {
        rpc_context.add_or_replace(self.rpc_modules());
        Ok(())
    }

    /// The named operation set this pool exposes, in a
    /// transport-agnostic form.
    pub fn rpc_modules(&self) -> (r: RpcModules)
        ensures
            r@ == pool_modules_view(),
    {
        let name = "bundles".to_owned();
        let mut methods: Vec<String> = Vec::new();
        methods.push("bundle_sendBundle".to_owned());
        methods.push("bundle_bundleCount".to_owned());
        methods.push("bundle_getBundle".to_owned());
        let r = RpcModules { name, methods };
        proof {
            assert(r@.methods =~= pool_modules_view().methods);
        }
        r
    }
}

/// The operation set the pool exposes over its external surface:
/// submitting a bundle, counting bundles, and fetching a bundle for
/// classification, under the pool's registration name.
pub open spec fn pool_modules_view() -> ModulesView {
    ModulesView {
        name: "bundles"@,
        methods: seq!["bundle_sendBundle"@, "bundle_bundleCount"@, "bundle_getBundle"@],
    }
}

} // verus!
