//! The calls that a backend was asked for, kept in their order for proofs.

use vstd::prelude::*;

use crate::json::{Json, JsonView};
use crate::rpc::{self, RpcBackend, RpcError, RpcErrorView};

verus! {

/// A call that was made, and what it came to.
pub struct Exchange {
    pub method: Seq<char>,
    pub params: Seq<JsonView>,
    pub outcome: Result<JsonView, RpcErrorView>,
}

/// Whether the backend may have answered the call in this way.
pub open spec fn may_answer<B: RpcBackend>(backend: B, made: Exchange) -> bool {
    exists|method: &str, params: &Vec<Json>, r: Result<Json, RpcError>| #[trigger]
        call_ensures(B::call, (&backend, method, params), r) && method@ == made.method
            && params.deep_view() == made.params && rpc::outcome_view(r) == made.outcome
}

/// A backend whose calls are written down. Whoever holds the ledger reaches the
/// backend through `Ledger::call` alone, so the log leaves no call out.
pub struct Ledger<'a, B: RpcBackend> {
    backend: &'a B,
    log: Ghost<Seq<Exchange>>,
}

impl<'a, B: RpcBackend> Ledger<'a, B> {
    /// The backend.
    pub closed spec fn backend(&self) -> B {
        *self.backend
    }

    /// The calls that were made so far, in their order.
    pub closed spec fn log(&self) -> Seq<Exchange> {
        self.log@
    }

    /// A ledger without calls.
    pub fn new(backend: &'a B) -> (r: Self)
        ensures
            r.backend() == *backend,
            r.log() == Seq::<Exchange>::empty(),
    {
        Ledger { backend, log: Ghost(Seq::empty()) }
    }

    /// Has the backend carry out a call and writes it down.
    pub fn call(&mut self, method: &str, params: &Vec<Json>) -> (r: Result<Json, RpcError>)
        ensures
            final(self).backend() == old(self).backend(),
            final(self).log() == old(self).log().push(
                (Exchange {
                    method: method@,
                    params: params.deep_view(),
                    outcome: rpc::outcome_view(r),
                }),
            ),
            may_answer(final(self).backend(), final(self).log().last()),
    {
        let r = self.backend.call(method, params);
        proof {
            let made = Exchange {
                method: method@,
                params: params.deep_view(),
                outcome: rpc::outcome_view(r),
            };
            self.log@ = self.log@.push(made);
            assert(call_ensures(B::call, (self.backend, method, params), r));
        }
        r
    }
}

} // verus!
