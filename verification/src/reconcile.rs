//! Reconciliation of a worker's `DResponse` into downstream work.
//!
//! The caller owns the RPC calls (they are network I/O); the library owns
//! every decision. `reconcile_begin` reads the task map and says which call
//! to make; once the caller knows the call's outcome it hands it back to
//! `reconcile_empty_commit` or `reconcile_import_result`, which update the
//! task map and return the persistence writes to perform, in order.

use vstd::prelude::*;

use crate::codec::DResponse;
use crate::manager::{Manager, Tier};

verus! {

/// A provisional marker that an account's head has advanced but awaits
/// further confirmation.
pub struct UnstableAccount {
    pub address: String,
    pub sequence: u64,
    pub hash: String,
}

/// What reconciliation asks the caller to do first for one response.
pub enum ReconcileStep {
    /// No record for the response's id: expected after a restart that lost
    /// in-memory task state; the response is dropped without any effect.
    Drop,
    /// Empty result on a primary-tier task: ask the downstream node to
    /// advance this account's head to `hash`, then report the outcome to
    /// `reconcile_empty_commit`.
    UpdateHead { address: String, hash: String, sequence: u64 },
    /// Empty result on a secondary-tier task: no downstream call; go
    /// straight to `reconcile_empty_commit` with `head_updated` false.
    CommitHead { address: String, hash: String, sequence: u64 },
    /// Matched transactions: for each hash of the response's `data`, in
    /// order, ask the downstream node to import it, and report each
    /// outcome to `reconcile_import_result`.
    ImportTransactions { address: String, hash: String, sequence: u64, primary: bool },
}

/// One persistence write the caller owes, in the order returned.
pub enum PersistAction {
    /// Record the unstable-account marker of a primary-tier advance.
    AddPrimaryAccount(UnstableAccount),
    /// Persist the account's head as this sequence and block hash.
    UpdateAccountHead { address: String, sequence: u64, hash: String },
}

impl Manager {
    /// Reads the task map and decides how to reconcile `response`.
    ///
    /// Takes the manager immutably: a response whose id has no record
    /// changes nothing and asks for nothing.
    pub fn reconcile_begin(&self, response: &DResponse) -> (r: ReconcileStep)
        requires
            self.wf(),
        ensures
            !self.task_has(response.id@) ==> r is Drop,
            self.task_has(response.id@) ==> {
                let info = self.task_at(response.id@);
                &&& (response.data@.len() == 0 && info.status is Primary ==> (
                r matches ReconcileStep::UpdateHead { address, hash, sequence } && address@
                    == response.address@ && hash@ == info.hash@ && sequence == info.sequence))
                &&& (response.data@.len() == 0 && info.status is Secondary ==> (
                r matches ReconcileStep::CommitHead { address, hash, sequence } && address@
                    == response.address@ && hash@ == info.hash@ && sequence == info.sequence))
                &&& (response.data@.len() > 0 ==> (r matches ReconcileStep::ImportTransactions {
                    address,
                    hash,
                    sequence,
                    primary,
                } && address@ == response.address@ && hash@ == info.hash@ && sequence
                    == info.sequence && primary == (info.status is Primary)))
            },
    {
        let looked = self.lookup_task(&response.id);
        match looked {
            None => ReconcileStep::Drop,
            Some(info) => {
                let address = response.address.clone();
                let hash = info.hash.clone();
                let sequence = info.sequence;
                if response.data.len() == 0 {
                    match info.status {
                        Tier::Primary => ReconcileStep::UpdateHead { address, hash, sequence },
                        Tier::Secondary => ReconcileStep::CommitHead { address, hash, sequence },
                    }
                } else {
                    let primary = matches!(info.status, Tier::Primary);
                    ReconcileStep::ImportTransactions { address, hash, sequence, primary }
                }
            },
        }
    }

    /// Commits an empty-result response once any head-advance call has
    /// settled. `head_updated` is whether a primary-tier task's downstream
    /// head advance succeeded; a secondary-tier task passes false.
    ///
    /// The unstable-account marker is written only for a successful
    /// primary advance; the account head is persisted unconditionally; the
    /// task record is removed either way, a no-op when already absent.
    pub fn reconcile_empty_commit(
        &mut self,
        id: &String,
        address: &String,
        sequence: u64,
        hash: &String,
        primary: bool,
        head_updated: bool,
    ) -> (acts: Vec<PersistAction>)
        requires
            old(self).wf(),
        ensures
            final(self).wf(),
            final(self).tasks() == old(self).tasks().remove(id@),
            final(self).workers == old(self).workers,
            final(self).task_queue == old(self).task_queue,
            primary && head_updated ==> acts@ == seq![
                PersistAction::AddPrimaryAccount(
                    UnstableAccount { address: *address, sequence, hash: *hash },
                ),
                PersistAction::UpdateAccountHead { address: *address, sequence, hash: *hash },
            ],
            !(primary && head_updated) ==> acts@ == seq![
                PersistAction::UpdateAccountHead { address: *address, sequence, hash: *hash },
            ],
    {
        let mut acts: Vec<PersistAction> = Vec::new();
        if primary && head_updated {
            acts.push(
                PersistAction::AddPrimaryAccount(
                    UnstableAccount { address: address.clone(), sequence, hash: hash.clone() },
                ),
            );
        }
        acts.push(
            PersistAction::UpdateAccountHead {
                address: address.clone(),
                sequence,
                hash: hash.clone(),
            },
        );
        self.remove_task(id);
        acts
    }

    /// Settles one transaction-import outcome of a non-empty response.
    ///
    /// A successful import writes the unstable-account marker (primary
    /// tier only), persists the account head, and removes the task record
    /// — idempotently, since a later hash of the same response repeats the
    /// removal. A failed import changes nothing and writes nothing; the
    /// record stays for the remaining hashes.
    pub fn reconcile_import_result(
        &mut self,
        id: &String,
        address: &String,
        sequence: u64,
        hash: &String,
        primary: bool,
        imported: bool,
    ) -> (acts: Vec<PersistAction>)
        requires
            old(self).wf(),
        ensures
            final(self).wf(),
            final(self).workers == old(self).workers,
            final(self).task_queue == old(self).task_queue,
            imported ==> final(self).tasks() == old(self).tasks().remove(id@),
            imported && primary ==> acts@ == seq![
                PersistAction::AddPrimaryAccount(
                    UnstableAccount { address: *address, sequence, hash: *hash },
                ),
                PersistAction::UpdateAccountHead { address: *address, sequence, hash: *hash },
            ],
            imported && !primary ==> acts@ == seq![
                PersistAction::UpdateAccountHead { address: *address, sequence, hash: *hash },
            ],
            !imported ==> *final(self) == *old(self) && acts@.len() == 0,
    {
        let mut acts: Vec<PersistAction> = Vec::new();
        if !imported {
            return acts;
        }
        if primary {
            acts.push(
                PersistAction::AddPrimaryAccount(
                    UnstableAccount { address: address.clone(), sequence, hash: hash.clone() },
                ),
            );
        }
        acts.push(
            PersistAction::UpdateAccountHead {
                address: address.clone(),
                sequence,
                hash: hash.clone(),
            },
        );
        self.remove_task(id);
        acts
    }
}

/// Law: clearing a task record is idempotent — removing the same id twice
/// leaves exactly the map that one removal leaves, so the repeated removals
/// of a multi-hash response are safe no-ops.
pub proof fn lemma_remove_task_idempotent<V>(t: Map<Seq<char>, V>, id: Seq<char>)
    ensures
        t.remove(id).remove(id) == t.remove(id),
{
    assert(t.remove(id).remove(id) =~= t.remove(id));
}

} // verus!
