//! The proposal service: create, read, edit, close and vote. Every operation
//! reads the current record from the persistent store, validates the caller
//! and the record's state, computes the new record, and writes it back.

use vstd::prelude::*;

use crate::codec::MAX_RECORD_BYTES;
use crate::codec::decode_record;
use crate::codec::enc_record;
use crate::codec::enc_voters;
use crate::codec::encode_record;
use crate::codec::lemma_edited_record_len;
use crate::codec::lemma_ended_record_len;
use crate::codec::lemma_enc_voters_len;
use crate::codec::lemma_voted_record_len;
use crate::codec::record_wf;
use crate::model::Choice;
use crate::model::CreateProposal;
use crate::model::Principal;
use crate::model::Proposal;
use crate::model::ProposalModel;
use crate::model::VoteError;
use crate::model::contains_voter;
use crate::model::edited_record;
use crate::model::ended_record;
use crate::model::fresh_record;
use crate::model::lemma_vote_preserves_inv;
use crate::model::principal_eq;
use crate::model::record_inv;
use crate::model::seq_views;
use crate::model::vote_outcome;
use crate::model::voted_record;
use crate::store::StableStore;
use crate::store::is_stored_record;
use crate::store::models_bytes;
use crate::store::store_contents;

verus! {

/// A record whose encoding stays within the store's size ceiling.
pub open spec fn record_fits(m: ProposalModel) -> bool {
    enc_record(m).len() <= MAX_RECORD_BYTES
}

/// The proposal book: the persistent store together with the mathematical
/// model of the records it holds.
pub struct ProposalBook {
    store: StableStore,
    model: Ghost<Map<u64, ProposalModel>>,
}

impl View for ProposalBook {
    type V = Map<u64, ProposalModel>;

    closed spec fn view(&self) -> Map<u64, ProposalModel> {
        self.model@
    }
}

impl ProposalBook {
    /// Each key the book knows is stored as exactly the encoding of a
    /// well-formed, internally consistent record, and no other key is stored.
    pub closed spec fn wf(&self) -> bool {
        &&& self.model@.dom() == store_contents(self.store).dom()
        &&& self.model@.dom().finite()
        &&& forall|k: u64|
            #[trigger] self.model@.contains_key(k) ==> record_wf(self.model@[k]) && record_inv(
                self.model@[k],
            ) && store_contents(self.store)[k] == enc_record(self.model@[k])
    }

    /// Opens the book over the process's stable memory. Whatever records
    /// earlier runs of the service left in that memory are loaded; on fresh
    /// memory the book starts empty. The model of each loaded record is
    /// recovered from the store's discipline: the region only ever holds
    /// encodings of well-formed, internally consistent records.
    pub fn init() -> (b: ProposalBook)
        ensures
            b.wf(),
    {
        let store = StableStore::init();
        let ghost model = Map::new(
            |k: u64| store_contents(store).contains_key(k),
            |k: u64| choose|m: ProposalModel| models_bytes(m, store_contents(store)[k]),
        );
        let b = ProposalBook { store, model: Ghost(model) };
        proof {
            assert(b.model@.dom() =~= store_contents(b.store).dom());
            assert forall|k: u64| #[trigger] b.model@.contains_key(k) implies record_wf(
                b.model@[k],
            ) && record_inv(b.model@[k]) && store_contents(b.store)[k] == enc_record(
                b.model@[k],
            ) by {
                assert(store_contents(b.store).contains_key(k));
                assert(is_stored_record(store_contents(b.store)[k]));
                assert(b.model@[k] == choose|m: ProposalModel|
                    models_bytes(m, store_contents(store)[k]));
                assert(models_bytes(b.model@[k], store_contents(b.store)[k]));
            }
        }
        b
    }

    /// Pure lookup: returns the stored record, or nothing if the key is
    /// absent. Read access is public, so there is no authorization check.
    pub fn get_proposal(&self, key: u64) -> (r: Option<Proposal>)
        requires
            self.wf(),
        ensures
            match r {
                Some(p) => self@.contains_key(key) && p@ == self@[key] && record_wf(p@)
                    && record_inv(p@),
                None => !self@.contains_key(key),
            },
    {
        match self.store.get(key) {
            None => None,
            Some(bytes) => {
                proof {
                    assert(self@.contains_key(key));
                }
                Some(decode_record(&bytes, Ghost(self.model@[key])))
            },
        }
    }

    /// The number of proposals currently stored: one per distinct key ever
    /// created, since records are never deleted.
    pub fn get_proposal_count(&self) -> (n: u64)
        requires
            self.wf(),
        ensures
            n as nat == self@.dom().len(),
    {
        self.store.len()
    }

    /// Builds a new record with the caller as owner, zeroed tallies and an
    /// empty voter set, and writes it at `key`, silently overwriting and
    /// returning whatever record was there before.
    pub fn create_proposal(&mut self, key: u64, proposal: CreateProposal, caller: Principal) -> (prev: Option<
        Proposal,
    >)
        requires
            old(self).wf(),
            caller.wf(),
            record_fits(fresh_record(proposal.description@, proposal.is_active, caller@)),
        ensures
            final(self).wf(),
            final(self)@ == old(self)@.insert(
                key,
                fresh_record(proposal.description@, proposal.is_active, caller@),
            ),
            match prev {
                Some(p) => old(self)@.contains_key(key) && p@ == old(self)@[key],
                None => !old(self)@.contains_key(key),
            },
    {
        let ghost d = proposal.description@;
        let ghost c = caller@;
        let ghost fresh = fresh_record(d, proposal.is_active, c);
        let value = Proposal {
            description: proposal.description,
            approve: 0u32,
            reject: 0u32,
            pass: 0u32,
            is_active: proposal.is_active,
            voted: Vec::new(),
            owner: caller,
        };
        proof {
            assert(seq_views(value.voted@) =~= Seq::<Seq<u8>>::empty());
            assert(value@ =~= fresh);
        }
        let bytes = encode_record(&value);
        let prev_bytes = self.store.insert(key, bytes);
        self.model = Ghost(old(self).model@.insert(key, fresh));
        proof {
            assert(self.model@.dom() =~= store_contents(self.store).dom());
        }
        match prev_bytes {
            None => None,
            Some(pb) => {
                proof {
                    assert(old(self)@.contains_key(key));
                }
                Some(decode_record(&pb, Ghost(old(self).model@[key])))
            },
        }
    }

    /// Replaces the description and the activity flag of the caller's own
    /// record, carrying tallies and voters over unchanged. Fails with
    /// `NoSuchProposal` on an absent key and with `AccessRejected` for any
    /// caller but the owner, leaving the store untouched in both cases.
    pub fn edit_proposal(&mut self, key: u64, proposal: CreateProposal, caller: &Principal) -> (r: Result<
        (),
        VoteError,
    >)
        requires
            old(self).wf(),
            old(self)@.contains_key(key) && caller@ == old(self)@[key].owner ==> record_fits(
                edited_record(old(self)@[key], proposal.description@, proposal.is_active),
            ),
        ensures
            final(self).wf(),
            !old(self)@.contains_key(key) ==> r == Err::<(), VoteError>(VoteError::NoSuchProposal)
                && final(self)@ == old(self)@,
            old(self)@.contains_key(key) && caller@ != old(self)@[key].owner ==> r == Err::<
                (),
                VoteError,
            >(VoteError::AccessRejected) && final(self)@ == old(self)@,
            old(self)@.contains_key(key) && caller@ == old(self)@[key].owner ==> r == Ok::<
                (),
                VoteError,
            >(()) && final(self)@ == old(self)@.insert(
                key,
                edited_record(old(self)@[key], proposal.description@, proposal.is_active),
            ),
    {
        let ghost d = proposal.description@;
        let current_bytes = match self.store.get(key) {
            None => {
                return Err(VoteError::NoSuchProposal);
            },
            Some(v) => v,
        };
        proof {
            assert(self@.contains_key(key));
        }
        let ghost m = self.model@[key];
        let current = decode_record(&current_bytes, Ghost(m));
        if !principal_eq(caller, &current.owner) {
            return Err(VoteError::AccessRejected);
        }
        let ghost edited = edited_record(m, d, proposal.is_active);
        let value = Proposal {
            description: proposal.description,
            approve: current.approve,
            reject: current.reject,
            pass: current.pass,
            is_active: proposal.is_active,
            voted: current.voted,
            owner: current.owner,
        };
        proof {
            assert(value@ =~= edited);
        }
        let bytes = encode_record(&value);
        let prev_bytes = self.store.insert(key, bytes);
        self.model = Ghost(old(self).model@.insert(key, edited));
        proof {
            assert(self.model@.dom() =~= store_contents(self.store).dom());
        }
        match prev_bytes {
            Some(_) => Ok(()),
            None => Err(VoteError::UpdateError),
        }
    }

    /// Forces the caller's own record inactive. The input value's fields are
    /// deliberately ignored: only the key and the caller's ownership matter.
    /// The same `NoSuchProposal` and `AccessRejected` rules as for editing
    /// apply, and nothing but the activity flag ever changes.
    pub fn end_proposal(&mut self, key: u64, proposal: CreateProposal, caller: &Principal) -> (r: Result<
        (),
        VoteError,
    >)
        requires
            old(self).wf(),
        ensures
            final(self).wf(),
            !old(self)@.contains_key(key) ==> r == Err::<(), VoteError>(VoteError::NoSuchProposal)
                && final(self)@ == old(self)@,
            old(self)@.contains_key(key) && caller@ != old(self)@[key].owner ==> r == Err::<
                (),
                VoteError,
            >(VoteError::AccessRejected) && final(self)@ == old(self)@,
            old(self)@.contains_key(key) && caller@ == old(self)@[key].owner ==> r == Ok::<
                (),
                VoteError,
            >(()) && final(self)@ == old(self)@.insert(key, ended_record(old(self)@[key])),
    {
        let _ = proposal;
        let current_bytes = match self.store.get(key) {
            None => {
                return Err(VoteError::NoSuchProposal);
            },
            Some(v) => v,
        };
        proof {
            assert(self@.contains_key(key));
        }
        let ghost m = self.model@[key];
        let current = decode_record(&current_bytes, Ghost(m));
        if !principal_eq(caller, &current.owner) {
            return Err(VoteError::AccessRejected);
        }
        let ghost ended = ended_record(m);
        let value = Proposal {
            description: current.description,
            approve: current.approve,
            reject: current.reject,
            pass: current.pass,
            is_active: false,
            voted: current.voted,
            owner: current.owner,
        };
        proof {
            assert(value@ =~= ended);
            lemma_ended_record_len(m);
        }
        let bytes = encode_record(&value);
        let prev_bytes = self.store.insert(key, bytes);
        self.model = Ghost(old(self).model@.insert(key, ended));
        proof {
            assert(self.model@.dom() =~= store_contents(self.store).dom());
        }
        match prev_bytes {
            Some(_) => Ok(()),
            None => Err(VoteError::UpdateError),
        }
    }

    /// Casts the caller's vote on the record at `key`. A repeat voter is
    /// turned away with `AlreadyVoted` before the activity flag is even
    /// looked at; a fresh voter on an inactive record gets
    /// `ProposalIsNotActive`; otherwise exactly one tally grows by one and
    /// the caller joins the voter set.
    pub fn vote(&mut self, key: u64, choice: Choice, caller: Principal) -> (r: Result<
        (),
        VoteError,
    >)
        requires
            old(self).wf(),
            caller.wf(),
            old(self)@.contains_key(key) && vote_outcome(old(self)@[key], caller@, choice) is Ok
                ==> record_fits(voted_record(old(self)@[key], caller@, choice)),
        ensures
            final(self).wf(),
            !old(self)@.contains_key(key) ==> r == Err::<(), VoteError>(VoteError::NoSuchProposal)
                && final(self)@ == old(self)@,
            old(self)@.contains_key(key) ==> match vote_outcome(old(self)@[key], caller@, choice) {
                Result::Ok(m2) => r == Ok::<(), VoteError>(()) && final(self)@ == old(
                    self,
                )@.insert(key, m2),
                Result::Err(e) => r == Err::<(), VoteError>(e) && final(self)@ == old(self)@,
            },
    {
        let ghost c = caller@;
        let current_bytes = match self.store.get(key) {
            None => {
                return Err(VoteError::NoSuchProposal);
            },
            Some(v) => v,
        };
        proof {
            assert(self@.contains_key(key));
        }
        let ghost m = self.model@[key];
        let current = decode_record(&current_bytes, Ghost(m));
        if contains_voter(&current.voted, &caller) {
            return Err(VoteError::AlreadyVoted);
        }
        if !current.is_active {
            return Err(VoteError::ProposalIsNotActive);
        }
        let ghost cast = voted_record(m, c, choice);
        proof {
            assert(vote_outcome(m, c, choice) == Result::<ProposalModel, VoteError>::Ok(cast));
            lemma_enc_voters_len(m.voted);
            assert(enc_record(m).len() >= m.voted.len());
            assert(m.voted.len() < u32::MAX);
            lemma_vote_preserves_inv(m, c, choice);
        }
        let mut approve = current.approve;
        let mut reject = current.reject;
        let mut pass = current.pass;
        match choice {
            Choice::Approve => {
                approve = approve + 1;
            },
            Choice::Reject => {
                reject = reject + 1;
            },
            Choice::Pass => {
                pass = pass + 1;
            },
        }
        let mut voted = current.voted;
        let ghost voted0 = voted@;
        voted.push(caller);
        let value = Proposal {
            description: current.description,
            approve,
            reject,
            pass,
            is_active: current.is_active,
            voted,
            owner: current.owner,
        };
        proof {
            assert(seq_views(value.voted@) =~= seq_views(voted0).push(c));
            assert(value@ =~= cast);
        }
        let bytes = encode_record(&value);
        let prev_bytes = self.store.insert(key, bytes);
        self.model = Ghost(old(self).model@.insert(key, cast));
        proof {
            assert(self.model@.dom() =~= store_contents(self.store).dom());
        }
        match prev_bytes {
            Some(_) => Ok(()),
            None => Err(VoteError::UpdateError),
        }
    }
}

/// The exact number of bytes a record occupies in the store.
pub fn record_size(p: &Proposal) -> (n: usize)
    requires
        record_wf(p@),
    ensures
        n == enc_record(p@).len(),
{
    let bytes = encode_record(p);
    bytes.len()
}

/// Whether a record freshly created from this input by this caller would fit
/// the store's size ceiling, so that `create_proposal` may take it.
pub fn create_fits(proposal: &CreateProposal, caller: &Principal) -> (r: bool)
    requires
        caller.wf(),
    ensures
        r == record_fits(fresh_record(proposal.description@, proposal.is_active, caller@)),
{
    let ghost fresh = fresh_record(proposal.description@, proposal.is_active, caller@);
    proof {
        assert(enc_voters(fresh.voted) == Seq::<u8>::empty());
        assert(enc_record(fresh).len() == 22 + proposal.description@.len() + caller@.len());
    }
    if proposal.description.len() > MAX_RECORD_BYTES {
        return false;
    }
    proposal.description.len() + caller.as_bytes().len() + 22 <= MAX_RECORD_BYTES
}

/// Whether replacing this record's description and activity flag with the
/// given input keeps the record within the store's size ceiling, so that
/// `edit_proposal` may take it.
pub fn edit_fits(current: &Proposal, proposal: &CreateProposal) -> (r: bool)
    requires
        record_wf(current@),
    ensures
        r == record_fits(edited_record(current@, proposal.description@, proposal.is_active)),
{
    proof {
        lemma_edited_record_len(current@, proposal.description@, proposal.is_active);
    }
    if proposal.description.len() > MAX_RECORD_BYTES {
        return false;
    }
    let base = record_size(current);
    proof {
        assert(base >= current.description@.len());
    }
    base - current.description.len() + proposal.description.len() <= MAX_RECORD_BYTES
}

/// Whether this record can take one more vote by this caller without
/// outgrowing the store's size ceiling, so that `vote` may count it. The
/// answer does not depend on the choice cast.
pub fn vote_fits(current: &Proposal, caller: &Principal) -> (r: bool)
    requires
        record_wf(current@),
        caller.wf(),
    ensures
        forall|choice: Choice| r == record_fits(voted_record(current@, caller@, choice)),
{
    let base = record_size(current);
    let r = base + 1 + caller.as_bytes().len() <= MAX_RECORD_BYTES;
    proof {
        assert forall|choice: Choice|
            r == record_fits(voted_record(current@, caller@, choice)) by {
            lemma_voted_record_len(current@, caller@, choice);
        }
    }
    r
}

/// A well-formed book holds finitely many proposals, so the count laws below
/// apply to it.
pub proof fn lemma_book_finite(b: &ProposalBook)
    requires
        b.wf(),
    ensures
        b@.dom().finite(),
{
}

/// Law: in a well-formed book, every stored proposal's approve, reject and
/// pass tallies sum to the number of identities that have voted on it.
pub proof fn lemma_tally_invariant(b: &ProposalBook, key: u64)
    requires
        b.wf(),
        b@.contains_key(key),
    ensures
        b@[key].approve + b@[key].reject + b@[key].pass == b@[key].voted.len(),
{
}

/// Law: the proposal count tracks the number of distinct keys ever created:
/// creating at a fresh key raises the count by one, while overwriting an
/// existing key leaves it unchanged.
pub proof fn lemma_count_after_create(models: Map<u64, ProposalModel>, key: u64, m: ProposalModel)
    requires
        models.dom().finite(),
    ensures
        models.insert(key, m).dom().len() == if models.contains_key(key) {
            models.dom().len()
        } else {
            models.dom().len() + 1
        },
{
    assert(models.insert(key, m).dom() =~= models.dom().insert(key));
    if models.contains_key(key) {
        assert(models.dom().insert(key) =~= models.dom());
    }
}

/// Law: writing back to an existing key never changes the set of keys, so
/// editing, closing and voting leave the proposal count untouched.
pub proof fn lemma_count_after_update(models: Map<u64, ProposalModel>, key: u64, m: ProposalModel)
    requires
        models.contains_key(key),
    ensures
        models.insert(key, m).dom() == models.dom(),
{
    assert(models.insert(key, m).dom() =~= models.dom());
}

} // verus!
