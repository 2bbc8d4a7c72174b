//! The data model: identities, proposals, and the mathematical model of a
//! stored proposal record together with the rules that govern voting.

use vstd::prelude::*;

verus! {

/// An identity (principal) is an opaque token of at most this many bytes.
pub const MAX_PRINCIPAL_BYTES: usize = 29;

/// A ballot choice.
#[derive(Clone, Copy, Debug, PartialEq, Eq, Structural)]
pub enum Choice {
    Approve,
    Reject,
    Pass,
}

/// The typed outcomes with which a mutating operation can fail.
#[derive(Clone, Copy, Debug, PartialEq, Eq, Structural)]
pub enum VoteError {
    AlreadyVoted,
    ProposalIsNotActive,
    NoSuchProposal,
    AccessRejected,
    UpdateError,
}

/// An opaque caller identity: a short byte token with equality only.
#[derive(Clone, Debug, PartialEq, Eq)]
pub struct Principal {
    bytes: Vec<u8>,
}

impl View for Principal {
    type V = Seq<u8>;

    closed spec fn view(&self) -> Seq<u8> {
        self.bytes@
    }
}

/// A well-formed identity token is at most `MAX_PRINCIPAL_BYTES` long.
pub open spec fn principal_wf(p: Seq<u8>) -> bool {
    p.len() <= MAX_PRINCIPAL_BYTES
}

impl Principal {
    pub open spec fn wf(&self) -> bool {
        principal_wf(self@)
    }

    /// Builds an identity from raw bytes; rejects tokens that are too long.
    pub fn from_bytes(bytes: Vec<u8>) -> (r: Option<Principal>)
        ensures
            match r {
                Some(p) => p@ == bytes@ && p.wf(),
                None => bytes@.len() > MAX_PRINCIPAL_BYTES,
            },
    {
        if bytes.len() <= MAX_PRINCIPAL_BYTES {
            Some(Principal { bytes })
        } else {
            None
        }
    }

    /// Builds an identity from bytes already known to be short enough.
    pub(crate) fn from_bytes_exact(bytes: Vec<u8>) -> (p: Principal)
        requires
            bytes@.len() <= MAX_PRINCIPAL_BYTES,
        ensures
            p@ == bytes@,
    {
        Principal { bytes }
    }

    /// The raw bytes of the identity.
    pub fn as_bytes(&self) -> (r: &Vec<u8>)
        ensures
            r@ == self@,
    {
        &self.bytes
    }
}

/// Decides whether two identities are the same token.
pub fn principal_eq(a: &Principal, b: &Principal) -> (r: bool)
    ensures
        r <==> a@ == b@,
{
    if a.bytes.len() != b.bytes.len() {
        return false;
    }
    let n = a.bytes.len();
    let mut i: usize = 0;
    while i < n
        invariant
            n == a@.len(),
            n == b@.len(),
            i <= n,
            forall|k: int| 0 <= k < i ==> a@[k] == b@[k],
        decreases n - i,
    {
        if a.bytes[i] != b.bytes[i] {
            return false;
        }
        i = i + 1;
    }
    proof {
        assert(a@ =~= b@);
    }
    true
}

/// The views of a sequence of identities.
pub open spec fn seq_views(vs: Seq<Principal>) -> Seq<Seq<u8>> {
    vs.map_values(|q: Principal| q@)
}

/// Decides whether an identity is among the voters recorded so far.
pub fn contains_voter(vs: &Vec<Principal>, p: &Principal) -> (r: bool)
    ensures
        r <==> seq_views(vs@).contains(p@),
{
    let n = vs.len();
    let mut i: usize = 0;
    while i < n
        invariant
            n == vs@.len(),
            i <= n,
            forall|k: int| 0 <= k < i ==> seq_views(vs@)[k] != p@,
        decreases n - i,
    {
        if principal_eq(&vs[i], p) {
            proof {
                assert(seq_views(vs@)[i as int] == p@);
            }
            return true;
        }
        i = i + 1;
    }
    false
}

/// A transient input value consumed by the create and edit operations.
pub struct CreateProposal {
    pub description: Vec<u8>,
    pub is_active: bool,
}

/// A persisted proposal record.
pub struct Proposal {
    pub description: Vec<u8>,
    pub approve: u32,
    pub reject: u32,
    pub pass: u32,
    pub is_active: bool,
    pub voted: Vec<Principal>,
    pub owner: Principal,
}

/// The mathematical model of a proposal record.
#[verifier::ext_equal]
pub ghost struct ProposalModel {
    pub description: Seq<u8>,
    pub approve: u32,
    pub reject: u32,
    pub pass: u32,
    pub is_active: bool,
    pub voted: Seq<Seq<u8>>,
    pub owner: Seq<u8>,
}

impl View for Proposal {
    type V = ProposalModel;

    open spec fn view(&self) -> ProposalModel {
        ProposalModel {
            description: self.description@,
            approve: self.approve,
            reject: self.reject,
            pass: self.pass,
            is_active: self.is_active,
            voted: seq_views(self.voted@),
            owner: self.owner@,
        }
    }
}

/// The tallies sum to the number of identities that have voted.
pub open spec fn tally_ok(m: ProposalModel) -> bool {
    m.approve + m.reject + m.pass == m.voted.len()
}

/// No identity appears twice among the voters.
pub open spec fn no_repeat(vs: Seq<Seq<u8>>) -> bool {
    forall|i: int, j: int| 0 <= i < j < vs.len() ==> vs[i] != vs[j]
}

/// The internal consistency invariant of a stored record.
pub open spec fn record_inv(m: ProposalModel) -> bool {
    &&& tally_ok(m)
    &&& no_repeat(m.voted)
    &&& principal_wf(m.owner)
    &&& forall|i: int| 0 <= i < m.voted.len() ==> principal_wf(#[trigger] m.voted[i])
}

/// The record built by `create_proposal`: zeroed tallies, no voters,
/// owner set to the caller.
pub open spec fn fresh_record(description: Seq<u8>, is_active: bool, owner: Seq<u8>) -> ProposalModel {
    ProposalModel {
        description: description,
        approve: 0,
        reject: 0,
        pass: 0,
        is_active: is_active,
        voted: Seq::empty(),
        owner: owner,
    }
}

/// The record after a successful edit: description and activity replaced,
/// tallies, voters and owner carried over unchanged.
pub open spec fn edited_record(m: ProposalModel, description: Seq<u8>, is_active: bool) -> ProposalModel {
    ProposalModel { description: description, is_active: is_active, ..m }
}

/// The record after a successful close: only the activity flag is forced off.
pub open spec fn ended_record(m: ProposalModel) -> ProposalModel {
    ProposalModel { is_active: false, ..m }
}

/// The record after a successful vote: exactly one tally is incremented and
/// the voter is appended.
pub open spec fn voted_record(m: ProposalModel, voter: Seq<u8>, choice: Choice) -> ProposalModel {
    ProposalModel {
        approve: if choice is Approve { (m.approve + 1) as u32 } else { m.approve },
        reject: if choice is Reject { (m.reject + 1) as u32 } else { m.reject },
        pass: if choice is Pass { (m.pass + 1) as u32 } else { m.pass },
        voted: m.voted.push(voter),
        ..m
    }
}

/// What a vote against an existing record yields: repeat voters are rejected
/// first, then inactive proposals, and only then is the ballot counted.
pub open spec fn vote_outcome(m: ProposalModel, voter: Seq<u8>, choice: Choice) -> Result<ProposalModel, VoteError> {
    if m.voted.contains(voter) {
        Result::Err(VoteError::AlreadyVoted)
    } else if !m.is_active {
        Result::Err(VoteError::ProposalIsNotActive)
    } else {
        Result::Ok(voted_record(m, voter, choice))
    }
}

/// Law: once an identity has voted on a record, any further vote by the same
/// identity yields `AlreadyVoted`, regardless of either choice.
pub proof fn lemma_vote_twice(m: ProposalModel, voter: Seq<u8>, first: Choice, second: Choice)
    requires
        vote_outcome(m, voter, first) is Ok,
    ensures
        vote_outcome(vote_outcome(m, voter, first)->Ok_0, voter, second)
            == Result::<ProposalModel, VoteError>::Err(VoteError::AlreadyVoted),
{
    let m2 = voted_record(m, voter, first);
    assert(m2.voted[m.voted.len() as int] == voter);
    assert(m2.voted.contains(voter));
}

/// Law: on an inactive record, an identity that has already voted still sees
/// `AlreadyVoted`, and any other identity sees `ProposalIsNotActive`.
pub proof fn lemma_inactive_vote(m: ProposalModel, voter: Seq<u8>, choice: Choice)
    requires
        !m.is_active,
    ensures
        vote_outcome(m, voter, choice) == if m.voted.contains(voter) {
            Result::<ProposalModel, VoteError>::Err(VoteError::AlreadyVoted)
        } else {
            Result::<ProposalModel, VoteError>::Err(VoteError::ProposalIsNotActive)
        },
{
}

/// A fresh record satisfies the consistency invariant: zeroed tallies and an
/// empty voter set.
pub proof fn lemma_fresh_record_inv(description: Seq<u8>, is_active: bool, owner: Seq<u8>)
    requires
        principal_wf(owner),
    ensures
        record_inv(fresh_record(description, is_active, owner)),
{
}

/// Editing preserves the record's consistency invariant: tallies and voter
/// set are carried over unchanged.
pub proof fn lemma_edit_preserves_inv(m: ProposalModel, description: Seq<u8>, is_active: bool)
    requires
        record_inv(m),
    ensures
        record_inv(edited_record(m, description, is_active)),
{
}

/// Closing preserves the record's consistency invariant: nothing but the
/// activity flag changes.
pub proof fn lemma_end_preserves_inv(m: ProposalModel)
    requires
        record_inv(m),
    ensures
        record_inv(ended_record(m)),
{
}

/// A successful vote keeps the record's consistency invariant: the new tally
/// sum matches the grown voter set, and the voter set stays duplicate-free.
pub proof fn lemma_vote_preserves_inv(m: ProposalModel, voter: Seq<u8>, choice: Choice)
    requires
        record_inv(m),
        principal_wf(voter),
        m.voted.len() < u32::MAX,
        vote_outcome(m, voter, choice) is Ok,
    ensures
        record_inv(vote_outcome(m, voter, choice)->Ok_0),
{
    let m2 = voted_record(m, voter, choice);
    assert(m2.voted.len() == m.voted.len() + 1);
    assert forall|i: int, j: int| 0 <= i < j < m2.voted.len() implies m2.voted[i] != m2.voted[j] by {
        if j == m.voted.len() {
            assert(m2.voted[j] == voter);
            assert(!m.voted.contains(voter));
            assert(m2.voted[i] == m.voted[i]);
        }
    }
}

} // verus!
