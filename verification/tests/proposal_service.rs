use proposal_backend::Choice;
use proposal_backend::CreateProposal;
use proposal_backend::Principal;
use proposal_backend::ProposalBook;
use proposal_backend::VoteError;
use proposal_backend::service::create_fits;
use proposal_backend::service::edit_fits;
use proposal_backend::service::record_size;
use proposal_backend::service::vote_fits;

fn ident(bytes: &[u8]) -> Principal {
    Principal::from_bytes(bytes.to_vec()).unwrap()
}

fn input(desc: &[u8], is_active: bool) -> CreateProposal {
    CreateProposal { description: desc.to_vec(), is_active }
}

#[test]
fn empty_book_has_nothing() {
    // Off the canister, every init opens a fresh private memory, so the
    // book starts empty here.
    let book = ProposalBook::init();
    assert_eq!(book.get_proposal_count(), 0);
    assert!(book.get_proposal(1).is_none());
}

#[test]
fn fund_x_scenario() {
    let mut book = ProposalBook::init();
    let a = ident(b"A");
    let b = ident(b"B");
    let c = ident(b"C");
    let d = ident(b"D");

    let prev = book.create_proposal(1, input(b"Fund X", true), a.clone());
    assert!(prev.is_none());
    let rec = book.get_proposal(1).unwrap();
    assert_eq!(rec.description, b"Fund X".to_vec());
    assert!(rec.is_active);
    assert_eq!(rec.owner, a);

    assert_eq!(book.vote(1, Choice::Approve, a.clone()), Ok(()));
    let rec = book.get_proposal(1).unwrap();
    assert_eq!(rec.approve, 1);
    assert_eq!(rec.voted, vec![a.clone()]);

    assert_eq!(book.vote(1, Choice::Approve, a.clone()), Err(VoteError::AlreadyVoted));

    assert_eq!(book.vote(1, Choice::Reject, b.clone()), Ok(()));
    let rec = book.get_proposal(1).unwrap();
    assert_eq!(rec.approve, 1);
    assert_eq!(rec.reject, 1);
    assert_eq!(rec.voted, vec![a.clone(), b.clone()]);

    assert_eq!(book.end_proposal(1, input(b"ignored", true), &a), Ok(()));
    let rec = book.get_proposal(1).unwrap();
    assert!(!rec.is_active);

    // An identity that has not voted yet sees the inactive proposal.
    assert_eq!(book.vote(1, Choice::Pass, d.clone()), Err(VoteError::ProposalIsNotActive));
    // A repeat voter is turned away before the activity check.
    assert_eq!(book.vote(1, Choice::Pass, b.clone()), Err(VoteError::AlreadyVoted));

    assert_eq!(
        book.edit_proposal(1, input(b"hijack", true), &c),
        Err(VoteError::AccessRejected)
    );
}

#[test]
fn tally_always_matches_voters() {
    let mut book = ProposalBook::init();
    let owner = ident(b"owner");
    book.create_proposal(9, input(b"tally", true), owner.clone());
    let voters: Vec<Principal> = (0u8..7).map(|i| ident(&[i, i + 1])).collect();
    let choices = [
        Choice::Approve,
        Choice::Reject,
        Choice::Pass,
        Choice::Approve,
        Choice::Pass,
        Choice::Reject,
        Choice::Approve,
    ];
    for (voter, choice) in voters.iter().zip(choices.iter()) {
        assert_eq!(book.vote(9, *choice, voter.clone()), Ok(()));
        let rec = book.get_proposal(9).unwrap();
        let sum = rec.approve as usize + rec.reject as usize + rec.pass as usize;
        assert_eq!(sum, rec.voted.len());
    }
    let rec = book.get_proposal(9).unwrap();
    assert_eq!(rec.approve, 3);
    assert_eq!(rec.reject, 2);
    assert_eq!(rec.pass, 2);
    assert_eq!(rec.voted.len(), 7);
}

#[test]
fn second_vote_rejected_regardless_of_choice() {
    let mut book = ProposalBook::init();
    let a = ident(b"same");
    book.create_proposal(2, input(b"twice", true), a.clone());
    assert_eq!(book.vote(2, Choice::Pass, a.clone()), Ok(()));
    assert_eq!(book.vote(2, Choice::Approve, a.clone()), Err(VoteError::AlreadyVoted));
    assert_eq!(book.vote(2, Choice::Reject, a.clone()), Err(VoteError::AlreadyVoted));
    let rec = book.get_proposal(2).unwrap();
    assert_eq!(rec.pass, 1);
    assert_eq!(rec.approve, 0);
    assert_eq!(rec.reject, 0);
    assert_eq!(rec.voted.len(), 1);
}

#[test]
fn inactive_proposal_rejects_fresh_voters() {
    let mut book = ProposalBook::init();
    let owner = ident(b"o");
    let fresh = ident(b"f");
    book.create_proposal(3, input(b"dormant", false), owner.clone());
    assert_eq!(book.vote(3, Choice::Approve, fresh.clone()), Err(VoteError::ProposalIsNotActive));
    let rec = book.get_proposal(3).unwrap();
    assert_eq!(rec.approve, 0);
    assert!(rec.voted.is_empty());
}

#[test]
fn repeat_voter_outranks_inactive() {
    let mut book = ProposalBook::init();
    let owner = ident(b"o");
    let voter = ident(b"v");
    book.create_proposal(4, input(b"order", true), owner.clone());
    assert_eq!(book.vote(4, Choice::Reject, voter.clone()), Ok(()));
    assert_eq!(book.end_proposal(4, input(b"", false), &owner), Ok(()));
    assert_eq!(book.vote(4, Choice::Reject, voter.clone()), Err(VoteError::AlreadyVoted));
    assert_eq!(book.vote(4, Choice::Reject, owner.clone()), Err(VoteError::ProposalIsNotActive));
}

#[test]
fn non_owner_cannot_edit_or_end() {
    let mut book = ProposalBook::init();
    let owner = ident(b"boss");
    let other = ident(b"intruder");
    book.create_proposal(5, input(b"keep me", true), owner.clone());
    assert_eq!(
        book.edit_proposal(5, input(b"changed", false), &other),
        Err(VoteError::AccessRejected)
    );
    assert_eq!(
        book.end_proposal(5, input(b"changed", false), &other),
        Err(VoteError::AccessRejected)
    );
    let rec = book.get_proposal(5).unwrap();
    assert_eq!(rec.description, b"keep me".to_vec());
    assert!(rec.is_active);
    assert_eq!(rec.owner, owner);
}

#[test]
fn end_changes_only_the_activity_flag() {
    let mut book = ProposalBook::init();
    let owner = ident(b"own");
    let v1 = ident(b"v1");
    let v2 = ident(b"v2");
    book.create_proposal(6, input(b"freeze", true), owner.clone());
    book.vote(6, Choice::Approve, v1.clone()).unwrap();
    book.vote(6, Choice::Pass, v2.clone()).unwrap();
    assert_eq!(book.end_proposal(6, input(b"other words", true), &owner), Ok(()));
    let rec = book.get_proposal(6).unwrap();
    assert_eq!(rec.description, b"freeze".to_vec());
    assert_eq!(rec.approve, 1);
    assert_eq!(rec.reject, 0);
    assert_eq!(rec.pass, 1);
    assert_eq!(rec.voted, vec![v1, v2]);
    assert!(!rec.is_active);
    assert_eq!(rec.owner, owner);
}

#[test]
fn edit_replaces_description_and_activity_only() {
    let mut book = ProposalBook::init();
    let owner = ident(b"own");
    let voter = ident(b"vot");
    book.create_proposal(7, input(b"before", true), owner.clone());
    book.vote(7, Choice::Reject, voter.clone()).unwrap();
    assert_eq!(book.edit_proposal(7, input(b"after", false), &owner), Ok(()));
    let rec = book.get_proposal(7).unwrap();
    assert_eq!(rec.description, b"after".to_vec());
    assert!(!rec.is_active);
    assert_eq!(rec.reject, 1);
    assert_eq!(rec.voted, vec![voter]);
    assert_eq!(rec.owner, owner);
    // The owner may also switch the proposal back on.
    assert_eq!(book.edit_proposal(7, input(b"again", true), &owner), Ok(()));
    assert!(book.get_proposal(7).unwrap().is_active);
}

#[test]
fn count_tracks_distinct_keys() {
    let mut book = ProposalBook::init();
    let a = ident(b"a");
    assert!(book.create_proposal(1, input(b"one", true), a.clone()).is_none());
    assert!(book.create_proposal(2, input(b"two", true), a.clone()).is_none());
    assert!(book.create_proposal(3, input(b"three", true), a.clone()).is_none());
    assert_eq!(book.get_proposal_count(), 3);
    // Overwriting key 2 hands back the clobbered record and keeps the count.
    let prev = book.create_proposal(2, input(b"two again", false), a.clone()).unwrap();
    assert_eq!(prev.description, b"two".to_vec());
    assert_eq!(book.get_proposal_count(), 3);
    assert_eq!(book.get_proposal(2).unwrap().description, b"two again".to_vec());
    // Votes, edits and closures never change the count either.
    book.vote(1, Choice::Approve, ident(b"v")).unwrap();
    book.edit_proposal(3, input(b"three b", true), &a).unwrap();
    book.end_proposal(1, input(b"", false), &a).unwrap();
    assert_eq!(book.get_proposal_count(), 3);
}

#[test]
fn absent_key_yields_no_such_proposal() {
    let mut book = ProposalBook::init();
    let a = ident(b"a");
    assert_eq!(book.vote(42, Choice::Approve, a.clone()), Err(VoteError::NoSuchProposal));
    assert_eq!(book.edit_proposal(42, input(b"x", true), &a), Err(VoteError::NoSuchProposal));
    assert_eq!(book.end_proposal(42, input(b"x", true), &a), Err(VoteError::NoSuchProposal));
    assert!(book.get_proposal(42).is_none());
}

#[test]
fn records_round_trip_through_the_store() {
    let mut book = ProposalBook::init();
    let owner = ident(&[0u8, 255, 128, 7]);
    let voter = ident(&[29u8; 29]);
    let desc: Vec<u8> = (0u8..=255).collect();
    book.create_proposal(11, CreateProposal { description: desc.clone(), is_active: true }, owner.clone());
    book.vote(11, Choice::Approve, voter.clone()).unwrap();
    let rec = book.get_proposal(11).unwrap();
    assert_eq!(rec.description, desc);
    assert_eq!(rec.owner.as_bytes(), &vec![0u8, 255, 128, 7]);
    assert_eq!(rec.voted.len(), 1);
    assert_eq!(rec.voted[0].as_bytes(), &vec![29u8; 29]);

    let empty_owner = ident(b"");
    book.create_proposal(12, input(b"", false), empty_owner.clone());
    let rec = book.get_proposal(12).unwrap();
    assert!(rec.description.is_empty());
    assert!(rec.owner.as_bytes().is_empty());
    assert!(!rec.is_active);
}

#[test]
fn identity_length_is_capped() {
    assert!(Principal::from_bytes(vec![1u8; 30]).is_none());
    let p = Principal::from_bytes(vec![1u8; 29]).unwrap();
    assert_eq!(p.as_bytes().len(), 29);
}

#[test]
fn size_gates_match_the_ceiling() {
    let caller = ident(b"x");
    // A fresh record costs 22 bytes beside the description and the owner.
    assert!(create_fits(&input(&vec![0u8; 4977], true), &caller));
    assert!(!create_fits(&input(&vec![0u8; 4978], true), &caller));

    let mut book = ProposalBook::init();
    book.create_proposal(1, input(&vec![7u8; 4977], true), caller.clone());
    let rec = book.get_proposal(1).unwrap();
    assert_eq!(record_size(&rec), 5000);
    // The record is full: no voter fits any more, and the original would
    // trap on such a vote, so the service refuses to take it.
    assert!(!vote_fits(&rec, &ident(b"v")));
    // Shrinking the description makes room again.
    assert!(edit_fits(&rec, &input(b"short", true)));
    assert!(!edit_fits(&rec, &input(&vec![0u8; 4990], true)));
    book.edit_proposal(1, input(b"short", true), &caller).unwrap();
    let rec = book.get_proposal(1).unwrap();
    assert!(vote_fits(&rec, &ident(b"v")));
    book.vote(1, Choice::Pass, ident(b"v")).unwrap();
    assert_eq!(book.get_proposal(1).unwrap().pass, 1);
}
