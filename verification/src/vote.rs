use vstd::prelude::*;
use vstd::pervasive::VecAdditionalExecFns;
use crate::poll::{Poll, PollView, Choice, ChoiceView, VotesForVoter, BallotView, contains_name, find_name, clone_scores, clone_names, clone_opt_string, clone_choice};
use crate::rp_error::{RPError, RPErrorView};
use crate::tally::{PollResult, compute_poll_result, tally_post, tally_result_view};
use crate::desc::now_ts;

verus! {

// ---------------------------------------------------------------------------
// What one accepted ballot does to a poll.
// ---------------------------------------------------------------------------

/// One choice after merging a score from `voter`: the score overwrites the
/// voter's existing entry, or a new entry is appended.
pub open spec fn merged_choice(ch: ChoiceView, voter: Seq<char>, sc: u32) -> ChoiceView {
    match ch.voter.index_of_first(voter) {
        Some(i) => ChoiceView {
            name: ch.name,
            desc: ch.desc,
            description: ch.description,
            desc_markdown: ch.desc_markdown,
            vote: ch.vote.update(i, sc),
            voter: ch.voter,
        },
        None => ChoiceView {
            name: ch.name,
            desc: ch.desc,
            description: ch.description,
            desc_markdown: ch.desc_markdown,
            vote: ch.vote.push(sc),
            voter: ch.voter.push(voter),
        },
    }
}

/// Every choice after merging one ballot: choices the ballot does not name
/// are left untouched.
pub open spec fn merged_choices(choices: Seq<ChoiceView>, b: BallotView) -> Seq<ChoiceView> {
    Seq::new(choices.len(), |c: int| match b.lookup(choices[c].name) {
        Some(sc) => merged_choice(choices[c], b.name, sc),
        None => choices[c],
    })
}

/// The ballot names every choice of the poll.
pub open spec fn ballot_covers(p: PollView, b: BallotView) -> bool {
    forall|c: int| 0 <= c < p.choices.len() ==> b.lookup((#[trigger] p.choices[c]).name) is Some
}

/// The poll after one accepted ballot: only the choices' vote arrays change.
pub open spec fn merged_poll(p: PollView, b: BallotView) -> PollView {
    PollView {
        name: p.name,
        filepath: p.filepath,
        filename: p.filename,
        desc: p.desc,
        description: p.description,
        desc_markdown: p.desc_markdown,
        allowed_participant: p.allowed_participant,
        deadline_date: p.deadline_date,
        choices: merged_choices(p.choices, b),
        voting_algorithm: p.voting_algorithm,
        options: p.options,
    }
}

/// The whole submission policy, in order: an unlisted voter is rejected; a
/// late ballot is rejected unless late votes are allowed; a ballot that
/// skips a choice is rejected unless missing choices are allowed; otherwise
/// the ballot is merged.
pub open spec fn apply_outcome(p: PollView, b: BallotView, now: int) -> Result<PollView, RPErrorView> {
    if !p.allowed_participant.contains(b.name) {
        Err(RPErrorView::PermissionDenied(b.name))
    } else if p.deadline_passed(now) && !p.opts().allow_late_vote {
        Err(RPErrorView::TimedOut(p.name))
    } else if !p.opts().allow_missing_choice && !ballot_covers(p, b) {
        Err(RPErrorView::InvalidInput(p.name))
    } else {
        Ok(merged_poll(p, b))
    }
}

/// Looks up the ballot's score for the choice named `key`: the first entry
/// with that name wins.
fn ballot_lookup(votes: &VotesForVoter, key: &String) -> (r: Option<u32>)
    ensures
        r == votes@.lookup(key@),
{
    let ghost keys = votes@.votes.map_values(|p: (Seq<char>, u32)| p.0);
    let n = votes.votes.len();
    for i in 0..n
        invariant
            n == votes.votes@.len(),
            keys == votes@.votes.map_values(|p: (Seq<char>, u32)| p.0),
            keys.len() == n,
            forall|j: int| 0 <= j < i ==> keys[j] != key@,
    {
        proof {
            assert(keys[i as int] == votes@.votes[i as int].0);
            assert(votes@.votes[i as int].0 == votes.votes@[i as int].0@);
        }
        if votes.votes[i].0 == *key {
            proof {
                keys.index_of_first_ensures(key@);
                assert(keys[i as int] == key@);
            }
            return Some(votes.votes[i].1);
        }
    }
    proof {
        keys.index_of_first_ensures(key@);
    }
    None
}

proof fn lemma_push_no_duplicates(s: Seq<Seq<char>>, x: Seq<char>)
    requires
        s.no_duplicates(),
        !s.contains(x),
    ensures
        s.push(x).no_duplicates(),
{
    let s2 = s.push(x);
    assert forall|i: int, j: int| 0 <= i < j < s2.len() implies s2[i] != s2[j] by {
        if j < s.len() {
            assert(s2[i] == s[i] && s2[j] == s[j]);
        } else {
            assert(s2[j] == x);
            assert(s2[i] == s[i]);
            assert(s.contains(s[i]));
        }
    }
}

// ---------------------------------------------------------------------------
// The submission itself.
// ---------------------------------------------------------------------------

/// Validates and merges one voter's ballot into a poll at time `now` (UTC
/// seconds), enforcing the permission, deadline and missing-choice policies
/// in that order.  Nothing is mutated: the caller receives the full new poll
/// to validate and persist, or the error, so no partial state can escape.
pub fn apply_ballot(poll: &Poll, votes: &VotesForVoter, now: i64) -> (r: Result<Poll, RPError>)
    requires
        poll@.wf(),
    ensures
        match (r, apply_outcome(poll@, votes@, now as int)) {
            (Ok(p2), Ok(pv)) => p2@ == pv && p2@.wf(),
            (Err(e), Err(ev)) => e@ == ev,
            _ => false,
        },
{
    let ghost p = poll@;
    let ghost b = votes@;
    if !contains_name(&poll.allowed_participant, &votes.name) {
        return Err(RPError::PermissionDenied(votes.name.clone()));
    }
    let allow_late = match &poll.options {
        Some(o) => o.allow_late_vote,
        None => false,
    };
    let allow_missing = match &poll.options {
        Some(o) => o.allow_missing_choice,
        None => false,
    };
    if now >= poll.deadline_date && !allow_late {
        return Err(RPError::TimedOut(poll.name.clone()));
    }
    let nc = poll.choices.len();
    let mut merged: Vec<Choice> = Vec::new();
    for c in 0..nc
        invariant
            p == poll@,
            b == votes@,
            p.wf(),
            nc == p.choices.len(),
            p.allowed_participant.contains(b.name),
            allow_missing == p.opts().allow_missing_choice,
            !(p.deadline_passed(now as int) && !p.opts().allow_late_vote),
            merged@.len() == c,
            forall|k: int| 0 <= k < c ==> b.lookup((#[trigger] p.choices[k]).name) is Some
                || p.opts().allow_missing_choice,
            forall|k: int| 0 <= k < c ==> (#[trigger] merged@[k])@ == (match b.lookup(p.choices[k].name) {
                Some(sc) => merged_choice(p.choices[k], b.name, sc),
                None => p.choices[k],
            }),
    {
        let ghost ch = p.choices[c as int];
        match ballot_lookup(votes, &poll.choices[c].name) {
            Some(sc) => {
                proof {
                    assert(ch.wf(p.allowed_participant));
                    ch.voter.index_of_first_ensures(b.name);
                }
                match find_name(&poll.choices[c].voter, &votes.name) {
                    Some(i) => {
                        let mut nv = clone_scores(&poll.choices[c].vote);
                        nv.set(i, sc);
                        let nch = Choice {
                            name: poll.choices[c].name.clone(),
                            desc: poll.choices[c].desc.clone(),
                            description: clone_opt_string(&poll.choices[c].description),
                            desc_markdown: clone_opt_string(&poll.choices[c].desc_markdown),
                            vote: nv,
                            voter: clone_names(&poll.choices[c].voter),
                        };
                        proof {
                            assert(nch@.voter =~= ch.voter);
                            assert(nch@ == merged_choice(ch, b.name, sc));
                        }
                        merged.push(nch);
                    },
                    None => {
                        let mut nv = clone_scores(&poll.choices[c].vote);
                        nv.push(sc);
                        let mut nvoter = clone_names(&poll.choices[c].voter);
                        nvoter.push(votes.name.clone());
                        let nch = Choice {
                            name: poll.choices[c].name.clone(),
                            desc: poll.choices[c].desc.clone(),
                            description: clone_opt_string(&poll.choices[c].description),
                            desc_markdown: clone_opt_string(&poll.choices[c].desc_markdown),
                            vote: nv,
                            voter: nvoter,
                        };
                        proof {
                            assert(nch@.voter =~= ch.voter.push(b.name));
                            assert(nch@ == merged_choice(ch, b.name, sc));
                        }
                        merged.push(nch);
                    },
                }
            },
            None => {
                if !allow_missing {
                    proof {
                        assert(!ballot_covers(p, b)) by {
                            assert(b.lookup(p.choices[c as int].name) is None);
                        }
                    }
                    return Err(RPError::InvalidInput(poll.name.clone()));
                }
                merged.push(clone_choice(&poll.choices[c]));
            },
        }
    }
    let p2 = Poll {
        name: poll.name.clone(),
        filepath: poll.filepath.clone(),
        filename: clone_opt_string(&poll.filename),
        desc: poll.desc.clone(),
        description: clone_opt_string(&poll.description),
        desc_markdown: clone_opt_string(&poll.desc_markdown),
        allowed_participant: clone_names(&poll.allowed_participant),
        deadline_date: poll.deadline_date,
        choices: merged,
        voting_algorithm: poll.voting_algorithm,
        options: poll.options,
    };
    proof {
        // The ballot covered every choice, or missing ones are allowed.
        if !p.opts().allow_missing_choice {
            assert(ballot_covers(p, b)) by {
                assert forall|k: int| 0 <= k < p.choices.len() implies b.lookup(
                    (#[trigger] p.choices[k]).name,
                ) is Some by {}
            }
        }
        assert(p2@.allowed_participant =~= p.allowed_participant);
        assert(p2@.choices =~= merged_choices(p.choices, b)) by {
            assert forall|k: int| 0 <= k < nc implies p2@.choices[k] == merged_choices(p.choices, b)[k] by {
                assert(p2@.choices[k] == merged@[k]@);
            }
        }
        assert(p2@ == merged_poll(p, b));
        // The merged poll is still well formed.
        assert(merged_poll(p, b).wf()) by {
            let mc = merged_choices(p.choices, b);
            assert forall|k: int| 0 <= k < mc.len() implies (#[trigger] mc[k]).wf(p.allowed_participant) by {
                let ch = p.choices[k];
                assert(ch.wf(p.allowed_participant));
                match b.lookup(ch.name) {
                    Some(sc) => {
                        ch.voter.index_of_first_ensures(b.name);
                        match ch.voter.index_of_first(b.name) {
                            Some(i) => {},
                            None => {
                                lemma_push_no_duplicates(ch.voter, b.name);
                                assert forall|t: int| 0 <= t < ch.voter.push(b.name).len() implies p.allowed_participant.contains(
                                    #[trigger] ch.voter.push(b.name)[t],
                                ) by {
                                    if t < ch.voter.len() {
                                        assert(ch.voter.push(b.name)[t] == ch.voter[t]);
                                    } else {
                                        assert(ch.voter.push(b.name)[t] == b.name);
                                    }
                                }
                            },
                        }
                    },
                    None => {},
                }
            }
        }
    }
    Ok(p2)
}

/// One full vote submission against an already-loaded poll: stamps the
/// ballot with the current time, merges it, and re-tallies the merged poll.
/// On success the caller receives the new poll record (to persist whole) and
/// the tally outcome, which can itself be an error such as `DuplicateRank`.
/// Whatever instant the clock returns, the result obeys `apply_outcome` for
/// that instant; a voter missing from the allowed list is rejected at any
/// instant.
pub fn vote_for_poll(poll: &Poll, votes: &VotesForVoter) -> (r: Result<(Poll, Result<PollResult, RPError>), RPError>)
    requires
        poll@.wf(),
        poll@.allowed_participant.len() * poll@.choices.len() <= usize::MAX,
    ensures
        !poll@.allowed_participant.contains(votes@.name)
            ==> (r matches Err(e) && e@ == RPErrorView::PermissionDenied(votes@.name)),
        exists|now: int|
            match #[trigger] apply_outcome(poll@, votes@, now) {
                Ok(pv) => r matches Ok((p2, t)) && p2@ == pv && p2@.wf() && tally_post(
                    tally_result_view(t),
                    pv,
                ),
                Err(ev) => r matches Err(e) && e@ == ev,
            },
{
    let now = now_ts();
    let ghost now_i = now as int;
    match apply_ballot(poll, votes, now) {
        Ok(p2) => {
            proof {
                assert(p2@.allowed_participant.len() * p2@.choices.len() <= usize::MAX);
            }
            let t = compute_poll_result(&p2);
            proof {
                assert(match apply_outcome(poll@, votes@, now_i) {
                    Ok(pv) => p2@ == pv,
                    Err(ev) => false,
                });
            }
            Ok((p2, t))
        },
        Err(e) => {
            proof {
                assert(match apply_outcome(poll@, votes@, now_i) {
                    Ok(pv) => false,
                    Err(ev) => e@ == ev,
                });
            }
            Err(e)
        },
    }
}

/// The tally of a poll, gated on the requesting voter being an allowed
/// participant.
pub fn get_poll_result(poll: &Poll, voter_name: &String) -> (r: Result<PollResult, RPError>)
    requires
        poll@.wf(),
        poll@.allowed_participant.len() * poll@.choices.len() <= usize::MAX,
    ensures
        !poll@.allowed_participant.contains(voter_name@)
            ==> (r matches Err(e) && e@ == RPErrorView::PermissionDenied(voter_name@)),
        poll@.allowed_participant.contains(voter_name@)
            ==> tally_post(tally_result_view(r), poll@),
{
    if !contains_name(&poll.allowed_participant, voter_name) {
        return Err(RPError::PermissionDenied(voter_name.clone()));
    }
    compute_poll_result(poll)
}

// ---------------------------------------------------------------------------
// Idempotence.
// ---------------------------------------------------------------------------

proof fn lemma_index_of_first_push_new<A>(s: Seq<A>, x: A)
    requires
        !s.contains(x),
    ensures
        s.push(x).index_of_first(x) == Some(s.len() as int),
{
    let s2 = s.push(x);
    s2.index_of_first_ensures(x);
    assert(s2[s.len() as int] == x);
    assert(s2.contains(x));
    match s2.index_of_first(x) {
        Some(i) => {
            if i < s.len() {
                assert(s2[i] == s[i]);
                assert(s.contains(s[i]));
            }
        },
        None => {},
    }
}

/// Submitting the same ballot twice at the same instant changes nothing
/// after the first application: the second submission is accepted and leaves
/// the poll — and therefore its tally — exactly as the first left it.
pub proof fn lemma_vote_submission_idempotent(p: PollView, b: BallotView, now: int)
    requires
        p.wf(),
        apply_outcome(p, b, now) is Ok,
    ensures
        apply_outcome(apply_outcome(p, b, now)->Ok_0, b, now) == apply_outcome(p, b, now),
{
    let p2 = merged_poll(p, b);
    assert(apply_outcome(p, b, now)->Ok_0 == p2);
    // The merge changes neither the metadata nor the choice names, so the
    // permission, deadline and coverage checks fall the same way.
    assert forall|c: int| 0 <= c < p2.choices.len() implies (#[trigger] p2.choices[c]).name == p.choices[c].name by {
        match b.lookup(p.choices[c].name) {
            Some(sc) => {},
            None => {},
        }
    }
    if !p.opts().allow_missing_choice {
        assert(ballot_covers(p2, b)) by {
            assert forall|c: int| 0 <= c < p2.choices.len() implies b.lookup(
                (#[trigger] p2.choices[c]).name,
            ) is Some by {
                assert(b.lookup(p.choices[c].name) is Some);
            }
        }
    }
    // Merging a second time changes no choice.
    assert(merged_choices(p2.choices, b) =~= p2.choices) by {
        assert forall|c: int| 0 <= c < p2.choices.len() implies merged_choices(p2.choices, b)[c] == p2.choices[c] by {
            let ch = p.choices[c];
            let ch2 = p2.choices[c];
            match b.lookup(ch.name) {
                Some(sc) => {
                    assert(ch2 == merged_choice(ch, b.name, sc));
                    ch.voter.index_of_first_ensures(b.name);
                    match ch.voter.index_of_first(b.name) {
                        Some(i) => {
                            // The entry sits at the same first index; the
                            // second overwrite writes the same value.
                            assert(ch2.voter == ch.voter);
                            assert(ch2.voter.index_of_first(b.name) == Some(i));
                            assert(merged_choice(ch2, b.name, sc).vote =~= ch2.vote);
                            assert(merged_choice(ch2, b.name, sc) == ch2);
                        },
                        None => {
                            // The entry was appended; the second merge finds
                            // it at the end and overwrites it with itself.
                            assert(ch2.voter == ch.voter.push(b.name));
                            lemma_index_of_first_push_new(ch.voter, b.name);
                            assert(ch2.voter.index_of_first(b.name) == Some(ch.voter.len() as int));
                            assert(merged_choice(ch2, b.name, sc).vote =~= ch2.vote);
                            assert(merged_choice(ch2, b.name, sc) == ch2);
                        },
                    }
                },
                None => {},
            }
        }
    }
    assert(merged_poll(p2, b) == p2);
}

} // verus!
