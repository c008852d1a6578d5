use vstd::prelude::*;

verus! {

/// The closed set of tallying rules a poll can select.  `FrenchSystem` and
/// `SuccessiveElimination` are declared but have no tallying rule: the engine
/// answers them with an explicit `Unimplemented` error and never falls back
/// to another rule.
#[derive(Debug, PartialEq, Eq, Copy, Clone, Structural)]
pub enum VotingAlgorithm {
    Max,
    Binary,
    Bordat,
    Condorcet,
    FirstChoice,
    FrenchSystem,
    SuccessiveElimination,
}

impl Default for VotingAlgorithm {
    /// The default rule when a poll names none.
    fn default() -> (r: Self)
        ensures
            r == VotingAlgorithm::Max,
    {
        VotingAlgorithm::Max
    }
}

/// Per-poll policy switches.
#[derive(Debug, PartialEq, Eq, Copy, Clone, Structural)]
pub struct PollOptions {
    /// A ballot may omit a choice (the choice is left untouched).
    pub allow_missing_choice: bool,
    /// A ballot may still be cast after the deadline.
    pub allow_late_vote: bool,
    /// Only show a ranking once every allowed participant has voted everywhere.
    pub show_only_complete_result: bool,
}

impl Default for PollOptions {
    fn default() -> (r: Self)
        ensures
            r == (PollOptions { allow_missing_choice: false, allow_late_vote: false, show_only_complete_result: false }),
    {
        PollOptions { allow_missing_choice: false, allow_late_vote: false, show_only_complete_result: false }
    }
}

/// One choice of a poll, with its two parallel vote arrays: index `i` of
/// `voter` and of `vote` together record one voter's score for this choice.
#[derive(Debug, PartialEq, Clone)]
pub struct Choice {
    pub name: String,
    /// The resolved description (filled from `description` or rendered markdown).
    pub desc: String,
    /// A plain-text description, if the record carries one.
    pub description: Option<String>,
    /// The name of a markdown file holding the description, if used instead.
    pub desc_markdown: Option<String>,
    pub vote: Vec<u32>,
    pub voter: Vec<String>,
}

/// The mathematical image of a `Choice`.
pub struct ChoiceView {
    pub name: Seq<char>,
    pub desc: Seq<char>,
    pub description: Option<Seq<char>>,
    pub desc_markdown: Option<Seq<char>>,
    pub vote: Seq<u32>,
    pub voter: Seq<Seq<char>>,
}

pub open spec fn opt_str_view(o: Option<String>) -> Option<Seq<char>> {
    match o {
        Some(s) => Some(s@),
        None => None,
    }
}

impl View for Choice {
    type V = ChoiceView;

    open spec fn view(&self) -> ChoiceView {
        ChoiceView {
            name: self.name@,
            desc: self.desc@,
            description: opt_str_view(self.description),
            desc_markdown: opt_str_view(self.desc_markdown),
            vote: self.vote@,
            voter: self.voter.deep_view(),
        }
    }
}

impl ChoiceView {
    /// The structural invariant of one choice, relative to the poll's
    /// allowed-participant list: the parallel arrays agree in length, no
    /// voter appears twice, and every recorded voter is an allowed one.
    pub open spec fn wf(self, allowed: Seq<Seq<char>>) -> bool {
        &&& self.vote.len() == self.voter.len()
        &&& self.voter.no_duplicates()
        &&& forall|i: int| 0 <= i < self.voter.len() ==> allowed.contains(#[trigger] self.voter[i])
    }

    /// The score this choice records for voter `v`, or 0 when `v` has not
    /// voted here.  An explicit 0 score and an absent vote are
    /// indistinguishable downstream.
    pub open spec fn score_of(self, v: Seq<char>) -> u32 {
        match self.voter.index_of_first(v) {
            Some(i) => self.vote[i],
            None => 0,
        }
    }
}

/// A poll record: the unit that is loaded, merged into by ballots, and
/// tallied.  The deadline is a UTC Unix timestamp in seconds.
#[derive(Debug, PartialEq, Clone)]
pub struct Poll {
    pub name: String,
    /// Where the backing record lives; kept so a caller can persist the poll.
    pub filepath: String,
    /// The record's file stem, when known; it doubles as the poll's id.
    pub filename: Option<String>,
    /// The resolved description (filled from `description` or rendered markdown).
    pub desc: String,
    pub description: Option<String>,
    pub desc_markdown: Option<String>,
    pub allowed_participant: Vec<String>,
    pub deadline_date: i64,
    pub choices: Vec<Choice>,
    pub voting_algorithm: VotingAlgorithm,
    pub options: Option<PollOptions>,
}

/// The mathematical image of a `Poll`.
pub struct PollView {
    pub name: Seq<char>,
    pub filepath: Seq<char>,
    pub filename: Option<Seq<char>>,
    pub desc: Seq<char>,
    pub description: Option<Seq<char>>,
    pub desc_markdown: Option<Seq<char>>,
    pub allowed_participant: Seq<Seq<char>>,
    pub deadline_date: int,
    pub choices: Seq<ChoiceView>,
    pub voting_algorithm: VotingAlgorithm,
    pub options: Option<PollOptions>,
}

impl View for Poll {
    type V = PollView;

    open spec fn view(&self) -> PollView {
        PollView {
            name: self.name@,
            filepath: self.filepath@,
            filename: opt_str_view(self.filename),
            desc: self.desc@,
            description: opt_str_view(self.description),
            desc_markdown: opt_str_view(self.desc_markdown),
            allowed_participant: self.allowed_participant.deep_view(),
            deadline_date: self.deadline_date as int,
            choices: self.choices.deep_view(),
            voting_algorithm: self.voting_algorithm,
            options: self.options,
        }
    }
}

impl DeepView for Choice {
    type V = ChoiceView;

    open spec fn deep_view(&self) -> ChoiceView {
        self.view()
    }
}

impl DeepView for Poll {
    type V = PollView;

    open spec fn deep_view(&self) -> PollView {
        self.view()
    }
}

impl PollView {
    /// The poll invariant: allowed participants are unique, every choice is
    /// well formed against them, and both the participant and the choice
    /// count fit in 32 bits so that tallying arithmetic stays exact.
    pub open spec fn wf(self) -> bool {
        &&& self.allowed_participant.no_duplicates()
        &&& self.allowed_participant.len() <= u32::MAX
        &&& self.choices.len() <= u32::MAX
        &&& forall|c: int| 0 <= c < self.choices.len() ==> (#[trigger] self.choices[c]).wf(self.allowed_participant)
    }

    /// The policy switches in force: the options block, or all-false defaults.
    pub open spec fn opts(self) -> PollOptions {
        match self.options {
            Some(o) => o,
            None => PollOptions { allow_missing_choice: false, allow_late_vote: false, show_only_complete_result: false },
        }
    }

    /// Completeness: every allowed participant has a recorded, non-zero score
    /// for every choice.  (A zero score is indistinguishable from an absent
    /// vote, so it counts as missing.)
    pub open spec fn complete(self) -> bool {
        forall|a: int, c: int|
            0 <= a < self.allowed_participant.len() && 0 <= c < self.choices.len()
                ==> (#[trigger] self.choices[c]).score_of(#[trigger] self.allowed_participant[a]) != 0
    }

    /// The deadline has passed at time `now` (both in UTC seconds): the
    /// deadline instant itself already counts as passed.
    pub open spec fn deadline_passed(self, now: int) -> bool {
        now >= self.deadline_date
    }
}

/// One voter's ballot: the authenticated voter name and the submitted
/// choice-name-to-score mapping, as an association list.  When a choice name
/// appears twice the first entry wins.
#[derive(Debug, Clone)]
pub struct VotesForVoter {
    pub name: String,
    pub votes: Vec<(String, u32)>,
}

/// The mathematical image of a `VotesForVoter`.
pub struct BallotView {
    pub name: Seq<char>,
    pub votes: Seq<(Seq<char>, u32)>,
}

impl View for VotesForVoter {
    type V = BallotView;

    open spec fn view(&self) -> BallotView {
        BallotView {
            name: self.name@,
            votes: Seq::new(self.votes@.len(), |i: int| (self.votes@[i].0@, self.votes@[i].1)),
        }
    }
}

impl BallotView {
    /// The score this ballot submits for choice `key`: the first entry with
    /// that name, if any.
    pub open spec fn lookup(self, key: Seq<char>) -> Option<u32> {
        match self.votes.map_values(|p: (Seq<char>, u32)| p.0).index_of_first(key) {
            Some(i) => Some(self.votes[i].1),
            None => None,
        }
    }
}

/// Finds the first index of `name` in `names`, scanning front to back.
pub fn find_name(names: &Vec<String>, name: &String) -> (r: Option<usize>)
    ensures
        match r {
            Some(i) => names.deep_view().index_of_first(name@) == Some(i as int),
            None => names.deep_view().index_of_first(name@) is None,
        },
{
    let ghost all: Seq<Seq<char>> = names.deep_view();
    let n = names.len();
    for i in 0..n
        invariant
            n == names@.len(),
            all == names.deep_view(),
            forall|j: int| 0 <= j < i ==> all[j] != name@,
    {
        if names[i] == *name {
            proof {
                all.index_of_first_ensures(name@);
                assert(all[i as int] == name@);
            }
            return Some(i);
        }
    }
    proof {
        all.index_of_first_ensures(name@);
    }
    None
}

/// Whether `name` is among `names`.
pub fn contains_name(names: &Vec<String>, name: &String) -> (r: bool)
    ensures
        r == names.deep_view().contains(name@),
{
    let r = find_name(names, name);
    proof {
        names.deep_view().index_of_first_ensures(name@);
    }
    r.is_some()
}

// ---------------------------------------------------------------------------
// Cloning helpers with exact contracts (the derived clones carry none).
// ---------------------------------------------------------------------------

pub(crate) fn clone_scores(v: &Vec<u32>) -> (r: Vec<u32>)
    ensures
        r@ == v@,
{
    let mut out: Vec<u32> = Vec::new();
    let n = v.len();
    for i in 0..n
        invariant
            n == v@.len(),
            out@ == v@.take(i as int),
    {
        out.push(v[i]);
        proof {
            assert(out@ =~= v@.take(i + 1));
        }
    }
    proof {
        assert(v@.take(n as int) =~= v@);
    }
    out
}

pub(crate) fn clone_names(v: &Vec<String>) -> (r: Vec<String>)
    ensures
        r@ == v@,
{
    let mut out: Vec<String> = Vec::new();
    let n = v.len();
    for i in 0..n
        invariant
            n == v@.len(),
            out@ == v@.take(i as int),
    {
        out.push(v[i].clone());
        proof {
            assert(out@ =~= v@.take(i + 1));
        }
    }
    proof {
        assert(v@.take(n as int) =~= v@);
    }
    out
}

pub(crate) fn clone_opt_string(o: &Option<String>) -> (r: Option<String>)
    ensures
        r == *o,
{
    match o {
        Some(s) => Some(s.clone()),
        None => None,
    }
}

pub(crate) fn clone_choice(c: &Choice) -> (r: Choice)
    ensures
        r@ == c@,
{
    let r = Choice {
        name: c.name.clone(),
        desc: c.desc.clone(),
        description: clone_opt_string(&c.description),
        desc_markdown: clone_opt_string(&c.desc_markdown),
        vote: clone_scores(&c.vote),
        voter: clone_names(&c.voter),
    };
    proof {
        assert(r@.voter =~= c@.voter);
    }
    r
}


pub(crate) fn clone_poll(p: &Poll) -> (r: Poll)
    ensures
        r@ == p@,
{
    let mut choices: Vec<Choice> = Vec::new();
    let nc = p.choices.len();
    for c in 0..nc
        invariant
            nc == p.choices@.len(),
            choices@.len() == c,
            forall|k: int| 0 <= k < c ==> (#[trigger] choices@[k])@ == p@.choices[k],
    {
        choices.push(clone_choice(&p.choices[c]));
    }
    let r = Poll {
        name: p.name.clone(),
        filepath: p.filepath.clone(),
        filename: clone_opt_string(&p.filename),
        desc: p.desc.clone(),
        description: clone_opt_string(&p.description),
        desc_markdown: clone_opt_string(&p.desc_markdown),
        allowed_participant: clone_names(&p.allowed_participant),
        deadline_date: p.deadline_date,
        choices,
        voting_algorithm: p.voting_algorithm,
        options: p.options,
    };
    proof {
        assert(r@.allowed_participant =~= p@.allowed_participant);
        assert(r@.choices =~= p@.choices);
    }
    r
}


/// Whether one name list has no duplicates.
fn names_no_dups(v: &Vec<String>) -> (r: bool)
    ensures
        r == v.deep_view().no_duplicates(),
{
    let ghost vs = v.deep_view();
    let n = v.len();
    for i in 0..n
        invariant
            n == v@.len(),
            vs == v.deep_view(),
            forall|x: int, y: int| 0 <= x < y < n && x < i ==> vs[x] != vs[y],
    {
        let ghost ii = i as int;
        let mut j = i + 1;
        while j < n
            invariant
                n == v@.len(),
                vs == v.deep_view(),
                ii == i as int,
                i < n,
                i < j,
                forall|y: int| ii < y < j ==> vs[ii] != vs[y],
            decreases n - j,
        {
            if v[i] == v[j] {
                proof {
                    assert(vs[ii] == vs[j as int]);
                }
                return false;
            }
            j = j + 1;
        }
    }
    true
}

/// Checks the whole poll invariant at run time, so that unverified callers
/// can establish it before handing a loaded record to the engine.
pub fn is_well_formed(poll: &Poll) -> (b: bool)
    ensures
        b == poll@.wf(),
{
    let ghost p = poll@;
    if !names_no_dups(&poll.allowed_participant) {
        return false;
    }
    if !(poll.allowed_participant.len() as u64 <= u32::MAX as u64) {
        return false;
    }
    if !(poll.choices.len() as u64 <= u32::MAX as u64) {
        return false;
    }
    let nc = poll.choices.len();
    for c in 0..nc
        invariant
            p == poll@,
            nc == p.choices.len(),
            forall|k: int| 0 <= k < c ==> (#[trigger] p.choices[k]).wf(p.allowed_participant),
    {
        let ghost ch = p.choices[c as int];
        if poll.choices[c].vote.len() != poll.choices[c].voter.len() {
            return false;
        }
        if !names_no_dups(&poll.choices[c].voter) {
            return false;
        }
        let nv = poll.choices[c].voter.len();
        for j in 0..nv
            invariant
                p == poll@,
                c < nc,
                nc == p.choices.len(),
                ch == p.choices[c as int],
                nv == ch.voter.len(),
                nv == poll.choices[c as int].voter.len(),
                forall|k: int| 0 <= k < j ==> p.allowed_participant.contains(#[trigger] ch.voter[k]),
        {
            if !contains_name(&poll.allowed_participant, &poll.choices[c].voter[j]) {
                proof {
                    assert(ch.voter[j as int] == poll.choices@[c as int].voter@[j as int]@);
                }
                return false;
            }
            proof {
                assert(ch.voter[j as int] == poll.choices@[c as int].voter@[j as int]@);
            }
        }
    }
    true
}

/// The example poll record offered to a fresh installation: a two-choice
/// fruit vote among three participants, under the Bordat rule, with the
/// deadline set to the given instant.
pub fn gen_template(now: i64) -> (r: Poll)
    ensures
        r@.name == "Best fruit"@,
        r@.filepath == Seq::<char>::empty(),
        r@.filename is None,
        r@.desc == Seq::<char>::empty(),
        r@.description == Some("Choose your best fruit"@),
        r@.desc_markdown is None,
        r@.allowed_participant == seq!["John"@, "Bob"@, "Isaac"@],
        r@.deadline_date == now as int,
        r@.voting_algorithm == VotingAlgorithm::Bordat,
        r@.options is None,
        r@.choices.len() == 2,
        r@.choices[0].name == "pear"@,
        r@.choices[0].description == Some("A pear is good"@),
        r@.choices[0].vote == seq![3u32, 4u32],
        r@.choices[0].voter == seq!["John"@, "Bob"@],
        r@.choices[1].name == "apple"@,
        r@.choices[1].description == Some("An apple a day..."@),
        r@.choices[1].vote == seq![5u32, 2u32],
        r@.choices[1].voter == seq!["John"@, "Bob"@],
{
    let pear = Choice {
        name: String::from_str("pear"),
        desc: String::new(),
        description: Some(String::from_str("A pear is good")),
        desc_markdown: None,
        vote: vec![3, 4],
        voter: vec![String::from_str("John"), String::from_str("Bob")],
    };
    let apple = Choice {
        name: String::from_str("apple"),
        desc: String::new(),
        description: Some(String::from_str("An apple a day...")),
        desc_markdown: None,
        vote: vec![5, 2],
        voter: vec![String::from_str("John"), String::from_str("Bob")],
    };
    let r = Poll {
        name: String::from_str("Best fruit"),
        filepath: String::new(),
        filename: None,
        desc: String::new(),
        description: Some(String::from_str("Choose your best fruit")),
        desc_markdown: None,
        allowed_participant: vec![
            String::from_str("John"),
            String::from_str("Bob"),
            String::from_str("Isaac"),
        ],
        deadline_date: now,
        choices: vec![pear, apple],
        voting_algorithm: VotingAlgorithm::Bordat,
        options: None,
    };
    proof {
        assert(r@.allowed_participant =~= seq!["John"@, "Bob"@, "Isaac"@]);
        assert(r@.choices[0].vote =~= seq![3u32, 4u32]);
        assert(r@.choices[0].voter =~= seq!["John"@, "Bob"@]);
        assert(r@.choices[1].vote =~= seq![5u32, 2u32]);
        assert(r@.choices[1].voter =~= seq!["John"@, "Bob"@]);
    }
    r
}

/// Every choice of a well-formed poll has distinct voters, parallel arrays
/// of equal length, and never more voter entries than the poll has allowed
/// participants.
pub proof fn lemma_poll_invariant(p: PollView)
    requires
        p.wf(),
    ensures
        forall|c: int| 0 <= c < p.choices.len() ==> {
            &&& (#[trigger] p.choices[c]).voter.no_duplicates()
            &&& p.choices[c].vote.len() == p.choices[c].voter.len()
            &&& p.choices[c].voter.len() <= p.allowed_participant.len()
        },
{
    assert forall|c: int| 0 <= c < p.choices.len() implies {
        &&& (#[trigger] p.choices[c]).voter.no_duplicates()
        &&& p.choices[c].vote.len() == p.choices[c].voter.len()
        &&& p.choices[c].voter.len() <= p.allowed_participant.len()
    } by {
        let voter = p.choices[c].voter;
        let allowed = p.allowed_participant;
        voter.unique_seq_to_set();
        allowed.unique_seq_to_set();
        assert(voter.to_set().subset_of(allowed.to_set())) by {
            assert forall|v: Seq<char>| voter.to_set().contains(v) implies allowed.to_set().contains(v) by {
                assert(voter.contains(v));
                assert(allowed.contains(v));
            }
        }
        vstd::set_lib::lemma_len_subset(voter.to_set(), allowed.to_set());
    }
}

} // verus!
