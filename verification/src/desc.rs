use vstd::prelude::*;
use crate::poll::{Poll, PollView, PollOptions, Choice, VotingAlgorithm, contains_name, opt_str_view};
use crate::rp_error::{RPError, RPErrorView};

verus! {

// ---------------------------------------------------------------------------
// Trusted bridges to chrono and comrak.
// ---------------------------------------------------------------------------

/// The "%Y-%m-%d" rendering of a UTC Unix timestamp.
pub uninterp spec fn date_str_of(ts: int) -> Seq<char>;

/// Relies on chrono's `TimeZone::timestamp_opt` and `DateTime::format`: the
/// "%Y-%m-%d" rendering of a UTC timestamp is a function of the timestamp
/// alone (an out-of-range timestamp renders as the empty string).
#[verifier::external_body]
pub(crate) fn format_deadline(ts: i64) -> (r: String)
    ensures
        r@ == date_str_of(ts as int),
{
    match <chrono::Utc as chrono::TimeZone>::timestamp_opt(&chrono::Utc, ts, 0).single() {
        Some(d) => d.format("%Y-%m-%d").to_string(),
        None => String::new(),
    }
}

/// Relies on chrono::Utc::now for the current UTC time, as seconds since the
/// Unix epoch.  Nothing is assumed about the value.
#[verifier::external_body]
pub(crate) fn now_ts() -> i64 {
    chrono::Utc::now().timestamp()
}

/// The HTML comrak renders for a piece of markdown, with default options.
pub uninterp spec fn html_of_markdown(md: Seq<char>) -> Seq<char>;

/// Relies on comrak::markdown_to_html with default options: the rendering is
/// a function of the markdown text alone.
#[verifier::external_body]
pub(crate) fn render_markdown(md: &str) -> (r: String)
    ensures
        r@ == html_of_markdown(md@),
{
    comrak::markdown_to_html(md, &comrak::Options::default())
}

// ---------------------------------------------------------------------------
// Description resolution.
// ---------------------------------------------------------------------------

/// What `build_desc` must return: the plain description when there is one,
/// else the rendered markdown, else the fallback text.
pub open spec fn desc_spec(
    description: Option<Seq<char>>,
    desc_markdown: Option<Seq<char>>,
    md_content: Option<Seq<char>>,
    fallback: Seq<char>,
) -> Result<Seq<char>, RPErrorView> {
    if description is None && desc_markdown is None {
        Ok(fallback)
    } else if description is None {
        match md_content {
            Some(md) => Ok(html_of_markdown(md)),
            None => Err(RPErrorView::StorageError(desc_markdown->Some_0)),
        }
    } else {
        Ok(description->Some_0)
    }
}

/// Resolves a description field pair to the text that is shown.  The caller
/// supplies `md_content`, the text of the markdown file `desc_markdown` names,
/// when it could be read; a missing markdown file is a storage error naming
/// the file.  When neither field is present the fallback (the record's path)
/// stands in.
pub fn build_desc(
    description: &Option<String>,
    desc_markdown: &Option<String>,
    md_content: &Option<String>,
    fallback: &String,
) -> (r: Result<String, RPError>)
    ensures
        match (r, desc_spec(opt_str_view(*description), opt_str_view(*desc_markdown), opt_str_view(*md_content), fallback@)) {
            (Ok(s), Ok(t)) => s@ == t,
            (Err(e), Err(f)) => e@ == f,
            _ => false,
        },
{
    match description {
        Some(d) => Ok(d.clone()),
        None => {
            match desc_markdown {
                Some(md_name) => {
                    match md_content {
                        Some(md) => Ok(render_markdown(md.as_str())),
                        None => Err(RPError::StorageError(md_name.clone())),
                    }
                },
                None => Ok(fallback.clone()),
            }
        },
    }
}

// ---------------------------------------------------------------------------
// Parsed (presentation-ready) records.
// ---------------------------------------------------------------------------

/// A choice as handed to the presentation layer: description resolved, the
/// vote arrays as recorded.
#[derive(Debug, PartialEq, Clone)]
pub struct ParsedChoice {
    pub name: String,
    pub desc: String,
    pub vote: Vec<u32>,
    pub voter: Vec<String>,
}

pub struct ParsedChoiceView {
    pub name: Seq<char>,
    pub desc: Seq<char>,
    pub vote: Seq<u32>,
    pub voter: Seq<Seq<char>>,
}

impl View for ParsedChoice {
    type V = ParsedChoiceView;

    open spec fn view(&self) -> ParsedChoiceView {
        ParsedChoiceView {
            name: self.name@,
            desc: self.desc@,
            vote: self.vote@,
            voter: self.voter.deep_view(),
        }
    }
}

impl DeepView for ParsedChoice {
    type V = ParsedChoiceView;

    open spec fn deep_view(&self) -> ParsedChoiceView {
        self.view()
    }
}

impl ParsedChoice {
    /// Builds the presentation form of one choice.  `md_content` is the text
    /// of the choice's markdown file, when there is one and it could be read.
    pub fn new(choice: &Choice, md_content: &Option<String>) -> (r: Result<ParsedChoice, RPError>)
        ensures
            match (r, desc_spec(choice@.description, choice@.desc_markdown, opt_str_view(*md_content), choice@.name)) {
                (Ok(pc), Ok(t)) => {
                    &&& pc@.name == choice@.name
                    &&& pc@.desc == t
                    &&& pc@.vote == choice@.vote
                    &&& pc@.voter == choice@.voter
                },
                (Err(e), Err(f)) => e@ == f,
                _ => false,
            },
    {
        let desc = match build_desc(&choice.description, &choice.desc_markdown, md_content, &choice.name) {
            Ok(d) => d,
            Err(e) => {
                return Err(e);
            },
        };
        Ok(ParsedChoice {
            name: choice.name.clone(),
            desc,
            vote: choice.vote.clone(),
            voter: choice.voter.clone(),
        })
    }
}

/// A poll as handed to the presentation layer.
#[derive(Debug, PartialEq, Clone)]
pub struct ParsedPoll {
    pub name: String,
    pub desc: String,
    pub filepath: String,
    pub filename: String,
    pub allowed_participant: Vec<String>,
    pub deadline_date: String,
    pub deadline_near: bool,
    pub algorithm: VotingAlgorithm,
    pub missing_choice: bool,
    pub choices: Vec<ParsedChoice>,
    pub user: String,
}

pub struct ParsedPollView {
    pub name: Seq<char>,
    pub desc: Seq<char>,
    pub filepath: Seq<char>,
    pub filename: Seq<char>,
    pub allowed_participant: Seq<Seq<char>>,
    pub deadline_date: Seq<char>,
    pub deadline_near: bool,
    pub algorithm: VotingAlgorithm,
    pub missing_choice: bool,
    pub choices: Seq<ParsedChoiceView>,
    pub user: Seq<char>,
}

impl View for ParsedPoll {
    type V = ParsedPollView;

    open spec fn view(&self) -> ParsedPollView {
        ParsedPollView {
            name: self.name@,
            desc: self.desc@,
            filepath: self.filepath@,
            filename: self.filename@,
            allowed_participant: self.allowed_participant.deep_view(),
            deadline_date: self.deadline_date@,
            deadline_near: self.deadline_near,
            algorithm: self.algorithm,
            missing_choice: self.missing_choice,
            choices: self.choices.deep_view(),
            user: self.user@,
        }
    }
}

/// Builds the presentation form of a whole poll.  `choice_mds[c]` is the
/// text of choice `c`'s markdown file, when it names one and it could be
/// read.  The choices are converted in order; the first description that
/// cannot be resolved fails the whole conversion, as loading does.
pub fn get_poll_desc(poll: &Poll, choice_mds: &Vec<Option<String>>) -> (r: Result<ParsedPoll, RPError>)
    requires
        choice_mds@.len() == poll@.choices.len(),
    ensures
        match r {
            Ok(pp) => {
                &&& pp@.name == poll@.name
                &&& pp@.desc == poll@.desc
                &&& pp@.filepath == poll@.filepath
                &&& pp@.filename == (match poll@.filename { Some(f) => f, None => Seq::<char>::empty() })
                &&& pp@.allowed_participant == poll@.allowed_participant
                &&& pp@.deadline_date == date_str_of(poll@.deadline_date)
                &&& pp@.deadline_near == false
                &&& pp@.algorithm == poll@.voting_algorithm
                &&& pp@.missing_choice == poll@.opts().allow_missing_choice
                &&& pp@.user == Seq::<char>::empty()
                &&& pp@.choices.len() == poll@.choices.len()
                &&& forall|c: int| 0 <= c < poll@.choices.len() ==> {
                    let ch = #[trigger] poll@.choices[c];
                    let md = opt_str_view(choice_mds@[c]);
                    &&& desc_spec(ch.description, ch.desc_markdown, md, ch.name) is Ok
                    &&& pp@.choices[c].name == ch.name
                    &&& pp@.choices[c].desc == desc_spec(ch.description, ch.desc_markdown, md, ch.name)->Ok_0
                    &&& pp@.choices[c].vote == ch.vote
                    &&& pp@.choices[c].voter == ch.voter
                }
            },
            Err(e) => exists|c: int| 0 <= c < poll@.choices.len() && {
                let ch = #[trigger] poll@.choices[c];
                let md = opt_str_view(choice_mds@[c]);
                &&& desc_spec(ch.description, ch.desc_markdown, md, ch.name) is Err
                &&& e@ == desc_spec(ch.description, ch.desc_markdown, md, ch.name)->Err_0
            },
        },
{
    let filename = match &poll.filename {
        Some(f) => f.clone(),
        None => String::new(),
    };
    let missing_choice = match &poll.options {
        Some(o) => o.allow_missing_choice,
        None => false,
    };
    let mut choices: Vec<ParsedChoice> = Vec::new();
    let nc = poll.choices.len();
    for c in 0..nc
        invariant
            nc == poll.choices.len(),
            choice_mds@.len() == poll@.choices.len(),
            choices@.len() == c,
            forall|k: int| 0 <= k < c ==> {
                let ch = #[trigger] poll@.choices[k];
                let md = opt_str_view(choice_mds@[k]);
                &&& desc_spec(ch.description, ch.desc_markdown, md, ch.name) is Ok
                &&& choices@[k]@.name == ch.name
                &&& choices@[k]@.desc == desc_spec(ch.description, ch.desc_markdown, md, ch.name)->Ok_0
                &&& choices@[k]@.vote == ch.vote
                &&& choices@[k]@.voter == ch.voter
            },
    {
        match ParsedChoice::new(&poll.choices[c], &choice_mds[c]) {
            Ok(pc) => {
                choices.push(pc);
            },
            Err(e) => {
                proof {
                    let ch = poll@.choices[c as int];
                    let md = opt_str_view(choice_mds@[c as int]);
                    assert(desc_spec(ch.description, ch.desc_markdown, md, ch.name) is Err);
                    assert(e@ == desc_spec(ch.description, ch.desc_markdown, md, ch.name)->Err_0);
                }
                return Err(e);
            },
        }
    }
    let pp = ParsedPoll {
        name: poll.name.clone(),
        desc: poll.desc.clone(),
        filepath: poll.filepath.clone(),
        filename,
        allowed_participant: poll.allowed_participant.clone(),
        deadline_date: format_deadline(poll.deadline_date),
        deadline_near: false,
        algorithm: poll.voting_algorithm,
        missing_choice,
        choices,
        user: String::new(),
    };
    proof {
        assert(pp@.allowed_participant =~= poll@.allowed_participant);
        assert forall|c: int| 0 <= c < poll@.choices.len() implies {
            let ch = #[trigger] poll@.choices[c];
            let md = opt_str_view(choice_mds@[c]);
            &&& desc_spec(ch.description, ch.desc_markdown, md, ch.name) is Ok
            &&& pp@.choices[c].name == ch.name
            &&& pp@.choices[c].desc == desc_spec(ch.description, ch.desc_markdown, md, ch.name)->Ok_0
            &&& pp@.choices[c].vote == ch.vote
            &&& pp@.choices[c].voter == ch.voter
        } by {
            assert(pp@.choices[c] == pp.choices@[c]@);
        }
    }
    Ok(pp)
}

// ---------------------------------------------------------------------------
// The poll listing.
// ---------------------------------------------------------------------------

/// A poll's row in the listing shown to one voter.
#[derive(Debug, PartialEq, Clone)]
pub struct PollDesc {
    pub name: String,
    pub desc: String,
    /// The poll's id: its record's file stem.
    pub filepath: String,
    pub deadline_date: String,
    pub deadline_near: bool,
    pub deadline_passed: bool,
    pub complete: bool,
    pub options: PollOptions,
}

pub struct PollDescView {
    pub name: Seq<char>,
    pub desc: Seq<char>,
    pub filepath: Seq<char>,
    pub deadline_date: Seq<char>,
    pub deadline_near: bool,
    pub deadline_passed: bool,
    pub complete: bool,
    pub options: PollOptions,
}

impl View for PollDesc {
    type V = PollDescView;

    open spec fn view(&self) -> PollDescView {
        PollDescView {
            name: self.name@,
            desc: self.desc@,
            filepath: self.filepath@,
            deadline_date: self.deadline_date@,
            deadline_near: self.deadline_near,
            deadline_passed: self.deadline_passed,
            complete: self.complete,
            options: self.options,
        }
    }
}

impl DeepView for PollDesc {
    type V = PollDescView;

    open spec fn deep_view(&self) -> PollDescView {
        self.view()
    }
}

/// The listing's cruder completeness flag: every choice holds at least as
/// many vote entries as there are allowed participants.  For a well-formed
/// poll this says exactly that every allowed participant has an entry
/// everywhere (a zero score still counts here).
pub open spec fn desc_complete(p: PollView) -> bool {
    forall|c: int| 0 <= c < p.choices.len() ==> (#[trigger] p.choices[c]).vote.len() >= p.allowed_participant.len()
}

/// What one listing row holds, as a function of the poll and the current time.
pub open spec fn poll_desc_of(p: PollView, now: int) -> PollDescView {
    PollDescView {
        name: p.name,
        desc: p.desc,
        filepath: match p.filename { Some(f) => f, None => Seq::<char>::empty() },
        deadline_date: date_str_of(p.deadline_date),
        deadline_near: p.deadline_date - now < 86400,
        deadline_passed: p.deadline_date - now < 1,
        complete: desc_complete(p),
        options: p.opts(),
    }
}

/// Builds one listing row.  `deadline_near` holds within a day of the
/// deadline, `deadline_passed` from the deadline instant on.
pub fn make_poll_desc(poll: &Poll, now: i64) -> (r: PollDesc)
    ensures
        r@ == poll_desc_of(poll@, now as int),
{
    let filepath = match &poll.filename {
        Some(f) => f.clone(),
        None => String::new(),
    };
    let options = match &poll.options {
        Some(o) => *o,
        None => PollOptions { allow_missing_choice: false, allow_late_vote: false, show_only_complete_result: false },
    };
    let near = (poll.deadline_date as i128) - (now as i128) < 86400;
    let passed = (poll.deadline_date as i128) - (now as i128) < 1;
    let nvoters = poll.allowed_participant.len();
    let mut complete = true;
    let nc = poll.choices.len();
    let ghost pv = poll@;
    for c in 0..nc
        invariant
            nc == poll.choices.len(),
            pv == poll@,
            nvoters == pv.allowed_participant.len(),
            complete <==> (forall|k: int| 0 <= k < c ==> (#[trigger] pv.choices[k]).vote.len() >= nvoters),
    {
        if poll.choices[c].vote.len() < nvoters {
            complete = false;
            proof {
                assert(pv.choices[c as int].vote.len() < nvoters);
            }
        }
    }
    let r = PollDesc {
        name: poll.name.clone(),
        desc: poll.desc.clone(),
        filepath,
        deadline_date: format_deadline(poll.deadline_date),
        deadline_near: near,
        deadline_passed: passed,
        complete,
        options,
    };
    proof {
        assert(r@ =~= poll_desc_of(poll@, now as int)) by {
            assert(complete == desc_complete(pv));
        }
    }
    r
}

/// The rows one voter sees: the polls that list the voter as an allowed
/// participant, in order, each rendered by `poll_desc_of`.
pub open spec fn desc_list_of(polls: Seq<PollView>, voter: Seq<char>, now: int) -> Seq<PollDescView> {
    polls.filter(|p: PollView| p.allowed_participant.contains(voter)).map_values(|p: PollView| poll_desc_of(p, now))
}

/// Builds the poll listing for one voter at one instant: only polls the
/// voter may vote in appear.
pub fn get_poll_desc_list(polls: &Vec<Poll>, voter: &String, now: i64) -> (r: Vec<PollDesc>)
    ensures
        r.deep_view() == desc_list_of(polls.deep_view(), voter@, now as int),
{
    let mut out: Vec<PollDesc> = Vec::new();
    let n = polls.len();
    let ghost pvs = polls.deep_view();
    for i in 0..n
        invariant
            n == polls@.len(),
            pvs == polls.deep_view(),
            out.deep_view() == desc_list_of(pvs.take(i as int), voter@, now as int),
    {
        let ghost prefix = pvs.take(i as int);
        proof {
            reveal(Seq::filter);
            assert(pvs.take(i + 1).drop_last() =~= prefix);
            assert(pvs.take(i + 1).last() == pvs[i as int]);
            assert(pvs[i as int] == polls@[i as int]@);
        }
        if contains_name(&polls[i].allowed_participant, voter) {
            let ghost old_dv = out.deep_view();
            let d = make_poll_desc(&polls[i], now);
            out.push(d);
            proof {
                assert(pvs[i as int].allowed_participant.contains(voter@));
                assert(pvs.take(i + 1).filter(|p: PollView| p.allowed_participant.contains(voter@))
                    =~= prefix.filter(|p: PollView| p.allowed_participant.contains(voter@)).push(pvs[i as int]));
                assert(out.deep_view() =~= old_dv.push(d@));
                assert(d@ == poll_desc_of(pvs[i as int], now as int));
                assert(out.deep_view() =~= desc_list_of(pvs.take(i + 1), voter@, now as int));
            }
        } else {
            proof {
                assert(!pvs[i as int].allowed_participant.contains(voter@));
                assert(pvs.take(i + 1).filter(|p: PollView| p.allowed_participant.contains(voter@))
                    =~= prefix.filter(|p: PollView| p.allowed_participant.contains(voter@)));
                assert(out.deep_view() =~= desc_list_of(pvs.take(i + 1), voter@, now as int));
            }
        }
    }
    proof {
        assert(pvs.take(n as int) =~= pvs);
    }
    out
}

/// Finds the first index whose poll's `filename` field equals `name`.
fn find_poll_index(polls: &Vec<Poll>, name: &String) -> (r: Option<usize>)
    ensures
        match r {
            Some(i) => {
                &&& 0 <= (i as int) && (i as int) < polls.deep_view().len()
                &&& (#[trigger] polls.deep_view()[i as int]).filename == Some(name@)
                &&& forall|j: int| 0 <= j < (i as int) ==> (#[trigger] polls.deep_view()[j]).filename != Some(name@)
            },
            None => forall|j: int|
                0 <= j < polls.deep_view().len() ==> (#[trigger] polls.deep_view()[j]).filename != Some(name@),
        },
{
    let ghost pvs = polls.deep_view();
    let n = polls.len();
    for i in 0..n
        invariant
            n == polls@.len(),
            pvs == polls.deep_view(),
            forall|j: int| 0 <= j < i ==> (#[trigger] pvs[j]).filename != Some(name@),
    {
        let is_match = match &polls[i].filename {
            Some(f) => {
                let m = *f == *name;
                proof {
                    assert(pvs[i as int].filename == Some(f@));
                }
                m
            },
            None => false,
        };
        if is_match {
            return Some(i);
        }
    }
    None
}

/// Finds the poll whose record file stem is `name`: the first poll whose
/// `filename` field equals it.  The vector is consumed and the match, if
/// any, extracted.
pub fn find_poll_desc(polls: Vec<Poll>, name: &String) -> (r: Result<Poll, RPError>)
    ensures
        match r {
            Ok(p) => exists|i: int| 0 <= i < polls.deep_view().len() && {
                &&& (#[trigger] polls.deep_view()[i]).filename == Some(name@)
                &&& forall|j: int| 0 <= j < i ==> (#[trigger] polls.deep_view()[j]).filename != Some(name@)
                &&& p@ == polls.deep_view()[i]
            },
            Err(e) => {
                &&& e@ == RPErrorView::NotFound(name@)
                &&& forall|j: int| 0 <= j < polls.deep_view().len() ==> (#[trigger] polls.deep_view()[j]).filename != Some(name@)
            },
        },
{
    let ghost pvs = polls.deep_view();
    let idx = find_poll_index(&polls, name);
    match idx {
        Some(i) => {
            let mut rest = polls;
            let p = rest.remove(i);
            proof {
                assert(p@ == pvs[i as int]);
            }
            Ok(p)
        },
        None => Err(RPError::NotFound(name.clone())),
    }
}

} // verus!
