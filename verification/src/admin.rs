use vstd::prelude::*;
use vstd::string::StrSliceExecFns;
use crate::config::{Config, opt_or};
use crate::poll::{Poll, PollView, clone_poll};
use crate::rp_error::{RPError, RPErrorView};
use crate::voters::{Voter, VoterView};

verus! {

// ---------------------------------------------------------------------------
// The admin view of the system.
// ---------------------------------------------------------------------------

/// What the admin screens show for one voter: display name, mail address
/// and record id, with the username standing in for a missing full name.
#[derive(Debug, PartialEq, Clone)]
pub struct VoterMap {
    pub fullname: String,
    pub email: String,
    pub filestem: String,
}

pub struct VoterMapView {
    pub fullname: Seq<char>,
    pub email: Seq<char>,
    pub filestem: Seq<char>,
}

impl View for VoterMap {
    type V = VoterMapView;

    open spec fn view(&self) -> VoterMapView {
        VoterMapView {
            fullname: self.fullname@,
            email: self.email@,
            filestem: self.filestem@,
        }
    }
}

/// What `VoterMap::new` must produce from one voter record.
pub open spec fn voter_map_of(v: VoterView) -> VoterMapView {
    VoterMapView {
        fullname: opt_or(v.fullname, v.username),
        email: opt_or(v.email, Seq::<char>::empty()),
        filestem: opt_or(v.filename, Seq::<char>::empty()),
    }
}

impl VoterMap {
    pub fn new(voter: &Voter) -> (r: VoterMap)
        ensures
            r@ == voter_map_of(voter@),
    {
        VoterMap {
            fullname: match &voter.fullname {
                Some(f) => f.clone(),
                None => voter.username.clone(),
            },
            email: match &voter.email {
                Some(e) => e.clone(),
                None => String::new(),
            },
            filestem: match &voter.filename {
                Some(f) => f.clone(),
                None => String::new(),
            },
        }
    }
}

/// Everything the admin screens work from: the loaded voter and poll lists,
/// a username-to-display-data table, and the acting administrator's name.
/// The table is an association list in voter order.
#[derive(Debug)]
pub struct Admin {
    pub voters: Vec<Voter>,
    pub polls: Vec<Poll>,
    pub inv_name: Vec<(String, VoterMap)>,
    pub admin: String,
}

pub struct AdminView {
    pub voters: Seq<VoterView>,
    pub polls: Seq<PollView>,
    pub inv_name: Seq<(Seq<char>, VoterMapView)>,
    pub admin: Seq<char>,
}

impl View for Admin {
    type V = AdminView;

    open spec fn view(&self) -> AdminView {
        AdminView {
            voters: self.voters.deep_view(),
            polls: self.polls.deep_view(),
            inv_name: Seq::new(self.inv_name@.len(), |i: int| (self.inv_name@[i].0@, self.inv_name@[i].1@)),
            admin: self.admin@,
        }
    }
}

impl Admin {
    /// Gathers the admin state from the already-loaded voter and poll
    /// lists: one `inv_name` entry per voter, keyed by username, in order.
    pub fn new(voters: Vec<Voter>, polls: Vec<Poll>, voter: &String) -> (r: Admin)
        ensures
            r@.voters == voters.deep_view(),
            r@.polls == polls.deep_view(),
            r@.admin == voter@,
            r@.inv_name == Seq::new(voters.deep_view().len(), |i: int| (voters.deep_view()[i].username, voter_map_of(voters.deep_view()[i]))),
    {
        let ghost vs = voters.deep_view();
        let mut inv_name: Vec<(String, VoterMap)> = Vec::new();
        let n = voters.len();
        for i in 0..n
            invariant
                n == voters@.len(),
                vs == voters.deep_view(),
                inv_name@.len() == i,
                forall|k: int| 0 <= k < i ==> ((#[trigger] inv_name@[k]).0@, inv_name@[k].1@) == (vs[k].username, voter_map_of(vs[k])),
        {
            inv_name.push((voters[i].username.clone(), VoterMap::new(&voters[i])));
        }
        let r = Admin {
            voters,
            polls,
            inv_name,
            admin: voter.clone(),
        };
        proof {
            assert(r@.inv_name =~= Seq::new(vs.len(), |i: int| (vs[i].username, voter_map_of(vs[i]))));
        }
        r
    }
}

/// Gathers the admin state for one acting administrator.
pub fn get_admin(voters: Vec<Voter>, polls: Vec<Poll>, voter: &String) -> (r: Admin)
    ensures
        r@.voters == voters.deep_view(),
        r@.polls == polls.deep_view(),
        r@.admin == voter@,
        r@.inv_name == Seq::new(voters.deep_view().len(), |i: int| (voters.deep_view()[i].username, voter_map_of(voters.deep_view()[i]))),
{
    Admin::new(voters, polls, voter)
}

// ---------------------------------------------------------------------------
// Small text helpers with exact contracts.
// ---------------------------------------------------------------------------

/// Two characters are equal up to ASCII case.
pub open spec fn char_eq_ic(x: char, y: char) -> bool {
    ||| x == y
    ||| (65 <= x as u32 <= 90 && y as u32 == x as u32 + 32)
    ||| (65 <= y as u32 <= 90 && x as u32 == y as u32 + 32)
}

/// Two texts are equal up to ASCII case, character by character.  Matching
/// an action word this way is what lower-casing the input first achieves.
pub open spec fn eq_ignore_ascii_case(a: Seq<char>, b: Seq<char>) -> bool {
    a.len() == b.len() && forall|i: int| 0 <= i < a.len() ==> char_eq_ic(a[i], #[trigger] b[i])
}

fn str_eq_ignore_case(a: &String, b: &str) -> (r: bool)
    ensures
        r == eq_ignore_ascii_case(a@, b@),
{
    let an = a.as_str().unicode_len();
    let bn = b.unicode_len();
    if an != bn {
        return false;
    }
    for i in 0..an
        invariant
            an == a@.len(),
            bn == b@.len(),
            an == bn,
            forall|j: int| 0 <= j < i ==> char_eq_ic(a@[j], #[trigger] b@[j]),
    {
        let x = a.as_str().get_char(i);
        let y = b.get_char(i);
        let xa = x as u32;
        let ya = y as u32;
        let ok = x == y || (65 <= xa && xa <= 90 && ya == xa + 32) || (65 <= ya && ya <= 90 && xa == ya + 32);
        if !ok {
            return false;
        }
    }
    true
}

/// How many of the first `n` characters of `s` equal `ch`.
pub open spec fn count_char_upto(s: Seq<char>, ch: char, n: int) -> int
    decreases n,
{
    if n <= 0 {
        0
    } else {
        count_char_upto(s, ch, n - 1) + (if s[n - 1] == ch { 1int } else { 0int })
    }
}

/// The text holds exactly one separating colon.
pub open spec fn split_ok(s: Seq<char>) -> bool {
    count_char_upto(s, ':', s.len() as int) == 1
}

/// The position of the unique colon.
pub open spec fn colon_idx(s: Seq<char>) -> int {
    choose|i: int| 0 <= i < s.len() && s[i] == ':'
}

proof fn lemma_count_char_nonneg(s: Seq<char>, ch: char, n: int)
    ensures
        count_char_upto(s, ch, n) >= 0,
    decreases n,
{
    if n > 0 {
        lemma_count_char_nonneg(s, ch, n - 1);
    }
}

proof fn lemma_count_char_ge_one(s: Seq<char>, ch: char, i: int, n: int)
    requires
        0 <= i < n <= s.len(),
        s[i] == ch,
    ensures
        count_char_upto(s, ch, n) >= 1,
    decreases n,
{
    if i < n - 1 {
        lemma_count_char_ge_one(s, ch, i, n - 1);
    } else {
        lemma_count_char_nonneg(s, ch, n - 1);
    }
}

proof fn lemma_count_char_ge_two(s: Seq<char>, ch: char, i: int, j: int, n: int)
    requires
        0 <= i < j < n <= s.len(),
        s[i] == ch,
        s[j] == ch,
    ensures
        count_char_upto(s, ch, n) >= 2,
    decreases n,
{
    if j < n - 1 {
        lemma_count_char_ge_two(s, ch, i, j, n - 1);
    } else {
        lemma_count_char_ge_one(s, ch, i, n - 1);
    }
}

/// Splits `"poll:voter"` at its unique colon; any other shape is refused.
fn split_two(s: &String) -> (r: Option<(String, String)>)
    ensures
        match r {
            Some(parts) => {
                &&& split_ok(s@)
                &&& parts.0@ == s@.take(colon_idx(s@))
                &&& parts.1@ == s@.skip(colon_idx(s@) + 1)
            },
            None => !split_ok(s@),
        },
{
    let n = s.as_str().unicode_len();
    let mut count: usize = 0;
    let mut first: usize = 0;
    for i in 0..n
        invariant
            n == s@.len(),
            count as int == count_char_upto(s@, ':', i as int),
            count as int <= i as int,
            count > 0 ==> (first < i && s@[first as int] == ':'),
    {
        if s.as_str().get_char(i) == ':' {
            if count == 0 {
                first = i;
            }
            count = count + 1;
        }
    }
    if count != 1 {
        return None;
    }
    proof {
        // The colon at `first` is the one `colon_idx` denotes: a second one
        // anywhere would make the count at least two.
        assert(s@[colon_idx(s@)] == ':') by {
            assert(0 <= first < s@.len() && s@[first as int] == ':');
        }
        if colon_idx(s@) != first as int {
            if colon_idx(s@) < first as int {
                lemma_count_char_ge_two(s@, ':', colon_idx(s@), first as int, n as int);
            } else {
                lemma_count_char_ge_two(s@, ':', first as int, colon_idx(s@), n as int);
            }
        }
    }
    let left = s.as_str().substring_char(0, first);
    let right = s.as_str().substring_char(first + 1, n);
    proof {
        assert(left@ =~= s@.take(colon_idx(s@)));
        assert(right@ =~= s@.skip(colon_idx(s@) + 1));
    }
    Some((String::from_str(left), String::from_str(right)))
}

/// Whether the acting user is an administrator: the first voter record
/// bearing the actor's username decides, and an unknown actor is no admin.
pub open spec fn actor_is_admin(voters: Seq<VoterView>, actor: Seq<char>) -> bool {
    let keys = voters.map_values(|v: VoterView| v.username);
    match keys.index_of_first(actor) {
        Some(i) => voters[i].admin,
        None => false,
    }
}

fn check_actor_is_admin(voters: &Vec<Voter>, actor: &String) -> (r: bool)
    ensures
        r == actor_is_admin(voters.deep_view(), actor@),
{
    let ghost vs = voters.deep_view();
    let ghost keys = vs.map_values(|v: VoterView| v.username);
    let n = voters.len();
    for i in 0..n
        invariant
            n == voters@.len(),
            vs == voters.deep_view(),
            keys == vs.map_values(|v: VoterView| v.username),
            keys.len() == n,
            forall|j: int| 0 <= j < i ==> keys[j] != actor@,
    {
        proof {
            assert(keys[i as int] == vs[i as int].username);
            assert(vs[i as int].username == voters@[i as int]@.username);
        }
        if voters[i].username == *actor {
            proof {
                keys.index_of_first_ensures(actor@);
                assert(keys[i as int] == actor@);
            }
            return voters[i].admin;
        }
    }
    proof {
        keys.index_of_first_ensures(actor@);
    }
    false
}

/// Whether `inv_name` carries an entry for the given username.
pub open spec fn known_voter(inv: Seq<(Seq<char>, VoterMapView)>, name: Seq<char>) -> bool {
    exists|i: int| 0 <= i < inv.len() && (#[trigger] inv[i]).0 == name
}

fn check_known_voter(inv: &Vec<(String, VoterMap)>, name: &String) -> (r: bool)
    ensures
        r == known_voter(Seq::new(inv@.len(), |i: int| (inv@[i].0@, inv@[i].1@)), name@),
{
    let ghost iv = Seq::new(inv@.len(), |i: int| (inv@[i].0@, inv@[i].1@));
    let n = inv.len();
    for i in 0..n
        invariant
            n == inv@.len(),
            iv == Seq::new(inv@.len(), |i: int| (inv@[i].0@, inv@[i].1@)),
            forall|j: int| 0 <= j < i ==> (#[trigger] iv[j]).0 != name@,
    {
        if inv[i].0 == *name {
            proof {
                assert(iv[i as int].0 == name@);
            }
            return true;
        }
    }
    false
}

fn clone_voter(v: &Voter) -> (r: Voter)
    ensures
        r@ == v@,
{
    Voter {
        username: v.username.clone(),
        email: crate::poll::clone_opt_string(&v.email),
        fullname: crate::poll::clone_opt_string(&v.fullname),
        presentation: v.presentation.clone(),
        password: v.password.clone(),
        admin: v.admin,
        filename: crate::poll::clone_opt_string(&v.filename),
    }
}

// ---------------------------------------------------------------------------
// The admin decisions.  The functions below decide which storage action an
// admin request leads to; performing the action (deleting or writing a
// record, sending mail) is the caller's part.
// ---------------------------------------------------------------------------

/// A decided voter-management action.
#[derive(Debug)]
pub enum VoterAction {
    /// Delete the voter record with this file stem.
    Delete(String),
    /// Write this record under this file stem.
    Update(String, Voter),
}

pub enum VoterActionView {
    Delete(Seq<char>),
    Update(Seq<char>, VoterView),
}

impl View for VoterAction {
    type V = VoterActionView;

    open spec fn view(&self) -> VoterActionView {
        match self {
            VoterAction::Delete(s) => VoterActionView::Delete(s@),
            VoterAction::Update(s, v) => VoterActionView::Update(s@, v@),
        }
    }
}

/// Decides a voter-management request: only an administrator may act; the
/// action word is matched regardless of ASCII case; an update without a
/// record to write is refused; an unknown action is not found.
pub fn update_voter(admin: &Admin, actor: &String, action: &String, voter_name: &String, voter: Option<&Voter>) -> (r: Result<VoterAction, RPError>)
    ensures
        ({
            if !actor_is_admin(admin@.voters, actor@) {
                r matches Err(e) && e@ == RPErrorView::PermissionDenied(actor@)
            } else if eq_ignore_ascii_case(action@, "delete"@) {
                r matches Ok(a) && a@ == VoterActionView::Delete(voter_name@)
            } else if eq_ignore_ascii_case(action@, "update"@) {
                match voter {
                    Some(v) => r matches Ok(a) && a@ == VoterActionView::Update(voter_name@, v@),
                    None => r matches Err(e) && e@ == RPErrorView::InvalidInput(actor@),
                }
            } else {
                r matches Err(e) && e@ == RPErrorView::NotFound(action@)
            }
        }),
{
    if !check_actor_is_admin(&admin.voters, actor) {
        return Err(RPError::PermissionDenied(actor.clone()));
    }
    if str_eq_ignore_case(action, "delete") {
        Ok(VoterAction::Delete(voter_name.clone()))
    } else if str_eq_ignore_case(action, "update") {
        match voter {
            Some(v) => Ok(VoterAction::Update(voter_name.clone(), clone_voter(v))),
            None => Err(RPError::InvalidInput(actor.clone())),
        }
    } else {
        Err(RPError::NotFound(action.clone()))
    }
}

/// A decided poll-management action.
#[derive(Debug)]
pub enum PollAction {
    /// Delete the poll record with this file stem.
    Delete(String),
    /// Write this record under this file stem.
    Update(String, Poll),
    /// Remove this voter (second part) from this poll (first part).
    DelVoter(String, String),
    /// Add this voter (second part) to this poll (first part).
    AddVoter(String, String),
    /// Issue tokens for this poll and mail them to its voters.
    SendEmail(String),
}

pub enum PollActionView {
    Delete(Seq<char>),
    Update(Seq<char>, PollView),
    DelVoter(Seq<char>, Seq<char>),
    AddVoter(Seq<char>, Seq<char>),
    SendEmail(Seq<char>),
}

impl View for PollAction {
    type V = PollActionView;

    open spec fn view(&self) -> PollActionView {
        match self {
            PollAction::Delete(s) => PollActionView::Delete(s@),
            PollAction::Update(s, p) => PollActionView::Update(s@, p@),
            PollAction::DelVoter(a, b) => PollActionView::DelVoter(a@, b@),
            PollAction::AddVoter(a, b) => PollActionView::AddVoter(a@, b@),
            PollAction::SendEmail(s) => PollActionView::SendEmail(s@),
        }
    }
}

/// What the voter-membership actions must find in their argument: the
/// `"poll:voter"` pair, with the voter known to the admin table.
pub open spec fn voter_arg_ok(admin: AdminView, arg: Seq<char>) -> bool {
    split_ok(arg) && known_voter(admin.inv_name, arg.skip(colon_idx(arg) + 1))
}

/// Decides a poll-management request: only an administrator may act.
/// `delete` and `update` manage whole records; `edit` is answered over the
/// editor instead and reports not-found here; `del_voter` and `add_voter`
/// take a `"poll:voter"` argument whose voter must be known; `sendemail`
/// needs a mail server configured; anything else is not found.
pub fn update_poll(cfg: Option<&Config>, admin: &Admin, actor: &String, action: &String, poll_filename: &String, poll: Option<&Poll>) -> (r: Result<PollAction, RPError>)
    ensures
        ({
            if !actor_is_admin(admin@.voters, actor@) {
                r matches Err(e) && e@ == RPErrorView::PermissionDenied(actor@)
            } else if eq_ignore_ascii_case(action@, "delete"@) {
                r matches Ok(a) && a@ == PollActionView::Delete(poll_filename@)
            } else if eq_ignore_ascii_case(action@, "edit"@) {
                r matches Err(e) && e@ == RPErrorView::NotFound(action@)
            } else if eq_ignore_ascii_case(action@, "update"@) {
                match poll {
                    Some(p) => r matches Ok(a) && a@ == PollActionView::Update(poll_filename@, p@),
                    None => r matches Err(e) && e@ == RPErrorView::InvalidInput(actor@),
                }
            } else if eq_ignore_ascii_case(action@, "del_voter"@) {
                if voter_arg_ok(admin@, poll_filename@) {
                    r matches Ok(a) && a@ == PollActionView::DelVoter(
                        poll_filename@.take(colon_idx(poll_filename@)),
                        poll_filename@.skip(colon_idx(poll_filename@) + 1),
                    )
                } else {
                    r matches Err(e) && e@ == RPErrorView::InvalidInput(actor@)
                }
            } else if eq_ignore_ascii_case(action@, "add_voter"@) {
                if voter_arg_ok(admin@, poll_filename@) {
                    r matches Ok(a) && a@ == PollActionView::AddVoter(
                        poll_filename@.take(colon_idx(poll_filename@)),
                        poll_filename@.skip(colon_idx(poll_filename@) + 1),
                    )
                } else {
                    r matches Err(e) && e@ == RPErrorView::InvalidInput(actor@)
                }
            } else if eq_ignore_ascii_case(action@, "sendemail"@) {
                match cfg {
                    Some(c) => if c@.smtp_server is Some {
                        r matches Ok(a) && a@ == PollActionView::SendEmail(poll_filename@)
                    } else {
                        r matches Err(e) && e@ == RPErrorView::InvalidInput(actor@)
                    },
                    None => r matches Err(e) && e@ == RPErrorView::InvalidInput(actor@),
                }
            } else {
                r matches Err(e) && e@ == RPErrorView::NotFound(action@)
            }
        }),
{
    if !check_actor_is_admin(&admin.voters, actor) {
        return Err(RPError::PermissionDenied(actor.clone()));
    }
    if str_eq_ignore_case(action, "delete") {
        Ok(PollAction::Delete(poll_filename.clone()))
    } else if str_eq_ignore_case(action, "edit") {
        Err(RPError::NotFound(action.clone()))
    } else if str_eq_ignore_case(action, "update") {
        match poll {
            Some(p) => Ok(PollAction::Update(poll_filename.clone(), clone_poll(p))),
            None => Err(RPError::InvalidInput(actor.clone())),
        }
    } else if str_eq_ignore_case(action, "del_voter") {
        match split_two(poll_filename) {
            Some(parts) => {
                if check_known_voter(&admin.inv_name, &parts.1) {
                    Ok(PollAction::DelVoter(parts.0, parts.1))
                } else {
                    Err(RPError::InvalidInput(actor.clone()))
                }
            },
            None => Err(RPError::InvalidInput(actor.clone())),
        }
    } else if str_eq_ignore_case(action, "add_voter") {
        match split_two(poll_filename) {
            Some(parts) => {
                if check_known_voter(&admin.inv_name, &parts.1) {
                    Ok(PollAction::AddVoter(parts.0, parts.1))
                } else {
                    Err(RPError::InvalidInput(actor.clone()))
                }
            },
            None => Err(RPError::InvalidInput(actor.clone())),
        }
    } else if str_eq_ignore_case(action, "sendemail") {
        match cfg {
            Some(c) => {
                if c.smtp_server.is_some() {
                    Ok(PollAction::SendEmail(poll_filename.clone()))
                } else {
                    Err(RPError::InvalidInput(actor.clone()))
                }
            },
            None => Err(RPError::InvalidInput(actor.clone())),
        }
    } else {
        Err(RPError::NotFound(action.clone()))
    }
}

} // verus!
