use vstd::prelude::*;
use crate::poll::opt_str_view;

verus! {

/// One registered voter, as the voter record stores it.  The username is
/// the primary identity: it keys ballots and is the audience of invitation
/// tokens.  The password is checked by the authentication layer outside
/// this crate.
#[derive(Debug, PartialEq, Clone)]
pub struct Voter {
    pub username: String,
    pub email: Option<String>,
    pub fullname: Option<String>,
    pub presentation: String,
    pub password: String,
    pub admin: bool,
    /// The record's file stem, filled in when the record is loaded.
    pub filename: Option<String>,
}

/// The mathematical image of a `Voter`.
pub struct VoterView {
    pub username: Seq<char>,
    pub email: Option<Seq<char>>,
    pub fullname: Option<Seq<char>>,
    pub presentation: Seq<char>,
    pub password: Seq<char>,
    pub admin: bool,
    pub filename: Option<Seq<char>>,
}

impl View for Voter {
    type V = VoterView;

    open spec fn view(&self) -> VoterView {
        VoterView {
            username: self.username@,
            email: opt_str_view(self.email),
            fullname: opt_str_view(self.fullname),
            presentation: self.presentation@,
            password: self.password@,
            admin: self.admin,
            filename: opt_str_view(self.filename),
        }
    }
}

impl DeepView for Voter {
    type V = VoterView;

    open spec fn deep_view(&self) -> VoterView {
        self.view()
    }
}

/// The example voter record offered to a fresh installation.  The first
/// voter ever created is made an administrator (`first_voter` says whether
/// no voter record exists yet).
pub fn gen_template(first_voter: bool) -> (r: Voter)
    ensures
        r@.username == "Isaac"@,
        r@.presentation == "I'm one of the best physician"@,
        r@.fullname == Some("Isaac Newton"@),
        r@.email == Some("notinventedyet@newton.co.uk"@),
        r@.password == "This is a very poor designed system"@,
        r@.admin == first_voter,
        r@.filename is None,
{
    Voter {
        username: String::from_str("Isaac"),
        presentation: String::from_str("I'm one of the best physician"),
        fullname: Some(String::from_str("Isaac Newton")),
        email: Some(String::from_str("notinventedyet@newton.co.uk")),
        password: String::from_str("This is a very poor designed system"),
        admin: first_voter,
        filename: None,
    }
}

} // verus!
