use vstd::prelude::*;
use crate::poll::opt_str_view;

verus! {

/// The process-wide configuration: the public base URL, the feature
/// switches, and the mail settings used when invitations are sent.
#[derive(Debug, PartialEq, Clone)]
pub struct Config {
    pub base_url: String,
    pub disable_login: bool,
    pub enable_admin: bool,
    pub allow_editor: bool,
    pub smtp_server: Option<String>,
    pub smtp_port: Option<u16>,
    pub smtp_username: Option<String>,
    pub smtp_password: Option<String>,
    pub smtp_sender: Option<String>,
    pub smtp_invite_subject: Option<String>,
    pub smtp_reminder_subject: Option<String>,
}

/// The mathematical image of a `Config`.
pub struct ConfigView {
    pub base_url: Seq<char>,
    pub disable_login: bool,
    pub enable_admin: bool,
    pub allow_editor: bool,
    pub smtp_server: Option<Seq<char>>,
    pub smtp_port: Option<u16>,
    pub smtp_username: Option<Seq<char>>,
    pub smtp_password: Option<Seq<char>>,
    pub smtp_sender: Option<Seq<char>>,
    pub smtp_invite_subject: Option<Seq<char>>,
    pub smtp_reminder_subject: Option<Seq<char>>,
}

impl View for Config {
    type V = ConfigView;

    open spec fn view(&self) -> ConfigView {
        ConfigView {
            base_url: self.base_url@,
            disable_login: self.disable_login,
            enable_admin: self.enable_admin,
            allow_editor: self.allow_editor,
            smtp_server: opt_str_view(self.smtp_server),
            smtp_port: self.smtp_port,
            smtp_username: opt_str_view(self.smtp_username),
            smtp_password: opt_str_view(self.smtp_password),
            smtp_sender: opt_str_view(self.smtp_sender),
            smtp_invite_subject: opt_str_view(self.smtp_invite_subject),
            smtp_reminder_subject: opt_str_view(self.smtp_reminder_subject),
        }
    }
}

pub open spec fn opt_or(o: Option<Seq<char>>, d: Seq<char>) -> Seq<char> {
    match o {
        Some(s) => s,
        None => d,
    }
}

pub open spec fn bool_str(b: bool) -> Seq<char> {
    if b {
        "true"@
    } else {
        "false"@
    }
}

/// The text `Config::dump` renders: every display field on its own line,
/// with a stand-in default wherever a field is absent, and the password
/// always masked.
pub open spec fn dump_spec(c: ConfigView) -> Seq<char> {
    "baseURL: "@ + c.base_url + "\ndisableLogin: "@ + bool_str(c.disable_login) + "\nenableAdmin: "@
        + bool_str(c.enable_admin) + "\nallowEditor: "@ + bool_str(c.allow_editor) + "\nsmtp: "@
        + opt_or(c.smtp_server, "sendmail"@) + " with "@ + opt_or(c.smtp_username, "anonymous"@)
        + ",*** sender: "@ + opt_or(c.smtp_sender, "no_reply@<yourhost>"@) + "\nMail subject: invite("@
        + opt_or(c.smtp_invite_subject, "We need you!"@) + "), remind("@
        + opt_or(c.smtp_reminder_subject, "We still need you!"@) + ")"@
}

impl Config {
    /// The built-in configuration a fresh process starts from.
    pub fn new() -> (r: Config)
        ensures
            r@.base_url == "http://localhost"@,
            !r@.disable_login,
            !r@.enable_admin,
            r@.allow_editor,
            r@.smtp_server == Some("sendmail"@),
            r@.smtp_port is None,
            r@.smtp_username is None,
            r@.smtp_password is None,
            r@.smtp_sender == Some("no_reply@localhost"@),
            r@.smtp_invite_subject == Some("Invitation for voting"@),
            r@.smtp_reminder_subject == Some("Invitation for voting (reminder)"@),
    {
        Config {
            base_url: String::from_str("http://localhost"),
            disable_login: false,
            enable_admin: false,
            allow_editor: true,
            smtp_server: Some(String::from_str("sendmail")),
            smtp_port: None,
            smtp_username: None,
            smtp_password: None,
            smtp_sender: Some(String::from_str("no_reply@localhost")),
            smtp_invite_subject: Some(String::from_str("Invitation for voting")),
            smtp_reminder_subject: Some(String::from_str("Invitation for voting (reminder)")),
        }
    }

    /// Renders the configuration for the startup log, masking the password.
    pub fn dump(&self) -> (r: String)
        ensures
            r@ == dump_spec(self@),
    {
        let mut s = String::new();
        s.append("baseURL: ");
        s.append(self.base_url.as_str());
        s.append("\ndisableLogin: ");
        s.append(if self.disable_login { "true" } else { "false" });
        s.append("\nenableAdmin: ");
        s.append(if self.enable_admin { "true" } else { "false" });
        s.append("\nallowEditor: ");
        s.append(if self.allow_editor { "true" } else { "false" });
        s.append("\nsmtp: ");
        match &self.smtp_server {
            Some(v) => s.append(v.as_str()),
            None => s.append("sendmail"),
        }
        s.append(" with ");
        match &self.smtp_username {
            Some(v) => s.append(v.as_str()),
            None => s.append("anonymous"),
        }
        s.append(",*** sender: ");
        match &self.smtp_sender {
            Some(v) => s.append(v.as_str()),
            None => s.append("no_reply@<yourhost>"),
        }
        s.append("\nMail subject: invite(");
        match &self.smtp_invite_subject {
            Some(v) => s.append(v.as_str()),
            None => s.append("We need you!"),
        }
        s.append("), remind(");
        match &self.smtp_reminder_subject {
            Some(v) => s.append(v.as_str()),
            None => s.append("We still need you!"),
        }
        s.append(")");
        proof {
            assert(s@ =~= dump_spec(self@));
        }
        s
    }
}

/// The configuration written out as a starting point when none can be read:
/// the defaults with every mail field filled with a placeholder to edit.
pub fn config_template() -> (r: Config)
    ensures
        r@.base_url == "http://localhost"@,
        !r@.disable_login,
        !r@.enable_admin,
        r@.allow_editor,
        r@.smtp_server == Some("sendmail_or_your.smtp.server"@),
        r@.smtp_port == Some(25u16),
        r@.smtp_username == Some("user.name"@),
        r@.smtp_password == Some("super_secret"@),
        r@.smtp_sender == Some("no_reply@localhost"@),
        r@.smtp_invite_subject == Some("We need you!"@),
        r@.smtp_reminder_subject == Some("We still need you!"@),
{
    let mut cfg = Config::new();
    cfg.smtp_server = Some(String::from_str("sendmail_or_your.smtp.server"));
    cfg.smtp_username = Some(String::from_str("user.name"));
    cfg.smtp_port = Some(25);
    cfg.smtp_password = Some(String::from_str("super_secret"));
    cfg.smtp_invite_subject = Some(String::from_str("We need you!"));
    cfg.smtp_reminder_subject = Some(String::from_str("We still need you!"));
    cfg
}

} // verus!
