//! The request-scoped description of the connection a caller wants.

use vstd::prelude::*;
use vstd::string::StringExecFns;

verus! {

/// What a request asks to connect to: the endpoint hostname, the database and
/// user within it, the password, and an optional options payload forwarded
/// verbatim to the backend.
#[derive(Debug)]
pub struct ConnInfo {
    pub username: String,
    pub dbname: String,
    pub hostname: String,
    pub password: String,
    pub options: Option<String>,
}

/// The mathematical content of a [`ConnInfo`].
pub struct ConnInfoView {
    pub username: Seq<char>,
    pub dbname: Seq<char>,
    pub hostname: Seq<char>,
    pub password: Seq<char>,
    pub options: Option<Seq<char>>,
}

impl View for ConnInfo {
    type V = ConnInfoView;

    open spec fn view(&self) -> ConnInfoView {
        ConnInfoView {
            username: self.username@,
            dbname: self.dbname@,
            hostname: self.hostname@,
            password: self.password@,
            options: match self.options {
                Some(s) => Some(s@),
                None => None,
            },
        }
    }
}

/// The rendering used whenever a `ConnInfo` appears in a log line:
/// `username@hostname/dbname`.  By construction it reads neither the password
/// nor the options.
pub open spec fn display_of(c: ConnInfoView) -> Seq<char> {
    c.username + "@"@ + c.hostname + "/"@ + c.dbname
}

impl ConnInfo {
    /// The key under which connections for this request are pooled within an
    /// endpoint.
    pub fn db_and_user(&self) -> (r: (String, String))
        ensures
            r.0@ == self@.dbname,
            r.1@ == self@.username,
    {
        (self.dbname.clone(), self.username.clone())
    }

    /// A field-for-field copy.
    pub fn duplicate(&self) -> (r: ConnInfo)
        ensures
            r@ == self@,
    {
        let r = ConnInfo {
            username: self.username.clone(),
            dbname: self.dbname.clone(),
            hostname: self.hostname.clone(),
            password: self.password.clone(),
            options: match &self.options {
                Some(s) => Some(s.clone()),
                None => None,
            },
        };
        proof {
            assert(r@ == self@);
        }
        r
    }

    /// The log rendering `username@hostname/dbname`; the password must never
    /// appear in a log, so this is used in place of a `Display` impl.
    pub fn display_str(&self) -> (r: String)
        ensures
            r@ == display_of(self@),
    {
        let mut s = String::new();
        s.append(self.username.as_str());
        s.append("@");
        s.append(self.hostname.as_str());
        s.append("/");
        s.append(self.dbname.as_str());
        proof {
            assert(s@ =~= display_of(self@));
        }
        s
    }
}

/// LAW: the log rendering of a `ConnInfo` is a function of the username,
/// hostname and dbname alone.  Two requests that differ only in password (or
/// options) render identically, so the rendering cannot carry any information
/// about the password.
pub proof fn lemma_display_reads_no_password(a: ConnInfoView, b: ConnInfoView)
    requires
        a.username == b.username,
        a.hostname == b.hostname,
        a.dbname == b.dbname,
    ensures
        display_of(a) == display_of(b),
{
}

} // verus!
