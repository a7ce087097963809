//! The startup parameters a dial forwards to the backend.

use crate::conn_info::ConnInfo;
use vstd::prelude::*;
use vstd::string::StringExecFns;

verus! {

/// The application name the proxy reports to the backend.
pub open spec fn app_name() -> Seq<char> {
    "/sql_over_http"@
}

/// The exec form of [`app_name`].
pub fn app_name_str() -> (r: &'static str)
    ensures
        r@ == app_name(),
{
    "/sql_over_http"
}

/// The startup parameters the dial hands to the backend, in order and with
/// these exact keys: `user`, `database`, `application_name`, `options` (the
/// request's options payload verbatim, empty if absent).
pub fn startup_params(conn_info: &ConnInfo) -> (r: Vec<(String, String)>)
    ensures
        r@.len() == 4,
        r@[0].0@ == "user"@ && r@[0].1@ == conn_info@.username,
        r@[1].0@ == "database"@ && r@[1].1@ == conn_info@.dbname,
        r@[2].0@ == "application_name"@ && r@[2].1@ == app_name(),
        r@[3].0@ == "options"@ && r@[3].1@ == (match conn_info@.options {
            Some(o) => o,
            None => Seq::<char>::empty(),
        }),
{
    let mut v: Vec<(String, String)> = Vec::new();
    v.push((String::from_str("user"), conn_info.username.clone()));
    v.push((String::from_str("database"), conn_info.dbname.clone()));
    v.push((String::from_str("application_name"), String::from_str("/sql_over_http")));
    let opts = match &conn_info.options {
        Some(o) => o.clone(),
        None => String::new(),
    };
    v.push((String::from_str("options"), opts));
    v
}

} // verus!
