//! Configuration as the core consumes it, and the decisions made on it:
//! which authentication to use, what timeout governs the updater, how the
//! notification endpoint is addressed, and a rendering that never shows the
//! credentials.

use vstd::prelude::*;
use vstd::string::StrSliceExecFns;
use vstd::string::StringExecFns;

use crate::errors::CoreError;
use crate::text::dec_str_spec;
use crate::text::u64_to_dec_string;

verus! {

/// The node connection settings.
pub struct BitcoindClient {
    /// When set, authenticate via this cookie file; takes precedence over
    /// user and password.
    pub cookie_auth_path: Option<String>,
    /// The node's RPC host or address.
    pub ip_addr: String,
    pub user: Option<String>,
    pub passwd: Option<String>,
    /// The port of the node's sequence-notification endpoint.
    pub zmq_port: u16,
    /// The longest inter-event silence the updater tolerates, in seconds.
    pub wait_timeout_sec: Option<u64>,
}

/// Everything the process is configured with.
pub struct Settings {
    pub bitcoind_client: BitcoindClient,
}

/// How to authenticate against the node.
pub enum RpcAuth {
    Cookie { path: String },
    UserPass { user: String, passwd: String },
}

/// Choose the authentication: the cookie path whenever one is configured,
/// the user and password when both are there, and a configuration error
/// otherwise.
pub fn auth_choice(c: &BitcoindClient) -> (r: Result<RpcAuth, CoreError>)
    ensures
        c.cookie_auth_path matches Some(p) ==> (r matches Ok(RpcAuth::Cookie { path }) && path@
            == p@),
        c.cookie_auth_path is None && c.user is Some && c.passwd is Some ==> (r matches Ok(
            RpcAuth::UserPass { user, passwd },
        ) && user@ == c.user.unwrap()@ && passwd@ == c.passwd.unwrap()@),
        r is Err <==> (c.cookie_auth_path is None && (c.user is None || c.passwd is None)),
        r matches Err(e) ==> e == CoreError::Config,
{
    match &c.cookie_auth_path {
        Some(path) => Ok(RpcAuth::Cookie { path: path.clone() }),
        None => match (&c.user, &c.passwd) {
            (Some(user), Some(passwd)) => Ok(
                RpcAuth::UserPass { user: user.clone(), passwd: passwd.clone() },
            ),
            _ => Err(CoreError::Config),
        },
    }
}

/// The updater's receive timeout: what is configured, or sixty seconds.
pub fn effective_wait_timeout_sec(c: &BitcoindClient) -> (t: u64)
    ensures
        t == match c.wait_timeout_sec {
            Some(v) => v,
            None => 60u64,
        },
{
    match c.wait_timeout_sec {
        Some(v) => v,
        None => 60,
    }
}

/// The address of the node's sequence-notification endpoint.
pub open spec fn zmq_url_spec(ip: Seq<char>, port: u16) -> Seq<char> {
    "tcp://"@ + ip + ":"@ + dec_str_spec(port as nat)
}

/// Render the notification endpoint's address from the configured host and
/// port.
pub fn zmq_url_string(ip: &String, port: u16) -> (r: String)
    ensures
        r@ == zmq_url_spec(ip@, port),
{
    let mut r = String::from_str("tcp://");
    r.append(ip.as_str());
    r.append(":");
    let p = u64_to_dec_string(port as u64);
    r.append(p.as_str());
    proof {
        assert(r@ =~= zmq_url_spec(ip@, port));
    }
    r
}

/// What the settings look like in a log: every field in the clear but the
/// user and the password, which are starred out.
pub open spec fn redacted_config_spec(c: BitcoindClient) -> Seq<char> {
    "BitcoindClient { cookie_auth_path: "@ + (match c.cookie_auth_path {
        Some(p) => "Some(\""@ + p@ + "\")"@,
        None => "None"@,
    }) + ", ip_addr: \""@ + c.ip_addr@ + "\", user: \"****\", passwd: \"****\", zmqport: \""@
        + dec_str_spec(c.zmq_port as nat) + "\", wait_timeout_sec: "@ + (match c.wait_timeout_sec {
        Some(v) => "Some("@ + dec_str_spec(v as nat) + ")"@,
        None => "None"@,
    }) + " }"@
}

/// The log rendering of the settings, credentials starred out.
pub fn redacted_config(c: &BitcoindClient) -> (r: String)
    ensures
        r@ == redacted_config_spec(*c),
{
    let mut r = String::from_str("BitcoindClient { cookie_auth_path: ");
    match &c.cookie_auth_path {
        Some(p) => {
            r.append("Some(\"");
            r.append(p.as_str());
            r.append("\")");
        },
        None => {
            r.append("None");
        },
    }
    r.append(", ip_addr: \"");
    r.append(c.ip_addr.as_str());
    r.append("\", user: \"****\", passwd: \"****\", zmqport: \"");
    let port = u64_to_dec_string(c.zmq_port as u64);
    r.append(port.as_str());
    r.append("\", wait_timeout_sec: ");
    match c.wait_timeout_sec {
        Some(v) => {
            r.append("Some(");
            let t = u64_to_dec_string(v);
            r.append(t.as_str());
            r.append(")");
        },
        None => {
            r.append("None");
        },
    }
    r.append(" }");
    proof {
        assert(r@ =~= redacted_config_spec(*c));
    }
    r
}

} // verus!
