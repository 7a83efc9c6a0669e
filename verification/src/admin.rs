//! Admin HTTP server settings and the messages of its error paths.

use vstd::prelude::*;
use crate::text::{chars_of, concat, decimal, decimal_chars, string_of};

verus! {

/// Default admin listen port (loopback and tunnel).
pub const DEFAULT_ADMIN_PORT: u16 = 45819;

/// Header carrying the Cloudflare Access JWT forwarded by the tunnel edge.
pub const CF_ACCESS_JWT_HEADER: &'static str = "CF-Access-Jwt-Assertion";

/// Admin HTTP server configuration.
#[derive(Debug, Clone)]
pub struct AdminConfig {
    /// Host to bind to.
    pub host: String,
    /// Port to listen on.
    pub port: u16,
    /// Require and validate the Cloudflare Access JWT.
    pub trust_cf_access: bool,
    /// Cloudflare team domain for JWT certificate validation.
    pub cf_team_domain: Option<String>,
}

pub open spec fn loopback_host() -> Seq<char> {
    seq!['1', '2', '7', '.', '0', '.', '0', '.', '1']
}

impl Default for AdminConfig {
    /// Loopback on the default port, no Cloudflare Access.
    fn default() -> (c: Self)
        ensures
            c.host@ == loopback_host(),
            c.port == DEFAULT_ADMIN_PORT,
            !c.trust_cf_access,
            c.cf_team_domain is None,
    {
        let host: Vec<char> = vec!['1', '2', '7', '.', '0', '.', '0', '.', '1'];
        assert(host@ =~= loopback_host());
        AdminConfig { host: string_of(&host), port: DEFAULT_ADMIN_PORT, trust_cf_access: false, cf_team_domain: None }
    }
}

impl AdminConfig {
    /// Socket address to bind: `host:port`.
    pub fn bind_addr(&self) -> (r: String)
        ensures
            r@ == self.host@ + seq![':'] + decimal(self.port as nat),
    {
        let mut head = chars_of(self.host.as_str());
        head.push(':');
        let r = concat(&head, &decimal_chars(self.port as u64));
        string_of(&r)
    }
}

/// Why a Cloudflare Access JWT was refused.
#[derive(Debug, Clone)]
pub enum CfAccessError {
    /// The JWT header or signature could not be parsed or verified.
    InvalidJwt(String),
    /// No decoding key matches the token's key id.
    UnknownKeyId(String),
    /// Certificate fetch or configuration error.
    Config(String),
}

pub open spec fn lit_invalid_jwt() -> Seq<char> {
    seq!['i', 'n', 'v', 'a', 'l', 'i', 'd', ' ', 'J', 'W', 'T', ':', ' ']
}

pub open spec fn lit_unknown_key_id() -> Seq<char> {
    seq!['u', 'n', 'k', 'n', 'o', 'w', 'n', ' ', 'k', 'e', 'y', ' ', 'i', 'd', ':', ' ']
}

impl CfAccessError {
    /// The error's message: `invalid JWT: <detail>`, `unknown key id:
    /// <kid>`, or the configuration message itself.
    pub fn message(&self) -> (r: String)
        ensures
            r@ == match self {
                CfAccessError::InvalidJwt(d) => lit_invalid_jwt() + d@,
                CfAccessError::UnknownKeyId(k) => lit_unknown_key_id() + k@,
                CfAccessError::Config(m) => m@,
            },
    {
        match self {
            CfAccessError::InvalidJwt(d) => {
                let p: Vec<char> = vec!['i', 'n', 'v', 'a', 'l', 'i', 'd', ' ', 'J', 'W', 'T', ':', ' '];
                assert(p@ =~= lit_invalid_jwt());
                string_of(&concat(&p, &chars_of(d.as_str())))
            },
            CfAccessError::UnknownKeyId(k) => {
                let p: Vec<char> = vec!['u', 'n', 'k', 'n', 'o', 'w', 'n', ' ', 'k', 'e', 'y', ' ', 'i', 'd', ':', ' '];
                assert(p@ =~= lit_unknown_key_id());
                string_of(&concat(&p, &chars_of(k.as_str())))
            },
            CfAccessError::Config(m) => string_of(&chars_of(m.as_str())),
        }
    }
}

/// The HTTP error message of a bridge failure: the failure's own text, so
/// sentinels such as `PORT_IN_USE:<port>:<source>` reach the client intact.
pub fn format_bridge_error_message(message: &str) -> (r: String)
    ensures
        r@ == message@,
{
    message.to_owned()
}

pub open spec fn lit_gateway_not_running() -> Seq<char> {
    seq!['G', 'a', 't', 'e', 'w', 'a', 'y', ' ', 'n', 'o', 't', ' ', 'r', 'u', 'n', 'n', 'i', 'n', 'g']
}

/// Error text of write operations that need a running gateway.
pub fn gateway_not_running() -> (r: String)
    ensures
        r@ == lit_gateway_not_running(),
{
    let m: Vec<char> = vec!['G', 'a', 't', 'e', 'w', 'a', 'y', ' ', 'n', 'o', 't', ' ', 'r', 'u', 'n', 'n', 'i', 'n', 'g'];
    assert(m@ =~= lit_gateway_not_running());
    string_of(&m)
}

pub open spec fn lit_port_prefix() -> Seq<char> {
    seq!['P', 'o', 'r', 't', ' ']
}

pub open spec fn lit_privileged_suffix() -> Seq<char> {
    seq![
        ' ', 'i', 's', ' ', 'i', 'n', ' ', 't', 'h', 'e', ' ', 'p', 'r', 'i', 'v', 'i', 'l', 'e', 'g', 'e', 'd', ' ',
        'r', 'a', 'n', 'g', 'e', ' ', '(', '≤', ' ', '1', '0', '2', '3', ')', '.', ' ', 'C', 'h', 'o', 'o', 's', 'e',
        ' ', 'a', ' ', 'p', 'o', 'r', 't', ' ', 'b', 'e', 't', 'w', 'e', 'e', 'n', ' ', '1', '0', '2', '4', ' ', 'a',
        'n', 'd', ' ', '6', '5', '5', '3', '5', '.'
    ]
}

/// Accept a gateway port outside the privileged range; a port below 1024 is
/// refused with a message naming it.
pub fn check_gateway_port(port: u16) -> (r: Result<u16, String>)
    ensures
        port >= 1024 ==> r == Ok::<u16, String>(port),
        port < 1024 ==> (r matches Err(m) && m@ == lit_port_prefix() + decimal(port as nat) + lit_privileged_suffix()),
{
    if port >= 1024 {
        return Ok(port);
    }
    let p: Vec<char> = vec!['P', 'o', 'r', 't', ' '];
    assert(p@ =~= lit_port_prefix());
    let s: Vec<char> = vec![
        ' ', 'i', 's', ' ', 'i', 'n', ' ', 't', 'h', 'e', ' ', 'p', 'r', 'i', 'v', 'i', 'l', 'e', 'g', 'e', 'd', ' ',
        'r', 'a', 'n', 'g', 'e', ' ', '(', '≤', ' ', '1', '0', '2', '3', ')', '.', ' ', 'C', 'h', 'o', 'o', 's', 'e',
        ' ', 'a', ' ', 'p', 'o', 'r', 't', ' ', 'b', 'e', 't', 'w', 'e', 'e', 'n', ' ', '1', '0', '2', '4', ' ', 'a',
        'n', 'd', ' ', '6', '5', '5', '3', '5', '.'
    ];
    assert(s@ =~= lit_privileged_suffix());
    let head = concat(&p, &decimal_chars(port as u64));
    Err(string_of(&concat(&head, &s)))
}

/// A workspace binding as the desktop UI shows it.
#[derive(Debug, Clone)]
pub struct WorkspaceBindingDto {
    pub id: String,
    pub space_id: String,
    pub workspace_root: String,
    pub feature_set_id: String,
    pub created_at: String,
    pub updated_at: String,
}

} // verus!
