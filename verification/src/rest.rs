//! Configuration and method naming for the HTTP capability provider.
//!
//! The provider itself performs network transfer and lives outside the
//! library; what the library owns is the validation of its configuration
//! and the rendering and recognition of HTTP method names.

use vstd::prelude::*;
use crate::PluginError;

verus! {

/// An HTTP request method.
#[derive(Debug, Clone, Copy, PartialEq, Eq, Structural)]
pub enum HttpMethod {
    GET,
    POST,
    PUT,
    DELETE,
    PATCH,
    HEAD,
    OPTIONS,
}

impl HttpMethod {
    /// The upper-case name of the method.
    pub open spec fn spec_render(self) -> Seq<char> {
        match self {
            HttpMethod::GET => "GET"@,
            HttpMethod::POST => "POST"@,
            HttpMethod::PUT => "PUT"@,
            HttpMethod::DELETE => "DELETE"@,
            HttpMethod::PATCH => "PATCH"@,
            HttpMethod::HEAD => "HEAD"@,
            HttpMethod::OPTIONS => "OPTIONS"@,
        }
    }

    /// Render the method name as text.
    pub fn render(&self) -> (r: String)
        ensures
            r@ == self.spec_render(),
    {
        match self {
            HttpMethod::GET => String::from_str("GET"),
            HttpMethod::POST => String::from_str("POST"),
            HttpMethod::PUT => String::from_str("PUT"),
            HttpMethod::DELETE => String::from_str("DELETE"),
            HttpMethod::PATCH => String::from_str("PATCH"),
            HttpMethod::HEAD => String::from_str("HEAD"),
            HttpMethod::OPTIONS => String::from_str("OPTIONS"),
        }
    }
}

/// Configuration of the HTTP capability provider.
#[derive(Debug)]
pub struct RestConfig {
    pub name: String,
    pub base_url: String,
    pub default_headers: Vec<(String, String)>,
    pub timeout_seconds: u64,
    pub max_redirects: u32,
    pub verify_ssl: bool,
    pub auth_token: Option<String>,
    pub user_agent: String,
}

/// Whether one character sequence starts with another.
pub open spec fn starts_with(s: Seq<char>, prefix: Seq<char>) -> bool {
    s.len() >= prefix.len() && s.subrange(0, prefix.len() as int) == prefix
}

/// Whether a configuration is acceptable: non-empty name, a base address
/// that names an `http` or `https` scheme, and a positive timeout.
pub open spec fn spec_config_ok(c: RestConfig) -> bool {
    &&& c.name@.len() > 0
    &&& c.base_url@.len() > 0
    &&& (starts_with(c.base_url@, "http://"@) || starts_with(c.base_url@, "https://"@))
    &&& c.timeout_seconds > 0
}

impl RestConfig {
    /// Validate the configuration: refused exactly when the name or base
    /// address is empty, the address names no `http` or `https` scheme, or
    /// the timeout is zero.
    pub fn validate(&self) -> (r: Result<(), PluginError>)
        ensures
            r is Ok <==> spec_config_ok(*self),
            r matches Err(e) ==> e is InvalidConfiguration,
    {
        proof {
            reveal_strlit("name cannot be empty");
            reveal_strlit("base_url cannot be empty");
            reveal_strlit("base_url must start with http:// or https://");
            reveal_strlit("timeout_seconds must be greater than 0");
        }
        if self.name.as_str().is_empty() {
            return Err(
                PluginError::InvalidConfiguration(String::from_str("name cannot be empty")),
            );
        }
        if self.base_url.as_str().is_empty() {
            return Err(
                PluginError::InvalidConfiguration(String::from_str("base_url cannot be empty")),
            );
        }
        if !text_starts_with(&self.base_url, "http://") && !text_starts_with(
            &self.base_url,
            "https://",
        ) {
            return Err(
                PluginError::InvalidConfiguration(
                    String::from_str("base_url must start with http:// or https://"),
                ),
            );
        }
        if self.timeout_seconds == 0 {
            return Err(
                PluginError::InvalidConfiguration(
                    String::from_str("timeout_seconds must be greater than 0"),
                ),
            );
        }
        Ok(())
    }

    /// The provider name this configuration carries.
    pub fn plugin_name(&self) -> (r: &String)
        ensures
            r == self.name,
    {
        &self.name
    }
}

impl Default for RestConfig {
    /// A representative default configuration.
    fn default() -> (r: RestConfig)
        ensures
            r.name@ == "rest"@,
            r.base_url@ == "https://api.example.com"@,
            r.timeout_seconds == 30,
            r.max_redirects == 5,
            r.verify_ssl,
            r.auth_token is None,
            r.user_agent@ == "SIGMOS-REST-Plugin/1.0"@,
            r.default_headers@.len() == 2,
            r.default_headers@[0].0@ == "Content-Type"@,
            r.default_headers@[0].1@ == "application/json"@,
            r.default_headers@[1].0@ == "Accept"@,
            r.default_headers@[1].1@ == "application/json"@,
    {
        let mut default_headers: Vec<(String, String)> = Vec::new();
        default_headers.push(
            (String::from_str("Content-Type"), String::from_str("application/json")),
        );
        default_headers.push((String::from_str("Accept"), String::from_str("application/json")));
        RestConfig {
            name: String::from_str("rest"),
            base_url: String::from_str("https://api.example.com"),
            default_headers,
            timeout_seconds: 30,
            max_redirects: 5,
            verify_ssl: true,
            auth_token: None,
            user_agent: String::from_str("SIGMOS-REST-Plugin/1.0"),
        }
    }
}

/// Whether the text starts with the given prefix.
fn text_starts_with(s: &String, prefix: &str) -> (r: bool)
    ensures
        r == starts_with(s@, prefix@),
{
    let sc = crate::text::str_to_chars(s.as_str());
    let pc = crate::text::str_to_chars(prefix);
    if sc.len() < pc.len() {
        return false;
    }
    let mut i: usize = 0;
    while i < pc.len()
        invariant
            i <= pc.len() <= sc.len(),
            sc@ == s@,
            pc@ == prefix@,
            forall|j: int| 0 <= j < i as int ==> s@[j] == prefix@[j],
        decreases pc.len() - i,
    {
        if sc[i] != pc[i] {
            proof {
                assert(s@.subrange(0, prefix@.len() as int)[i as int] != prefix@[i as int]);
            }
            return false;
        }
        i = i + 1;
    }
    proof {
        assert(s@.subrange(0, prefix@.len() as int) =~= prefix@);
    }
    true
}

} // verus!
