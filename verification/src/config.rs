//! Startup configuration: where the store's root directory lies.
//!
//! The root may come from a TOML configuration file (its top-level
//! `root` key) or from a fallback path handed in by the caller.  Reading
//! the file from disk is the application's business; the builder works on
//! the file's text.

use vstd::prelude::*;
use vstd::pervasive::unreached;
use vstd::string::*;

verus! {

/// What the `root` key of a TOML document holds, if the text parses and
/// has one.
pub uninterp spec fn toml_root_of(s: Seq<char>) -> Option<Seq<char>>;

/// Relies on toml::from_str::<toml::Value>, toml::Value::get and
/// toml::Value::as_str: yields the top-level `root` string of the
/// document, a function of the text alone.
#[verifier::external_body]
fn toml_root(s: &str) -> (r: Option<String>)
    ensures
        r is Some <==> toml_root_of(s@) is Some,
        r matches Some(v) ==> toml_root_of(s@) == Some(v@),
{
    let value: toml::Value = match toml::from_str(s) {
        Ok(v) => v,
        Err(_) => return None,
    };
    value.get("root").and_then(|v| v.as_str()).map(|v| v.to_owned())
}

/// Gathers the pieces of a [`Config`].
pub struct ConfigBuilder {
    /// The root read from a configuration file, if one parsed.
    pub config_root: Option<String>,
    /// The root chosen for the built configuration.
    pub ccp_root: Option<String>,
}

impl ConfigBuilder {
    /// A builder with nothing gathered yet.
    pub fn new() -> (r: Self)
        ensures
            r.config_root is None,
            r.ccp_root is None,
    {
        Self { config_root: None, ccp_root: None }
    }

    /// Takes the text of a configuration file; a parse failure or a
    /// missing `root` key leaves the builder as it was.
    pub fn config_text(self, text: &str) -> (r: Self)
        ensures
            r.ccp_root == self.ccp_root,
            match toml_root_of(text@) {
                Some(m) => r.config_root matches Some(v) && v@ == m,
                None => r.config_root == self.config_root,
            },
    {
        match toml_root(text) {
            Some(v) => Self { config_root: Some(v), ccp_root: self.ccp_root },
            None => self,
        }
    }

    /// Chooses the root: what the configuration file gave if it did, the
    /// given fallback path otherwise.
    pub fn ccp_root(self, path: &str) -> (r: Self)
        ensures
            r.config_root == self.config_root,
            match self.config_root {
                Some(v) => r.ccp_root matches Some(w) && w@ == v@,
                None => r.ccp_root matches Some(w) && w@ == path@,
            },
    {
        match &self.config_root {
            Some(file) => {
                let chosen = file.clone();
                Self { config_root: self.config_root, ccp_root: Some(chosen) }
            },
            None => Self { config_root: self.config_root, ccp_root: Some(String::from_str(path)) },
        }
    }

    /// Finishes the configuration; a root must have been chosen.
    pub fn build(self) -> (r: Config)
        requires
            self.ccp_root is Some,
        ensures
            r.ccp_root == self.ccp_root.unwrap(),
    {
        match self.ccp_root {
            Some(v) => Config { ccp_root: v },
            None => unreached(),
        }
    }
}

/// The store's configuration: the directory under which everything is
/// kept.
pub struct Config {
    pub ccp_root: String,
}

impl Config {
    /// The configured root directory.
    pub fn ccp_root(&self) -> (r: &str)
        ensures
            r@ == self.ccp_root@,
    {
        self.ccp_root.as_str()
    }
}

} // verus!
