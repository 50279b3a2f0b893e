//! Connection settings of a sandbox, with getters that hand out copies.
use vstd::prelude::*;

use crate::text::{copy_strings, listed};

verus! {

/// Host, credentials, local cartridge folder, cartridge and ignore lists, and
/// the code version to push to.
#[derive(Debug, Clone)]
pub struct Config {
    pub hostname: String,
    pub username: String,
    pub password: String,
    pub cartridges_path: String,
    pub cartridges: Option<Vec<String>>,
    pub ignore_list: Option<Vec<String>>,
    pub code_version: String,
}

impl Config {
    pub fn get_cartridges_path(&self) -> (r: String)
        ensures
            r@ == self.cartridges_path@,
    {
        self.cartridges_path.clone()
    }

    pub fn get_hostname(&self) -> (r: String)
        ensures
            r@ == self.hostname@,
    {
        self.hostname.clone()
    }

    pub fn get_username(&self) -> (r: String)
        ensures
            r@ == self.username@,
    {
        self.username.clone()
    }

    pub fn get_password(&self) -> (r: String)
        ensures
            r@ == self.password@,
    {
        self.password.clone()
    }

    pub fn get_code_version(&self) -> (r: String)
        ensures
            r@ == self.code_version@,
    {
        self.code_version.clone()
    }

    /// The cartridges listed; none when the list is absent.
    pub fn get_cartridges(&self) -> (r: Vec<String>)
        ensures
            r@ == listed(self.cartridges),
    {
        match &self.cartridges {
            Some(v) => copy_strings(v),
            None => Vec::new(),
        }
    }

    /// The ignored path tokens; none when the list is absent.
    pub fn get_ignore_list(&self) -> (r: Vec<String>)
        ensures
            r@ == listed(self.ignore_list),
    {
        match &self.ignore_list {
            Some(v) => copy_strings(v),
            None => Vec::new(),
        }
    }
}

} // verus!
