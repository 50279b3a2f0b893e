//! Connection settings behind a trait, so that callers may bring their own.
use vstd::prelude::*;

use crate::text::listed;

verus! {

/// What an uploader needs to know of its settings.
pub trait ConfigData {
    spec fn cartridges_path_view(&self) -> Seq<char>;

    spec fn hostname_view(&self) -> Seq<char>;

    spec fn username_view(&self) -> Seq<char>;

    spec fn password_view(&self) -> Seq<char>;

    spec fn code_version_view(&self) -> Seq<char>;

    spec fn cartridges_view(&self) -> Seq<String>;

    spec fn ignore_list_view(&self) -> Seq<String>;

    fn get_cartridges_path(&self) -> (r: &str)
        ensures
            r@ == self.cartridges_path_view(),
    ;

    fn get_hostname(&self) -> (r: &str)
        ensures
            r@ == self.hostname_view(),
    ;

    fn get_username(&self) -> (r: &str)
        ensures
            r@ == self.username_view(),
    ;

    fn get_password(&self) -> (r: &str)
        ensures
            r@ == self.password_view(),
    ;

    fn get_code_version(&self) -> (r: &str)
        ensures
            r@ == self.code_version_view(),
    ;

    fn get_cartridges(&self) -> (r: &[String])
        ensures
            r@ == self.cartridges_view(),
    ;

    fn get_ignore_list(&self) -> (r: &[String])
        ensures
            r@ == self.ignore_list_view(),
    ;
}

/// Host, credentials, local cartridge folder, cartridge and ignore lists, and
/// the code version to push to.
#[derive(Debug, Clone)]
pub struct Config {
    pub hostname: String,
    pub username: String,
    pub password: String,
    pub cartridges_path: String,
    pub cartridges: Option<Vec<String>>,
    pub ignore_list: Option<Vec<String>>,
    pub code_version: String,
}

impl ConfigData for Config {
    open spec fn cartridges_path_view(&self) -> Seq<char> {
        self.cartridges_path@
    }

    open spec fn hostname_view(&self) -> Seq<char> {
        self.hostname@
    }

    open spec fn username_view(&self) -> Seq<char> {
        self.username@
    }

    open spec fn password_view(&self) -> Seq<char> {
        self.password@
    }

    open spec fn code_version_view(&self) -> Seq<char> {
        self.code_version@
    }

    open spec fn cartridges_view(&self) -> Seq<String> {
        listed(self.cartridges)
    }

    open spec fn ignore_list_view(&self) -> Seq<String> {
        listed(self.ignore_list)
    }

    fn get_cartridges_path(&self) -> (r: &str) {
        self.cartridges_path.as_str()
    }

    fn get_hostname(&self) -> (r: &str) {
        self.hostname.as_str()
    }

    fn get_username(&self) -> (r: &str) {
        self.username.as_str()
    }

    fn get_password(&self) -> (r: &str) {
        self.password.as_str()
    }

    fn get_code_version(&self) -> (r: &str) {
        self.code_version.as_str()
    }

    fn get_cartridges(&self) -> (r: &[String]) {
        match &self.cartridges {
            Some(v) => v.as_slice(),
            None => &[],
        }
    }

    fn get_ignore_list(&self) -> (r: &[String]) {
        match &self.ignore_list {
            Some(v) => v.as_slice(),
            None => &[],
        }
    }
}

} // verus!
