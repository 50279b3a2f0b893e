//! Pushing whole cartridges: what each step of an upload needs, decided from
//! the cartridge at hand. The steps themselves (zipping a folder, talking to
//! the sandbox) are carried out by the caller.
use vstd::prelude::*;

use crate::config::ConfigData;

verus! {

/// One step of pushing a cartridge.
#[derive(Debug)]
pub enum Action {
    Zip,
    DeleteZip,
    SendZip,
    DeleteFolder,
    Unzip,
}

/// A cartridge on its way to the sandbox: its local folder, its remote
/// folder and archive, and the archive once made.
#[derive(Clone)]
pub struct Cartridge {
    pub name: String,
    pub local_path: String,
    pub remote_path: String,
    pub remote_zip_path: String,
    pub zip: Option<Vec<u8>>,
}

/// Work to carry out for one action.
#[derive(Debug)]
pub enum Step {
    /// Zip the folder `local_path` under the root name `name`, leaving out
    /// paths that hold one of `ignore_list`; the archive goes back into the
    /// cartridge.
    Zip { local_path: String, name: String, ignore_list: Vec<String> },
    /// Delete this remote path, folder or file.
    Delete(String),
    /// Send `zip` to the remote path `remote_path`.
    Send { zip: Vec<u8>, remote_path: String },
    /// Unpack the remote archive at this path.
    Unzip(String),
}

/// Pushes cartridges to one sandbox, with settings of any kind `C`.
pub struct Uploader<C: ConfigData> {
    pub config: C,
    pub cartridges: Vec<String>,
    pub ignore_list: Vec<String>,
    /// Where the sandbox's cartridges live.
    pub sandbox_url: String,
    pub actions: [Action; 6],
}

/// The answer to any action on a cartridge that was not set up.
pub open spec fn missing_cartridge() -> Seq<char> {
    "Please initialize cartridge upload first! Run 'init_cartridge_upload()'"@
}

/// The answer to sending a cartridge that was not zipped.
pub open spec fn missing_zip() -> Seq<char> {
    "Zip cartridge is empty! It should be zipped first."@
}

/// The sandbox address for a host.
pub open spec fn default_url(host: Seq<char>) -> Seq<char> {
    "https://"@ + host + "/on/demandware.servlet/webdav/Sites/Cartridges"@
}

/// The order in which the actions push a cartridge.
pub open spec fn action_order() -> Seq<Action> {
    seq![
        Action::Zip,
        Action::DeleteZip,
        Action::SendZip,
        Action::DeleteFolder,
        Action::Unzip,
        Action::DeleteZip,
    ]
}

/// A copy of `v`, byte by byte.
fn copy_bytes(v: &Vec<u8>) -> (r: Vec<u8>)
    ensures
        r@ == v@,
{
    let mut out: Vec<u8> = Vec::new();
    let mut i: usize = 0;
    while i < v.len()
        invariant
            i <= v.len(),
            out@ == v@.take(i as int),
        decreases v.len() - i,
    {
        assert(v@.take(i + 1) =~= v@.take(i as int).push(v@[i as int]));
        out.push(v[i]);
        i += 1;
    }
    assert(v@.take(v.len() as int) =~= v@);
    out
}

/// A copy of `v`, element by element.
fn copy_slice(v: &[String]) -> (r: Vec<String>)
    ensures
        r@ == v@,
{
    let mut out: Vec<String> = Vec::new();
    let mut i: usize = 0;
    while i < v.len()
        invariant
            i <= v@.len(),
            out@ == v@.take(i as int),
        decreases v@.len() - i,
    {
        assert(v@.take(i + 1) =~= v@.take(i as int).push(v@[i as int]));
        out.push(v[i].clone());
        i += 1;
    }
    assert(v@.take(v@.len() as int) =~= v@);
    out
}

impl Cartridge {
    pub fn get_name(&self) -> (r: &str)
        ensures
            r@ == self.name@,
    {
        self.name.as_str()
    }

    pub fn get_local_path(&self) -> (r: &str)
        ensures
            r@ == self.local_path@,
    {
        self.local_path.as_str()
    }

    pub fn get_remote_path(&self) -> (r: &str)
        ensures
            r@ == self.remote_path@,
    {
        self.remote_path.as_str()
    }

    pub fn get_remote_zip_path(&self) -> (r: &str)
        ensures
            r@ == self.remote_zip_path@,
    {
        self.remote_zip_path.as_str()
    }

    /// A copy of the archive, once made.
    pub fn get_cartridge_zip(&self) -> (r: Option<Vec<u8>>)
        ensures
            r is Some <==> self.zip is Some,
            r matches Some(z) ==> z@ == self.zip->0@,
    {
        match &self.zip {
            Some(z) => Some(copy_bytes(z)),
            None => None,
        }
    }

    /// Stores the archive of the cartridge.
    pub fn set_cartridge_zip(&mut self, cartridge_zip: Vec<u8>)
        ensures
            final(self).zip == Some(cartridge_zip),
            final(self).name == old(self).name,
            final(self).local_path == old(self).local_path,
            final(self).remote_path == old(self).remote_path,
            final(self).remote_zip_path == old(self).remote_zip_path,
    {
        self.zip = Some(cartridge_zip);
    }
}

impl<C: ConfigData> Uploader<C> {
    /// An uploader for the settings `config`. The cartridges are those the
    /// settings list, or `watched` (the folders found in the cartridge path)
    /// when the list is empty. The sandbox address is `url`, or the WebDAV
    /// cartridge folder of the configured host.
    pub fn new_from_config(config: C, url: Option<String>, watched: Vec<String>) -> (r: Self)
        ensures
            r.config == config,
            r.cartridges@ == if config.cartridges_view().len() == 0 {
                watched@
            } else {
                config.cartridges_view()
            },
            r.ignore_list@ == config.ignore_list_view(),
            r.sandbox_url@ == match url {
                Some(u) => u@,
                None => default_url(config.hostname_view()),
            },
            r.actions@ == action_order(),
    {
        let listed_cartridges = copy_slice(config.get_cartridges());
        let cartridges = if listed_cartridges.len() == 0 {
            watched
        } else {
            listed_cartridges
        };
        let ignore_list = copy_slice(config.get_ignore_list());
        let sandbox_url = match url {
            Some(u) => u,
            None => {
                let mut u = String::from_str("https://");
                u.append(config.get_hostname());
                u.append("/on/demandware.servlet/webdav/Sites/Cartridges");
                u
            },
        };
        let actions = [
            Action::Zip,
            Action::DeleteZip,
            Action::SendZip,
            Action::DeleteFolder,
            Action::Unzip,
            Action::DeleteZip,
        ];
        let r = Uploader { config, cartridges, ignore_list, sandbox_url, actions };
        assert(r.actions@ =~= action_order());
        r
    }

    pub fn get_config(&self) -> (r: &C)
        ensures
            *r == self.config,
    {
        &self.config
    }

    pub fn get_cartridges(&self) -> (r: &Vec<String>)
        ensures
            r@ == self.cartridges@,
    {
        &self.cartridges
    }

    pub fn get_actions(&self) -> (r: &[Action; 6])
        ensures
            r@ == self.actions@,
    {
        &self.actions
    }

    /// The cartridge `cartridge_name`: its local folder below the cartridge
    /// path, its remote folder `/name` and archive `/name.zip`, no archive yet.
    pub fn init_cartridge_upload(&self, cartridge_name: &str) -> (r: Option<Cartridge>)
        ensures
            r matches Some(c) && {
                &&& c.name@ == cartridge_name@
                &&& c.local_path@ == self.config.cartridges_path_view() + seq!['/'] + cartridge_name@
                &&& c.remote_path@ == seq!['/'] + cartridge_name@
                &&& c.remote_zip_path@ == seq!['/'] + cartridge_name@ + seq!['.', 'z', 'i', 'p']
                &&& c.zip is None
            },
    {
        let slash = "/";
        let ext = ".zip";
        proof {
            reveal_strlit("/");
            reveal_strlit(".zip");
        }
        let mut local_path = String::from_str(self.config.get_cartridges_path());
        local_path.append(slash);
        local_path.append(cartridge_name);
        let mut remote_path = String::from_str(slash);
        remote_path.append(cartridge_name);
        let mut remote_zip_path = String::from_str(slash);
        remote_zip_path.append(cartridge_name);
        remote_zip_path.append(ext);
        Some(
            Cartridge {
                name: cartridge_name.to_owned(),
                local_path,
                remote_path,
                remote_zip_path,
                zip: None,
            },
        )
    }

    /// The work that `action` asks for on the cartridge `cartridge_data`:
    /// zip its folder, delete its remote archive or folder, send its archive,
    /// or unpack the remote archive. Fails when there is no cartridge, or when
    /// sending one that was not zipped.
    pub fn push_cartridge(&self, action: &Action, cartridge_data: &Option<Cartridge>) -> (r: Result<
        Step,
        String,
    >)
        ensures
            cartridge_data is None ==> (r matches Err(e) && e@ == missing_cartridge()),
            cartridge_data matches Some(c) ==> match *action {
                Action::Zip => (r matches Ok(Step::Zip { local_path, name, ignore_list }) && {
                    &&& local_path@ == c.local_path@
                    &&& name@ == c.name@
                    &&& ignore_list@ == self.ignore_list@
                }),
                Action::DeleteZip => (r matches Ok(Step::Delete(p)) && p@ == c.remote_zip_path@),
                Action::SendZip => match c.zip {
                    Some(z) => (r matches Ok(Step::Send { zip, remote_path }) && zip@ == z@
                        && remote_path@ == c.remote_zip_path@),
                    None => (r matches Err(e) && e@ == missing_zip()),
                },
                Action::DeleteFolder => (r matches Ok(Step::Delete(p)) && p@ == c.remote_path@),
                Action::Unzip => (r matches Ok(Step::Unzip(p)) && p@ == c.remote_zip_path@),
            },
    {
        let cartridge = match cartridge_data {
            Some(c) => c,
            None => {
                return Err(
                    "Please initialize cartridge upload first! Run 'init_cartridge_upload()'".to_owned(),
                );
            },
        };
        match action {
            Action::Zip => Ok(
                Step::Zip {
                    local_path: cartridge.local_path.clone(),
                    name: cartridge.name.clone(),
                    ignore_list: copy_slice(self.ignore_list.as_slice()),
                },
            ),
            Action::DeleteZip => Ok(Step::Delete(cartridge.remote_zip_path.clone())),
            Action::SendZip => match cartridge.get_cartridge_zip() {
                Some(zip) => Ok(Step::Send { zip, remote_path: cartridge.remote_zip_path.clone() }),
                None => Err("Zip cartridge is empty! It should be zipped first.".to_owned()),
            },
            Action::DeleteFolder => Ok(Step::Delete(cartridge.remote_path.clone())),
            Action::Unzip => Ok(Step::Unzip(cartridge.remote_zip_path.clone())),
        }
    }
}

} // verus!
