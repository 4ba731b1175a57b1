//! Where the engine keeps its own files, and the server's addresses.
use vstd::prelude::*;
use crate::exclude::ExcludeChecker;
use crate::paths::{fix_host, fix_root, fixed_root, without_last_slash};

verus! {

pub const NC_ROOT_PREFIX: &'static str = "/remote.php/dav/files/";

pub const OCS_ROOT: &'static str = "/ocs/v2.php/apps/activity/api/v2/activity/all";

/// The account on the server.
#[derive(Debug, Clone)]
pub struct NCInfo {
    pub username: String,
    pub password: String,
    pub host: String,
    pub root_path: String,
}

impl NCInfo {
    /// The account, with the host's last slash dropped and the WebDAV root
    /// of the user as root path.
    pub fn new(username: String, password: String, host: String) -> (r: NCInfo)
        ensures
            r.username@ == username@,
            r.password@ == password@,
            r.host@ == without_last_slash(host@),
            r.root_path@ == fixed_root(NC_ROOT_PREFIX@ + username@),
    {
        let host = fix_host(host.as_str());
        let prefix = String::from_str(NC_ROOT_PREFIX);
        let root_path = prefix.concat(username.as_str());
        let root_path = fix_root(root_path.as_str());
        NCInfo { username, password, host, root_path }
    }
}

/// The local side: the root directory, the exclude filter and the name of
/// today's log file.
#[derive(Debug)]
pub struct LocalInfo {
    pub root_path: String,
    pub exc_checker: ExcludeChecker,
    pub log_file_name: String,
}

pub open spec fn metadir_of(root: Seq<char>) -> Seq<char> {
    root + "/.ncs/"@
}

fn join2(a: &str, b: &str) -> (r: String)
    ensures
        r@ == a@ + b@,
{
    let s = a.to_owned();
    s.concat(b)
}

impl LocalInfo {
    /// `root_path` loses a last slash; `date` (as `YYYYMMDD`) names the log file.
    pub fn new(root_path: String, exc_checker: ExcludeChecker, date: &str) -> (r: LocalInfo)
        ensures
            r.root_path@ == without_last_slash(root_path@),
            r.exc_checker == exc_checker,
            r.log_file_name@ == date@ + ".log"@,
    {
        let root_path = crate::paths::drop_slash(root_path.as_str(), crate::paths::SlashSide::Last);
        let log_file_name = join2(date, ".log");
        LocalInfo { root_path, exc_checker, log_file_name }
    }

    pub fn get_metadir_name(&self) -> (r: String)
        ensures
            r@ == metadir_of(self.root_path@),
    {
        Self::get_metadir_name_raw(self.root_path.as_str())
    }

    pub fn get_cachefile_name(&self) -> (r: String)
        ensures
            r@ == metadir_of(self.root_path@) + "cache.json"@,
    {
        join2(self.get_metadir_name().as_str(), "cache.json")
    }

    pub fn get_excludefile_name(&self) -> (r: String)
        ensures
            r@ == metadir_of(self.root_path@) + "excludes.json"@,
    {
        join2(self.get_metadir_name().as_str(), "excludes.json")
    }

    pub fn get_stashpath_name(&self) -> (r: String)
        ensures
            r@ == metadir_of(self.root_path@) + "stash"@,
    {
        join2(self.get_metadir_name().as_str(), "stash")
    }

    pub fn get_logfile_name(&self) -> (r: String)
        ensures
            r@ == metadir_of(self.root_path@) + "log/"@ + self.log_file_name@,
    {
        let d = join2(self.get_metadir_name().as_str(), "log/");
        join2(d.as_str(), self.log_file_name.as_str())
    }

    pub fn get_keepalive_filename(&self) -> (r: String)
        ensures
            r@ == metadir_of(self.root_path@) + ".keepalive.txt"@,
    {
        join2(self.get_metadir_name().as_str(), ".keepalive.txt")
    }

    /// The auto-stash directory of a day, `date` as `YYYYMMDD`.
    pub fn get_autostashpath_name_with_date(&self, date: &str) -> (r: String)
        ensures
            r@ == metadir_of(self.root_path@) + date@,
    {
        join2(self.get_metadir_name().as_str(), date)
    }

    pub fn get_metadir_name_raw(root_path: &str) -> (r: String)
        ensures
            r@ == metadir_of(root_path@),
    {
        join2(root_path, "/.ncs/")
    }

    pub fn get_cachefile_name_raw(root_path: &str) -> (r: String)
        ensures
            r@ == metadir_of(root_path@) + "cache.json"@,
    {
        join2(Self::get_metadir_name_raw(root_path).as_str(), "cache.json")
    }

    pub fn get_excludefile_name_raw(root_path: &str) -> (r: String)
        ensures
            r@ == metadir_of(root_path@) + "excludes.json"@,
    {
        join2(Self::get_metadir_name_raw(root_path).as_str(), "excludes.json")
    }
}

/// The contents of the exclude file.
#[derive(Debug)]
pub struct JsonExcludeList {
    pub blacks: Vec<String>,
    pub whites: Vec<String>,
}

impl JsonExcludeList {
    pub fn new() -> (r: JsonExcludeList)
        ensures
            r.blacks@.len() == 0,
            r.whites@.len() == 0,
    {
        JsonExcludeList { blacks: Vec::new(), whites: Vec::new() }
    }

    /// The filter these lists describe.
    pub fn checker(&self) -> (r: ExcludeChecker)
        ensures
            r.black_sources() == crate::exclude::compiled_sources(crate::paths::views(self.blacks@)),
            r.white_sources() == crate::exclude::compiled_sources(crate::paths::views(self.whites@)),
    {
        ExcludeChecker::new(&self.blacks, &self.whites)
    }
}

} // verus!
