use vstd::prelude::*;

verus! {

/// A file system path as its components: the base directory as the
/// environment names it, then one name per level below it.
pub struct HostPath {
    pub components: Vec<String>,
}

impl View for HostPath {
    type V = Seq<Seq<char>>;

    open spec fn view(&self) -> Seq<Seq<char>> {
        self.components@.map_values(|c: String| c@)
    }
}

/// The characters of an optional string.
pub open spec fn optional_text(s: Option<String>) -> Option<Seq<char>> {
    match s {
        Some(v) => Some(v@),
        None => None,
    }
}

/// The directory that holds the host's data: `PROGRAMDATA` where it is set,
/// else `C:\ProgramData`.
pub open spec fn data_root(program_data: Option<Seq<char>>) -> Seq<char> {
    match program_data {
        Some(v) => v,
        None => "C:\\ProgramData"@,
    }
}

/// The path of `name` in the host's directory under the data root.
pub open spec fn host_file(program_data: Option<Seq<char>>, name: Seq<char>) -> Seq<Seq<char>> {
    seq![data_root(program_data), "RVHost"@, name]
}

fn host_path(program_data: Option<String>, name: &str) -> (r: HostPath)
    ensures
        r@ == host_file(optional_text(program_data), name@),
{
    let base = match program_data {
        Some(v) => v,
        None => "C:\\ProgramData".to_owned(),
    };
    let mut components: Vec<String> = Vec::new();
    components.push(base);
    components.push("RVHost".to_owned());
    components.push(name.to_owned());
    let r = HostPath { components };
    assert(r@ =~= host_file(optional_text(program_data), name@));
    r
}

/// The configuration file, `config.json`, given the value of `PROGRAMDATA`.
pub fn config_path(program_data: Option<String>) -> (r: HostPath)
    ensures
        r@ == host_file(optional_text(program_data), "config.json"@),
{
    host_path(program_data, "config.json")
}

/// The stored password hash, `password.hash`, beside the configuration file.
pub fn password_hash_path(program_data: Option<String>) -> (r: HostPath)
    ensures
        r@ == host_file(optional_text(program_data), "password.hash"@),
{
    host_path(program_data, "password.hash")
}

/// The screenshot archive directory, `screenshots`, beside the configuration file.
pub fn directory(program_data: Option<String>) -> (r: HostPath)
    ensures
        r@ == host_file(optional_text(program_data), "screenshots"@),
{
    host_path(program_data, "screenshots")
}

/// The protected archive key, `screenshots.key`, beside the configuration file.
pub fn screenshot_key_path(program_data: Option<String>) -> (r: HostPath)
    ensures
        r@ == host_file(optional_text(program_data), "screenshots.key"@),
{
    host_path(program_data, "screenshots.key")
}

/// The service log, `host.log`, beside the configuration file.
pub fn log_path(program_data: Option<String>) -> (r: HostPath)
    ensures
        r@ == host_file(optional_text(program_data), "host.log"@),
{
    host_path(program_data, "host.log")
}

} // verus!
