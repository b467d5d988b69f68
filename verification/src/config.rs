//! The configuration file of the first desktop shell: where it lives, what a
//! fresh one holds, and the library records it lists.

use vstd::prelude::*;

verus! {

/// A library the shell knows: its name and folder.
pub struct LibraryLocation {
    pub name: String,
    pub path: String,
}

/// The configuration file's content.
pub struct Config {
    pub default_lib: Option<String>,
    pub lib_locations: Vec<LibraryLocation>,
}

pub enum LibFormat {
    Unset,
    Movie,
    TV,
    Music,
}

pub enum LibIndex {
    Simple,
    Nested,
}

/// The new-library form.
pub struct NewLibForm {
    pub name: String,
    pub path: String,
    pub format: LibFormat,
    pub indexing: LibIndex,
    pub metadata: bool,
    pub portable: bool,
}

pub struct Library {
    pub name: String,
    pub format: LibFormat,
    pub indexing: LibIndex,
}

/// The desktop platforms the shell runs on.
pub enum Platform {
    Windows,
    MacOs,
}

/// Where the configuration folder lies under the home directory.
pub open spec fn relative_cfg_spec(platform: Platform) -> Seq<Seq<char>> {
    match platform {
        Platform::Windows => seq!["AppData"@, "Local"@, "Waverunner"@],
        Platform::MacOs => seq!["Library"@, "Application Support"@, "Waverunner"@],
    }
}

pub fn get_relative_cfg_path(platform: Platform) -> (r: Vec<&'static str>)
    ensures
        r@.map_values(|s: &str| s@) == relative_cfg_spec(platform),
{
    let mut v: Vec<&'static str> = Vec::new();
    match platform {
        Platform::Windows => {
            v.push("AppData");
            v.push("Local");
            v.push("Waverunner");
        },
        Platform::MacOs => {
            v.push("Library");
            v.push("Application Support");
            v.push("Waverunner");
        },
    }
    assert(v@.map_values(|s: &str| s@) =~= relative_cfg_spec(platform));
    v
}

/// The configuration folder as path components: the home directory, then
/// the platform's chain. Without a home directory there is none.
pub fn get_cfg_path(home: Option<String>, platform: Platform) -> (r: Result<Vec<String>, &'static str>)
    ensures
        match home {
            None => r matches Err(e) && e@ == "Failed to locate home directory."@,
            Some(h) => r matches Ok(v) && v@.map_values(|s: String| s@) == seq![h@] + relative_cfg_spec(platform),
        },
{
    let h = match home {
        Some(h) => h,
        None => {
            return Err("Failed to locate home directory.");
        },
    };
    let ghost hv = h@;
    let chain = get_relative_cfg_path(platform);
    let mut v: Vec<String> = Vec::new();
    v.push(h);
    let mut i: usize = 0;
    while i < chain.len()
        invariant
            i <= chain@.len(),
            v@.len() == i + 1,
            v@[0]@ == hv,
            forall|k: int| 0 <= k < i ==> #[trigger] v@[k + 1]@ == chain@[k]@,
        decreases chain.len() - i,
    {
        v.push(chain[i].to_string());
        i += 1;
    }
    proof {
        let lhs = v@.map_values(|s: String| s@);
        let rhs = seq![hv] + chain@.map_values(|s: &str| s@);
        assert forall|k: int| 0 <= k < lhs.len() implies lhs[k] == rhs[k] by {
            if k > 0 {
                assert(v@[(k - 1) + 1]@ == chain@[k - 1]@);
            }
        }
        assert(lhs =~= rhs);
    }
    Ok(v)
}

/// What a fresh configuration file holds: no default library, no locations.
pub fn new_config() -> (c: Config)
    ensures
        c.default_lib is None,
        c.lib_locations@.len() == 0,
{
    Config { default_lib: None, lib_locations: Vec::new() }
}

/// A missing file is no valid configuration.
pub fn check_cfg_exists(found: Result<bool, String>) -> (r: Result<(), String>)
    ensures
        match found {
            Err(e) => (r matches Err(x) && x == e),
            Ok(true) => (r matches Ok(_)),
            Ok(false) => (r matches Err(x) && x@ == "cfg file does not exist."@),
        },
{
    match found {
        Err(e) => Err(e),
        Ok(true) => Ok(()),
        Ok(false) => Err(String::from_str("cfg file does not exist.")),
    }
}

/// A fresh configuration file is written only where no valid one is: given
/// whether the check of the existing file passed, `Ok` means "write it".
pub fn safe_new_cfg_file(existing_is_valid: bool) -> (r: Result<(), String>)
    ensures
        existing_is_valid ==> (r matches Err(e) && e@ == "There is already a valid cfg file."@),
        !existing_is_valid ==> (r matches Ok(_)),
{
    if existing_is_valid {
        Err(String::from_str("There is already a valid cfg file."))
    } else {
        Ok(())
    }
}

} // verus!
