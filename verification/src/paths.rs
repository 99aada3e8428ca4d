//! Where the library's files live: under `stowe/` in the user's data directory.
use vstd::prelude::*;
use vstd::string::*;

use crate::error::{Error, Result};
use crate::sandbox::{join, join_path};

verus! {

/// `dirs::data_dir`: the user's data directory (`~/Library/Application Support`
/// on macOS), when the platform has one and its path is UTF-8. Nothing is
/// stated of it: it depends on the environment.
#[verifier::external_body]
fn os_data_dir() -> Option<String> {
    dirs::data_dir().and_then(|p| p.into_os_string().into_string().ok())
}

/// The message when there is no data directory.
pub open spec fn no_data_dir_text() -> Seq<char> {
    "could not resolve OS data dir"@
}

/// `file` in the `stowe` directory of `data_dir`.
pub open spec fn stowe_file(data_dir: Seq<char>, file: Seq<char>) -> Seq<char> {
    join_path(join_path(data_dir, "stowe"@), file)
}

/// `file` in the `stowe` directory under `data_dir`, the data directory when
/// one was found.
pub fn data_path(data_dir: Option<String>, file: &str) -> (r: Result<String>)
    ensures
        match data_dir {
            Some(d) => r matches Ok(p) && p@ == stowe_file(d@, file@),
            None => r matches Err(Error::Invalid(m)) && m@ == no_data_dir_text(),
        },
{
    match data_dir {
        Some(d) => {
            let dir = join(d.as_str(), "stowe");
            proof {
                reveal_strlit("stowe");
            }
            Ok(join(dir.as_str(), file))
        },
        None => {
            let mut m = String::new();
            m.append("could not resolve OS data dir");
            Err(Error::Invalid(m))
        },
    }
}

/// `file` in the `stowe` directory of this user's data directory.
pub fn default_data_path(file: &str) -> (r: Result<String>)
    ensures
        r matches Ok(p) ==> exists|d: Seq<char>| p@ == #[trigger] stowe_file(d, file@),
        r matches Err(e) ==> e matches Error::Invalid(m) && m@ == no_data_dir_text(),
{
    let dir = os_data_dir();
    let ghost found = dir;
    let r = data_path(dir, file);
    proof {
        if let Some(d) = found {
            assert(r->Ok_0@ == stowe_file(d@, file@));
        }
    }
    r
}

} // verus!
