//! The directory an agent works in.
use vstd::prelude::*;
use crate::ext::{file_name_of, path_file_name};

verus! {

/// The directory an agent works in: its name and its path.
#[derive(Debug)]
pub struct Workspace {
    pub name: String,
    pub path: String,
}

/// The name of a workspace whose path has no last component.
pub open spec fn default_workspace_name() -> Seq<char> {
    "workspace"@
}

impl Workspace {
    /// The workspace at `path`, named after the path's last component
    /// (`workspace` when it has none).
    pub fn new(path: String) -> (w: Self)
        ensures
            w.name@ == match path_file_name(path@) {
                Some(n) => n,
                None => default_workspace_name(),
            },
            w.path@ == path@,
    {
        let name = match file_name_of(path.as_str()) {
            Some(n) => n,
            None => "workspace".to_owned(),
        };
        Workspace { name, path }
    }
}

} // verus!
