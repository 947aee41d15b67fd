//! Where the library keeps its files: a workspace directory under the home
//! directory, with the database file and the artifact directory in it.

use vstd::prelude::*;
use crate::error::ResearchError;

verus! {

/// The workspace directory and its artifact directory.
pub struct Workspace {
    pub root: String,
    pub artifacts: String,
}

/// Where the database file lies.
pub struct DbState {
    pub db_path: String,
}

/// `base` with `name` appended as a path component.
pub open spec fn joined(base: Seq<char>, name: Seq<char>) -> Seq<char> {
    base + "/"@ + name
}

pub open spec fn workspace_root(home: Seq<char>) -> Seq<char> {
    joined(home, ".research_data"@)
}

/// Appends `name` to `base` as a path component.
pub fn join_path(base: &str, name: &str) -> (r: String)
    ensures
        r@ == joined(base@, name@),
{
    let mut p = String::from_str(base);
    p.append("/");
    p.append(name);
    p
}

/// Relies on `dirs::home_dir`: the current user's home directory, when the
/// platform reports one that is valid UTF-8; it depends on the environment,
/// so nothing is promised of its value.
#[verifier::external_body]
fn home_dir() -> (r: Option<String>) {
    dirs::home_dir().and_then(|p| p.to_str().map(String::from))
}

impl Workspace {
    /// The workspace under the home directory `home`.
    pub fn at(home: &str) -> (r: Workspace)
        ensures
            r.root@ == workspace_root(home@),
            r.artifacts@ == joined(workspace_root(home@), "artifacts"@),
    {
        let root = join_path(home, ".research_data");
        let artifacts = join_path(root.as_str(), "artifacts");
        Workspace { root, artifacts }
    }

    /// The workspace under the current user's home directory; `NotFound`
    /// when there is none.
    pub fn new() -> (r: Result<Workspace, ResearchError>)
        ensures
            r matches Ok(w) ==> exists|home: Seq<char>|
                w.root@ == workspace_root(home) && w.artifacts@ == joined(workspace_root(home), "artifacts"@),
            r matches Err(e) ==> e is NotFound,
    {
        match home_dir() {
            Some(home) => Ok(Workspace::at(home.as_str())),
            None => Err(ResearchError::NotFound(String::from_str("Home directory not found"))),
        }
    }

    /// The path of artifact file `filename`.
    pub fn artifact_path(&self, filename: &str) -> (r: String)
        ensures
            r@ == joined(self.artifacts@, filename@),
    {
        join_path(self.artifacts.as_str(), filename)
    }
}

impl DbState {
    /// The database file of a workspace.
    pub fn in_workspace(ws: &Workspace) -> (r: DbState)
        ensures
            r.db_path@ == joined(ws.root@, "research.db"@),
    {
        DbState { db_path: join_path(ws.root.as_str(), "research.db") }
    }
}

} // verus!
