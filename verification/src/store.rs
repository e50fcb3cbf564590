//! Where profiles and events are kept.

use std::path::PathBuf;

use vstd::prelude::*;
use vstd::string::*;

use crate::order::{rank_order, sort, sorted_by, views};

verus! {

/// `std::path::PathBuf`, carried as it is.
#[verifier::external_type_specification]
#[verifier::external_body]
pub struct ExPathBuf(std::path::PathBuf);

/// Filesystem-backed store. Layout:
///
/// ```text
/// root/
///   <agent_id>/
///     baseline.json
///     events.jsonl
/// ```
#[derive(Debug)]
pub struct FileStore {
    pub root: PathBuf,
}

impl FileStore {
    /// A store below `root`.
    pub fn new(root: PathBuf) -> (r: Self)
        ensures
            r.root == root,
    {
        FileStore { root }
    }

    /// The steps from the root to an agent's directory.
    pub fn agent_dir(&self, agent_id: &str) -> (r: Vec<String>)
        ensures
            views(r@) == seq![agent_id@],
    {
        let mut steps: Vec<String> = Vec::new();
        steps.push(agent_id.to_owned());
        proof {
            assert(views(steps@) =~= seq![agent_id@]);
        }
        steps
    }

    /// The steps from the root to an agent's profile.
    pub fn baseline_path(&self, agent_id: &str) -> (r: Vec<String>)
        ensures
            views(r@) == seq![agent_id@, "baseline.json"@],
    {
        let mut steps = self.agent_dir(agent_id);
        let ghost dir = views(steps@);
        steps.push("baseline.json".to_owned());
        proof {
            assert(dir.len() == 1 && views(steps@)[0] == dir[0]);
            assert(views(steps@) =~= seq![agent_id@, "baseline.json"@]);
        }
        steps
    }

    /// The steps from the root to an agent's events.
    pub fn events_path(&self, agent_id: &str) -> (r: Vec<String>)
        ensures
            views(r@) == seq![agent_id@, "events.jsonl"@],
    {
        let mut steps = self.agent_dir(agent_id);
        let ghost dir = views(steps@);
        steps.push("events.jsonl".to_owned());
        proof {
            assert(dir.len() == 1 && views(steps@)[0] == dir[0]);
            assert(views(steps@) =~= seq![agent_id@, "events.jsonl"@]);
        }
        steps
    }

    /// The agents whose directories were found, in dictionary order.
    pub fn list_agents(&self, found: Vec<String>) -> (r: Vec<String>)
        ensures
            views(r@) == sorted_by(views(found@), rank_order::<String>()),
    {
        sort(found)
    }
}

} // verus!
