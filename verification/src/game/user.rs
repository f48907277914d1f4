//! What a player owns: organisms with their skills, and tools with amounts.
use vstd::prelude::*;

use crate::game::sys::{Organism, Quality, Tool};
use crate::game::{ErrorKind, Id};

verus! {

/// One organism a player owns, pointing at its catalogue entry by
/// `target_id`.
pub struct UserOrganism {
    pub id: Id,
    /// The id of the corresponding catalogue [`Organism`].
    pub target_id: Id,
    pub quality: Quality,
    pub skills: Vec<Skill>,
    pub special_skill: Option<Skill>,
}

/// One learned skill of an owned organism.
pub struct Skill {
    pub id: Id,
    pub name: String,
    pub grade: u32,
}

/// One tool a player owns, pointing at its catalogue entry by `id`.
pub struct UserTool {
    /// The id of the corresponding catalogue [`Tool`].
    pub id: Id,
    pub amount: usize,
}

/// The ids of a run of catalogue organisms.
pub open spec fn organism_ids(entries: Seq<Organism>) -> Seq<Id> {
    Seq::new(entries.len(), |i: int| entries[i].id)
}

/// The ids of a run of catalogue tools.
pub open spec fn tool_ids(entries: Seq<Tool>) -> Seq<Id> {
    Seq::new(entries.len(), |i: int| entries[i].tool_id)
}

/// How many leading catalogue entries a lookup for `target` visits: the
/// catalogue is kept sorted ascending by id with ids tracking positions, so
/// an entry with id `target` can only sit among the first `target` entries.
pub open spec fn spec_scan_window(target: Id, len: nat) -> int {
    if target <= len {
        target as int
    } else {
        len as int
    }
}

/// The index a backward catalogue scan settles on: walking down from
/// position `k - 1`, the first entry whose id equals `target`, giving up as
/// soon as an id below `target` is seen (sound on a catalogue sorted
/// ascending by id, where nothing with the sought id can sit below it).
pub open spec fn spec_scan_back(ids: Seq<Id>, target: Id, k: int) -> Option<int>
    decreases k,
{
    if k <= 0 || k > ids.len() {
        None
    } else if ids[k - 1] == target {
        Some(k - 1)
    } else if ids[k - 1] < target {
        None
    } else {
        spec_scan_back(ids, target, k - 1)
    }
}

impl UserOrganism {
    /// Looks this organism's catalogue entry up among the first `target_id`
    /// entries of the loaded catalogue, scanning backward and giving up at
    /// the first id below `target_id` (an index-bounded search that is
    /// exact on a catalogue sorted ascending by id). Fails exactly when the
    /// scan finds no entry.
    pub fn get_organism<'a>(&self, organisms: &'a [Organism]) -> (r: Result<
        &'a Organism,
        ErrorKind,
    >)
        ensures
            ({
                let found = spec_scan_back(
                    organism_ids(organisms@),
                    self.target_id,
                    spec_scan_window(self.target_id, organisms@.len()),
                );
                match r {
                    Ok(o) => found matches Some(i) && *o == organisms@[i],
                    Err(e) => found is None && e is Other,
                }
            }),
    {
        let ghost ids = organism_ids(organisms@);
        let window: usize = if self.target_id <= organisms.len() {
            self.target_id
        } else {
            organisms.len()
        };
        let mut k: usize = window;
        while k > 0
            invariant
                k <= window <= organisms@.len(),
                window as int == spec_scan_window(self.target_id, organisms@.len()),
                ids == organism_ids(organisms@),
                spec_scan_back(ids, self.target_id, k as int) == spec_scan_back(
                    ids,
                    self.target_id,
                    window as int,
                ),
            decreases k,
        {
            k = k - 1;
            let candidate = &organisms[k];
            if candidate.id == self.target_id {
                return Ok(candidate);
            }
            if candidate.id < self.target_id {
                return Err(ErrorKind::other_str("unknow organism."));
            }
        }
        Err(ErrorKind::other_str("unknow organism."))
    }
}

impl UserTool {
    /// Looks this tool's catalogue entry up among the first `id` entries of
    /// the loaded catalogue, scanning backward and giving up at the first
    /// id below this tool's `id`, just as the organism lookup does. Fails
    /// exactly when the scan finds no entry.
    pub fn get_tool<'a>(&self, tools: &'a [Tool]) -> (r: Result<&'a Tool, ErrorKind>)
        ensures
            ({
                let found = spec_scan_back(
                    tool_ids(tools@),
                    self.id,
                    spec_scan_window(self.id, tools@.len()),
                );
                match r {
                    Ok(t) => found matches Some(i) && *t == tools@[i],
                    Err(e) => found is None && e is Other,
                }
            }),
    {
        let ghost ids = tool_ids(tools@);
        let window: usize = if self.id <= tools.len() {
            self.id
        } else {
            tools.len()
        };
        let mut k: usize = window;
        while k > 0
            invariant
                k <= window <= tools@.len(),
                window as int == spec_scan_window(self.id, tools@.len()),
                ids == tool_ids(tools@),
                spec_scan_back(ids, self.id, k as int) == spec_scan_back(
                    ids,
                    self.id,
                    window as int,
                ),
            decreases k,
        {
            k = k - 1;
            let candidate = &tools[k];
            if candidate.tool_id == self.id {
                return Ok(candidate);
            }
            if candidate.tool_id < self.id {
                return Err(ErrorKind::other_str("unknow tool."));
            }
        }
        Err(ErrorKind::other_str("unknow tool."))
    }
}

/// A source of a player's warehouse, for the surrounding program to
/// implement over whatever transport it has.
pub trait GetUserInfo {
    /// Fetches the owned tools and organisms.
    fn get_warehouse(&self) -> (Vec<UserTool>, Vec<UserOrganism>);
}

} // verus!
