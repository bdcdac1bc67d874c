use vstd::prelude::*;

use crate::error::TreeError;

verus! {

/// Bounds on the tree as a whole.
#[derive(Debug, Clone, Copy, PartialEq, Eq, Structural)]
pub struct TreeConfig {
    pub min_trunk_height: usize,
    pub max_trunk_height: usize,
    /// The trunk may branch from this height on.
    pub min_height_before_trunk_can_branch: usize,
    /// A trunk that has not branched yet must branch at this height.
    pub height_when_trunk_forced_to_branch: usize,
    pub min_sticks: usize,
    pub max_sticks: usize,
}

/// Bounds on every branch and its leaves.
#[derive(Debug, Clone, Copy, PartialEq, Eq, Structural)]
pub struct BranchConfig {
    pub min_sticks: usize,
    pub max_sticks: usize,
    /// A branch may spring a nested branch once it holds this many sticks.
    pub min_sticks_before_branch: usize,
    /// Whether a branch may end without leaves.
    pub allow_dead_branches: bool,
    pub min_leaves_in_leaflet: usize,
    pub max_leaves_in_leaflet: usize,
    pub min_leaflets: usize,
    pub max_leaflets: usize,
}

/// The bounds that shape a generated tree.
#[derive(Debug, Clone, Copy, PartialEq, Eq, Structural)]
pub struct Config {
    pub t: TreeConfig,
    pub b: BranchConfig,
}

impl TreeConfig {
    /// Each minimum is at most its maximum, and the forced branching height
    /// is at least the height from which branching is permitted.
    pub open spec fn wf(&self) -> bool {
        &&& self.min_trunk_height <= self.max_trunk_height
        &&& self.min_height_before_trunk_can_branch <= self.height_when_trunk_forced_to_branch
        &&& self.min_sticks <= self.max_sticks
    }

    /// The default tree bounds.
    pub open spec fn defaults() -> TreeConfig {
        TreeConfig {
            min_trunk_height: 3,
            max_trunk_height: 1000,
            min_height_before_trunk_can_branch: 1,
            height_when_trunk_forced_to_branch: 3,
            min_sticks: 20,
            max_sticks: 1000,
        }
    }

    /// The default tree bounds.
    pub fn new() -> (r: TreeConfig)
        ensures
            r.wf(),
            r == TreeConfig::defaults(),
    {
        TreeConfig {
            min_trunk_height: 3,
            max_trunk_height: 1000,
            min_height_before_trunk_can_branch: 1,
            height_when_trunk_forced_to_branch: 3,
            min_sticks: 20,
            max_sticks: 1000,
        }
    }

    /// Tree bounds from their values; fails with `InvalidConfig` exactly
    /// when they contradict each other.
    pub fn build(
        min_trunk_height: usize,
        max_trunk_height: usize,
        min_height_before_trunk_can_branch: usize,
        height_when_trunk_forced_to_branch: usize,
        min_sticks: usize,
        max_sticks: usize,
    ) -> (r: Result<TreeConfig, TreeError>)
        ensures
            ({
                let c = TreeConfig {
                    min_trunk_height,
                    max_trunk_height,
                    min_height_before_trunk_can_branch,
                    height_when_trunk_forced_to_branch,
                    min_sticks,
                    max_sticks,
                };
                &&& c.wf() ==> r == Ok::<TreeConfig, TreeError>(c)
                &&& !c.wf() ==> r == Err::<TreeConfig, TreeError>(TreeError::InvalidConfig)
            }),
    {
        if min_trunk_height > max_trunk_height {
            return Err(TreeError::InvalidConfig);
        }
        if height_when_trunk_forced_to_branch < min_height_before_trunk_can_branch {
            return Err(TreeError::InvalidConfig);
        }
        if min_sticks > max_sticks {
            return Err(TreeError::InvalidConfig);
        }
        Ok(
            TreeConfig {
                min_trunk_height,
                max_trunk_height,
                min_height_before_trunk_can_branch,
                height_when_trunk_forced_to_branch,
                min_sticks,
                max_sticks,
            },
        )
    }
}

impl BranchConfig {
    /// Each minimum is at most its maximum; a branch holds at least one stick
    /// and springs nested branches only after one, so that generation always
    /// ends; and a branch that must carry leaves can complete a leaf cluster.
    pub open spec fn wf(&self) -> bool {
        &&& 1 <= self.min_sticks <= self.max_sticks
        &&& 1 <= self.min_sticks_before_branch
        &&& self.min_leaves_in_leaflet <= self.max_leaves_in_leaflet
        &&& self.min_leaflets <= self.max_leaflets
        &&& (self.max_leaflets >= 1 || self.allow_dead_branches)
    }

    /// The default branch bounds.
    pub open spec fn defaults() -> BranchConfig {
        BranchConfig {
            min_sticks: 2,
            max_sticks: 4,
            min_sticks_before_branch: 2,
            allow_dead_branches: false,
            min_leaves_in_leaflet: 2,
            max_leaves_in_leaflet: 3,
            min_leaflets: 4,
            max_leaflets: 5,
        }
    }

    /// The default branch bounds.
    pub fn new() -> (r: BranchConfig)
        ensures
            r.wf(),
            r == BranchConfig::defaults(),
    {
        BranchConfig {
            min_sticks: 2,
            max_sticks: 4,
            min_sticks_before_branch: 2,
            allow_dead_branches: false,
            min_leaves_in_leaflet: 2,
            max_leaves_in_leaflet: 3,
            min_leaflets: 4,
            max_leaflets: 5,
        }
    }

    /// Branch bounds from their values; fails with `InvalidConfig` exactly
    /// when they are not well-formed.
    pub fn build(
        min_sticks: usize,
        max_sticks: usize,
        min_sticks_before_branch: usize,
        allow_dead_branches: bool,
        min_leaves_in_leaflet: usize,
        max_leaves_in_leaflet: usize,
        min_leaflets: usize,
        max_leaflets: usize,
    ) -> (r: Result<BranchConfig, TreeError>)
        ensures
            ({
                let c = BranchConfig {
                    min_sticks,
                    max_sticks,
                    min_sticks_before_branch,
                    allow_dead_branches,
                    min_leaves_in_leaflet,
                    max_leaves_in_leaflet,
                    min_leaflets,
                    max_leaflets,
                };
                &&& c.wf() ==> r == Ok::<BranchConfig, TreeError>(c)
                &&& !c.wf() ==> r == Err::<BranchConfig, TreeError>(TreeError::InvalidConfig)
            }),
    {
        if min_sticks == 0 || min_sticks > max_sticks || min_sticks_before_branch == 0 {
            return Err(TreeError::InvalidConfig);
        }
        if min_leaves_in_leaflet > max_leaves_in_leaflet || min_leaflets > max_leaflets {
            return Err(TreeError::InvalidConfig);
        }
        if max_leaflets == 0 && !allow_dead_branches {
            return Err(TreeError::InvalidConfig);
        }
        Ok(
            BranchConfig {
                min_sticks,
                max_sticks,
                min_sticks_before_branch,
                allow_dead_branches,
                min_leaves_in_leaflet,
                max_leaves_in_leaflet,
                min_leaflets,
                max_leaflets,
            },
        )
    }
}

impl Config {
    /// Both halves are well-formed.
    pub open spec fn wf(&self) -> bool {
        self.t.wf() && self.b.wf()
    }

    /// The default bounds.
    pub open spec fn defaults() -> Config {
        Config { t: TreeConfig::defaults(), b: BranchConfig::defaults() }
    }

    /// The default bounds.
    pub fn new() -> (r: Config)
        ensures
            r.wf(),
            r == Config::defaults(),
    {
        Config { t: TreeConfig::new(), b: BranchConfig::new() }
    }

    /// Whether the bounds are well-formed.
    pub fn is_valid(&self) -> (r: bool)
        ensures
            r == self.wf(),
    {
        self.t.min_trunk_height <= self.t.max_trunk_height
            && self.t.min_height_before_trunk_can_branch
            <= self.t.height_when_trunk_forced_to_branch && self.t.min_sticks <= self.t.max_sticks
            && 1 <= self.b.min_sticks && self.b.min_sticks <= self.b.max_sticks && 1
            <= self.b.min_sticks_before_branch && self.b.min_leaves_in_leaflet
            <= self.b.max_leaves_in_leaflet && self.b.min_leaflets <= self.b.max_leaflets && (
        self.b.max_leaflets >= 1 || self.b.allow_dead_branches)
    }
}

/// Progress of the whole tree.
#[derive(Debug, Clone, Copy, PartialEq, Eq, Structural)]
pub struct TreeStats {
    pub height: usize,
    /// Movement sticks placed so far, leaves included.
    pub num_sticks: usize,
    /// Branches currently open.
    pub branch_depth: usize,
    pub has_branched: bool,
}

impl TreeStats {
    /// No progress yet.
    pub open spec fn zero() -> TreeStats {
        TreeStats { height: 0, num_sticks: 0, branch_depth: 0, has_branched: false }
    }

    /// No progress yet.
    pub fn new() -> (r: TreeStats)
        ensures
            r == TreeStats::zero(),
    {
        TreeStats { height: 0, num_sticks: 0, branch_depth: 0, has_branched: false }
    }
}

/// Progress of the branch being generated; saved and restored around each
/// nested branch.
#[derive(Debug, Clone, Copy, PartialEq, Eq, Structural)]
pub struct BranchStats {
    pub num_leaves: usize,
    /// Movement sticks placed in this branch, leaves included.
    pub num_sticks: usize,
    /// Height of the trunk; unused by other branches.
    pub height: usize,
    pub is_leaf_state: bool,
    pub num_leaves_in_leaflet: usize,
    pub num_leaflets: usize,
}

impl BranchStats {
    /// A branch that has placed nothing yet.
    pub open spec fn zero() -> BranchStats {
        BranchStats {
            num_leaves: 0,
            num_sticks: 0,
            height: 0,
            is_leaf_state: false,
            num_leaves_in_leaflet: 0,
            num_leaflets: 0,
        }
    }

    /// A branch that has placed nothing yet.
    pub fn new() -> (r: BranchStats)
        ensures
            r == BranchStats::zero(),
    {
        BranchStats {
            num_leaves: 0,
            num_sticks: 0,
            height: 0,
            is_leaf_state: false,
            num_leaves_in_leaflet: 0,
            num_leaflets: 0,
        }
    }
}

/// The counters of one generation run.
#[derive(Debug, Clone, Copy, PartialEq, Eq, Structural)]
pub struct Stats {
    pub t: TreeStats,
    pub b: BranchStats,
}

impl Stats {
    /// Counters at the start of a run.
    pub open spec fn is_fresh(&self) -> bool {
        self.t == TreeStats::zero() && self.b == BranchStats::zero()
    }

    /// Counters at the start of a run.
    pub fn new() -> (r: Stats)
        ensures
            r.is_fresh(),
    {
        Stats { t: TreeStats::new(), b: BranchStats::new() }
    }

    /// The counters after one more movement stick.
    pub open spec fn with_stick(self) -> Stats {
        Stats {
            t: TreeStats { num_sticks: (self.t.num_sticks + 1) as usize, ..self.t },
            b: BranchStats { num_sticks: (self.b.num_sticks + 1) as usize, ..self.b },
        }
    }

    /// The counters after a branch opens.
    pub open spec fn with_branch(self) -> Stats {
        Stats {
            t: TreeStats {
                has_branched: true,
                branch_depth: (self.t.branch_depth + 1) as usize,
                ..self.t
            },
            ..self
        }
    }

    /// The counters after a branch closes.
    pub open spec fn without_branch(self) -> Stats {
        Stats { t: TreeStats { branch_depth: (self.t.branch_depth - 1) as usize, ..self.t }, ..self }
    }

    /// The counters after one more leaf.
    pub open spec fn with_leaf(self) -> Stats {
        Stats {
            t: TreeStats { num_sticks: (self.t.num_sticks + 1) as usize, ..self.t },
            b: BranchStats {
                num_sticks: (self.b.num_sticks + 1) as usize,
                num_leaves: (self.b.num_leaves + 1) as usize,
                num_leaves_in_leaflet: (self.b.num_leaves_in_leaflet + 1) as usize,
                ..self.b
            },
        }
    }

    /// Counts one movement stick, in the tree and in the current branch.
    pub fn add_one_stick(&mut self)
        requires
            old(self).t.num_sticks < usize::MAX,
            old(self).b.num_sticks < usize::MAX,
        ensures
            *final(self) == old(self).with_stick(),
    {
        self.t.num_sticks += 1;
        self.b.num_sticks += 1;
    }

    /// Counts the opening of a branch.
    pub fn add_one_branch(&mut self)
        requires
            old(self).t.branch_depth < usize::MAX,
        ensures
            *final(self) == old(self).with_branch(),
    {
        self.t.has_branched = true;
        self.t.branch_depth += 1;
    }

    /// Counts the closing of a branch.
    pub fn sub_one_branch(&mut self)
        requires
            old(self).t.branch_depth > 0,
        ensures
            *final(self) == old(self).without_branch(),
    {
        self.t.branch_depth -= 1;
    }

    /// Counts one leaf: a movement stick, a leaf of the branch and a leaf of
    /// the current cluster.
    pub fn add_one_leaf(&mut self)
        requires
            old(self).t.num_sticks < usize::MAX,
            old(self).b.num_sticks < usize::MAX,
            old(self).b.num_leaves < usize::MAX,
            old(self).b.num_leaves_in_leaflet < usize::MAX,
        ensures
            *final(self) == old(self).with_leaf(),
    {
        self.add_one_stick();
        self.b.num_leaves += 1;
        self.b.num_leaves_in_leaflet += 1;
    }
}

} // verus!
