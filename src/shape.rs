use vstd::prelude::*;

use crate::sticks::{is_branch_move, is_control, is_leaf_move, Stick};

verus! {

/// How often `k` occurs in `s`.
pub open spec fn count_of(s: Seq<Stick>, k: Stick) -> nat
    decreases s.len(),
{
    if s.len() == 0 {
        0
    } else {
        count_of(s.drop_last(), k) + if s.last() == k {
            1nat
        } else {
            0nat
        }
    }
}

/// Branches opened minus branches closed.
pub open spec fn open_depth(s: Seq<Stick>) -> int {
    count_of(s, Stick::BranchIndicator) - count_of(s, Stick::BranchReturn)
}

/// Whether, after `s`, a leaf origin is certainly remembered: a `LeafSpawn`
/// occurred and no branch movement followed it.
pub open spec fn leaf_armed(s: Seq<Stick>) -> bool
    decreases s.len(),
{
    if s.len() == 0 {
        false
    } else if s.last() == Stick::LeafSpawn {
        true
    } else if is_branch_move(s.last()) {
        false
    } else {
        leaf_armed(s.drop_last())
    }
}

/// Every `BranchReturn` closes a branch that is open, and every
/// `LeafReturn` comes while a leaf origin is remembered.
pub open spec fn well_nested(s: Seq<Stick>) -> bool
    decreases s.len(),
{
    if s.len() == 0 {
        true
    } else {
        &&& well_nested(s.drop_last())
        &&& s.last() == Stick::BranchReturn ==> open_depth(s.drop_last()) > 0
        &&& s.last() == Stick::LeafReturn ==> leaf_armed(s.drop_last())
    }
}

/// Well nested, and every branch that opens also closes.
pub open spec fn well_formed(s: Seq<Stick>) -> bool {
    well_nested(s) && open_depth(s) == 0
}

/// The number of movement sticks in `s`, leaves included.
pub open spec fn movement_count(s: Seq<Stick>) -> nat
    decreases s.len(),
{
    if s.len() == 0 {
        0
    } else {
        movement_count(s.drop_last()) + if is_control(s.last()) {
            0nat
        } else {
            1nat
        }
    }
}

/// The number of branch movements in `s` placed while exactly `d` branches
/// were open: the sticks that belong to the branch scopes at nesting level `d`.
pub open spec fn level_moves(s: Seq<Stick>, d: int) -> nat
    decreases s.len(),
{
    if s.len() == 0 {
        0
    } else {
        level_moves(s.drop_last(), d) + if is_branch_move(s.last()) && open_depth(s.drop_last())
            == d {
            1nat
        } else {
            0nat
        }
    }
}

/// Whether `s` begins with `t`.
pub open spec fn extends(s: Seq<Stick>, t: Seq<Stick>) -> bool {
    t.len() <= s.len() && forall|i: int| 0 <= i < t.len() ==> #[trigger] s[i] == t[i]
}

/// A leaf movement or a return to the leaf origin: what a leaf cluster holds.
pub open spec fn is_leaf_part(k: Stick) -> bool {
    is_leaf_move(k) || k == Stick::LeafReturn
}

/// `s[k]` is a `LeafSpawn`, and `s[k + 1..end]` are all leaf movements and
/// returns to the leaf origin.
pub open spec fn leaf_run(s: Seq<Stick>, k: int, end: int) -> bool {
    &&& 0 <= k < end <= s.len()
    &&& s[k] == Stick::LeafSpawn
    &&& forall|i: int| k < i < end ==> is_leaf_part(#[trigger] s[i])
}

/// The number of leaf movements at the end of `s`: the leaves of the
/// cluster in progress.
pub open spec fn trailing_leaves(s: Seq<Stick>) -> nat
    decreases s.len(),
{
    if s.len() > 0 && is_leaf_move(s.last()) {
        trailing_leaves(s.drop_last()) + 1
    } else {
        0
    }
}

/// Every `LeafReturn` of `s` from index `a` on closes a cluster of at least
/// `lo` and at most `hi` leaves.
pub open spec fn clusters_within(s: Seq<Stick>, a: int, lo: int, hi: int) -> bool {
    forall|i: int|
        a <= i < s.len() && s[i] == Stick::LeafReturn ==> lo <= trailing_leaves(#[trigger] s.take(i))
            <= hi
}

/// Every stick of `s` from index `start` on stands inside at least `d` open
/// branches.
pub open spec fn nested_from(s: Seq<Stick>, start: int, d: int) -> bool {
    forall|i: int| start <= i < s.len() ==> open_depth(#[trigger] s.take(i)) >= d
}

/// Outside every branch scope stand only branch movements and the
/// `BranchIndicator`s that open scopes: the trunk is never closed and bears
/// no leaves.
pub open spec fn trunk_level_clean(s: Seq<Stick>) -> bool {
    forall|i: int|
        0 <= i < s.len() && open_depth(#[trigger] s.take(i)) == 0 ==> is_branch_move(s[i]) || s[i]
            == Stick::BranchIndicator
}

/// A sequence that begins with `t` shares every prefix of `t`.
pub proof fn lemma_extends_take(s: Seq<Stick>, t: Seq<Stick>, i: int)
    requires
        extends(s, t),
        0 <= i <= t.len(),
    ensures
        s.take(i) == t.take(i),
{
    assert(s.take(i) =~= t.take(i));
}

/// Appending one stick within `d` open branches keeps what follows `start`
/// inside them.
pub proof fn lemma_nested_push(s: Seq<Stick>, t: Seq<Stick>, start: int, d: int)
    requires
        s.len() == t.len() + 1,
        extends(s, t),
        0 <= start <= t.len(),
        nested_from(t, start, d),
        open_depth(t) >= d,
    ensures
        nested_from(s, start, d),
{
    assert forall|i: int| start <= i < s.len() implies open_depth(#[trigger] s.take(i)) >= d by {
        lemma_extends_take(s, t, i);
        if i == t.len() {
            assert(t.take(i) =~= t);
        }
    }
}

/// Joining two stretches that both stand within `d` open branches.
pub proof fn lemma_nested_join(s: Seq<Stick>, t: Seq<Stick>, start: int, d: int)
    requires
        extends(s, t),
        0 <= start <= t.len(),
        nested_from(t, start, d),
        nested_from(s, t.len() as int, d),
    ensures
        nested_from(s, start, d),
{
    assert forall|i: int| start <= i < s.len() implies open_depth(#[trigger] s.take(i)) >= d by {
        if i < t.len() {
            lemma_extends_take(s, t, i);
        }
    }
}

/// A well-formed sequence holds as many `BranchIndicator`s as `BranchReturn`s.
pub proof fn lemma_well_formed_balanced(s: Seq<Stick>)
    requires
        well_formed(s),
    ensures
        count_of(s, Stick::BranchIndicator) == count_of(s, Stick::BranchReturn),
{
}

} // verus!
