use vstd::prelude::*;

use rand::rngs::ThreadRng;

use crate::confstats::{BranchStats, Config, Stats};
use crate::lottery::{weight_sum, Lottery};
use crate::shape::{
    clusters_within, count_of, extends, is_leaf_part, trailing_leaves, leaf_armed, leaf_run, lemma_extends_take, lemma_nested_join, lemma_nested_push, level_moves,
    movement_count, nested_from, open_depth, trunk_level_clean, well_formed, well_nested,
};
use crate::sticks::{
    all_glyphs, decode_all, encode, is_branch_move, is_control, is_leaf_move, lemma_decode_encode,
    Stick,
};

verus! {

/// The three branch movements, as choices.
pub open spec fn branch_moves() -> Seq<Option<Stick>> {
    seq![Some(Stick::UpBranch), Some(Stick::UpLeftBranch), Some(Stick::UpRightBranch)]
}

/// The eight leaf movements, as choices.
pub open spec fn leaf_moves() -> Seq<Option<Stick>> {
    seq![
        Some(Stick::UpLeaf),
        Some(Stick::LeftLeaf),
        Some(Stick::RightLeaf),
        Some(Stick::DownLeaf),
        Some(Stick::UpLeftLeaf),
        Some(Stick::UpRightLeaf),
        Some(Stick::DownLeftLeaf),
        Some(Stick::DownRightLeaf),
    ]
}

/// `xs` where `b` holds, nothing otherwise.
pub open spec fn when(b: bool, xs: Seq<Option<Stick>>) -> Seq<Option<Stick>> {
    if b {
        xs
    } else {
        Seq::empty()
    }
}

/// What the trunk may do next (`None` ends the trunk): grow while it is
/// below the forced branching height or has branched already, branch from
/// the permitted height on, and stop once it is tall enough and the tree
/// holds enough sticks.
pub open spec fn trunk_options(s: Stats, c: Config) -> Seq<Option<Stick>> {
    when(s.b.height < c.t.height_when_trunk_forced_to_branch || s.t.has_branched, branch_moves())
        + when(s.b.height >= c.t.min_height_before_trunk_can_branch, seq![Some(Stick::BranchIndicator)])
        + when(s.b.height >= c.t.min_trunk_height && s.t.num_sticks >= c.t.min_sticks, seq![None])
}

/// What a branch may do next (`None` ends it with leaves): grow, spring a
/// nested branch once it holds enough sticks, stop once it holds its
/// minimum, or then also end dead where dead branches are allowed.
pub open spec fn branch_options(s: Stats, c: Config) -> Seq<Option<Stick>> {
    branch_moves() + when(s.b.num_sticks >= c.b.min_sticks_before_branch, seq![Some(Stick::BranchIndicator)])
        + when(s.b.num_sticks >= c.b.min_sticks, seq![None])
        + when(s.b.num_sticks >= c.b.min_sticks && c.b.allow_dead_branches, seq![Some(Stick::BranchReturn)])
}

/// What a leaf cluster may do next (`None` leaves leaf mode): place a leaf
/// while the cluster is below its maximum and the tree below its stick
/// budget, return to the leaf origin once the cluster holds its minimum and
/// clusters remain, and stop once the minimums are met or the budget is spent.
pub open spec fn leaf_options(s: Stats, c: Config) -> Seq<Option<Stick>> {
    when(
        s.b.num_leaves_in_leaflet < c.b.max_leaves_in_leaflet && s.t.num_sticks < c.t.max_sticks,
        leaf_moves(),
    ) + when(
        s.b.num_leaves_in_leaflet >= c.b.min_leaves_in_leaflet && s.b.num_leaflets < c.b.max_leaflets,
        seq![Some(Stick::LeafReturn)],
    ) + when(
        ((s.b.num_leaflets > 0 || c.b.allow_dead_branches) && s.b.num_leaves_in_leaflet
            >= c.b.min_leaves_in_leaflet && s.b.num_leaflets >= c.b.min_leaflets) || s.t.num_sticks
            >= c.t.max_sticks,
        seq![None],
    )
}

/// Draws one of `options`, all equally likely.
fn draw(rng: &mut ThreadRng, options: &Vec<Option<Stick>>) -> (r: Option<Stick>)
    requires
        options@.len() > 0,
        options@.len() < usize::MAX,
    ensures
        options@.contains(r),
{
    let mut lottery: Lottery<Option<Stick>> = Lottery::build(rng);
    let mut i: usize = 0;
    while i < options.len()
        invariant
            lottery.wf(),
            i <= options@.len(),
            options@.len() < usize::MAX,
            lottery.outcomes() == options@.take(i as int),
            weight_sum(lottery.weights()) == i,
        decreases options@.len() - i,
    {
        lottery.add(options[i]);
        assert(options@.take(i + 1) =~= options@.take(i as int).push(options@[i as int]));
        i = i + 1;
    }
    assert(options@.take(options@.len() as int) =~= options@);
    match lottery.pick() {
        Ok(r) => r,
        Err(_) => {
            assert(false);
            None
        },
    }
}

/// Appends `when(b, xs)` to `v`.
fn push_when(v: &mut Vec<Option<Stick>>, b: bool, xs: &Vec<Option<Stick>>)
    ensures
        final(v)@ == old(v)@ + when(b, xs@),
{
    if b {
        let mut i: usize = 0;
        let ghost start = v@;
        while i < xs.len()
            invariant
                i <= xs@.len(),
                v@ == start + xs@.take(i as int),
            decreases xs@.len() - i,
        {
            v.push(xs[i]);
            assert(xs@.take(i + 1) =~= xs@.take(i as int).push(xs@[i as int]));
            i = i + 1;
        }
        assert(xs@.take(xs@.len() as int) =~= xs@);
    } else {
        assert(v@ + Seq::<Option<Stick>>::empty() =~= v@);
    }
}

/// The trunk's counters after it grows by one stick.
pub open spec fn grown(s: Stats) -> Stats {
    Stats { b: BranchStats { height: (s.b.height + 1) as usize, ..s.with_stick().b }, ..s.with_stick() }
}

/// The three branch movements.
fn branch_move_vec() -> (r: Vec<Option<Stick>>)
    ensures
        r@ == branch_moves(),
{
    let r = vec![Some(Stick::UpBranch), Some(Stick::UpLeftBranch), Some(Stick::UpRightBranch)];
    assert(r@ =~= branch_moves());
    r
}

/// A single choice.
fn single(k: Option<Stick>) -> (r: Vec<Option<Stick>>)
    ensures
        r@ == seq![k],
{
    let r = vec![k];
    assert(r@ =~= seq![k]);
    r
}

/// Picks what the trunk does next and counts it: a movement grows the trunk,
/// `BranchIndicator` opens a branch, `None` ends the trunk.
fn gen_trunk_stick_or_stop(rng: &mut ThreadRng, stats: &mut Stats, conf: &Config) -> (r: Option<
    Stick,
>)
    requires
        conf.wf(),
        old(stats).t.num_sticks < usize::MAX,
        old(stats).b.num_sticks < usize::MAX,
        old(stats).b.height < usize::MAX,
        old(stats).t.branch_depth < usize::MAX,
    ensures
        trunk_options(*old(stats), *conf).contains(r),
        r matches Some(k) && !is_control(k) ==> *final(stats) == grown(*old(stats)),
        r == Some(Stick::BranchIndicator) ==> *final(stats) == old(stats).with_branch(),
        r is None ==> *final(stats) == *old(stats),
{
    let mut options: Vec<Option<Stick>> = Vec::new();
    let moves = branch_move_vec();
    push_when(
        &mut options,
        stats.b.height < conf.t.height_when_trunk_forced_to_branch || stats.t.has_branched,
        &moves,
    );
    push_when(
        &mut options,
        stats.b.height >= conf.t.min_height_before_trunk_can_branch,
        &single(Some(Stick::BranchIndicator)),
    );
    push_when(
        &mut options,
        stats.b.height >= conf.t.min_trunk_height && stats.t.num_sticks >= conf.t.min_sticks,
        &single(None),
    );
    assert(options@ =~= trunk_options(*stats, *conf));
    let output = draw(rng, &options);
    if let Some(stick) = output {
        if !stick.is_control_char() {
            stats.b.height += 1;
            stats.add_one_stick();
        } else {
            stats.add_one_branch();
        }
    }
    output
}

/// Picks what a branch does next and counts it: a movement adds a stick,
/// `BranchIndicator` opens a nested branch, `BranchReturn` ends the branch
/// dead, `None` ends it with leaves.
fn gen_branch_stick_or_stop(rng: &mut ThreadRng, stats: &mut Stats, conf: &Config) -> (r: Option<
    Stick,
>)
    requires
        conf.wf(),
        old(stats).t.num_sticks < usize::MAX,
        old(stats).b.num_sticks < usize::MAX,
        old(stats).b.num_sticks >= conf.b.min_sticks_before_branch ==> old(stats).t.branch_depth
            < usize::MAX,
        old(stats).t.branch_depth > 0,
    ensures
        branch_options(*old(stats), *conf).contains(r),
        r matches Some(k) && !is_control(k) ==> *final(stats) == old(stats).with_stick(),
        r == Some(Stick::BranchIndicator) ==> *final(stats) == old(stats).with_branch(),
        r == Some(Stick::BranchReturn) ==> *final(stats) == old(stats).without_branch(),
        r is None ==> *final(stats) == *old(stats),
{
    let mut options = branch_move_vec();
    push_when(
        &mut options,
        stats.b.num_sticks >= conf.b.min_sticks_before_branch,
        &single(Some(Stick::BranchIndicator)),
    );
    push_when(&mut options, stats.b.num_sticks >= conf.b.min_sticks, &single(None));
    push_when(
        &mut options,
        stats.b.num_sticks >= conf.b.min_sticks && conf.b.allow_dead_branches,
        &single(Some(Stick::BranchReturn)),
    );
    assert(options@ =~= branch_options(*stats, *conf));
    let output = draw(rng, &options);
    if let Some(stick) = output {
        if !stick.is_control_char() {
            stats.add_one_stick();
        } else {
            match stick {
                Stick::BranchIndicator => {
                    stats.add_one_branch();
                },
                _ => {
                    stats.sub_one_branch();
                },
            }
        }
    }
    output
}

/// The eight leaf movements.
fn leaf_move_vec() -> (r: Vec<Option<Stick>>)
    ensures
        r@ == leaf_moves(),
{
    let r = vec![
        Some(Stick::UpLeaf),
        Some(Stick::LeftLeaf),
        Some(Stick::RightLeaf),
        Some(Stick::DownLeaf),
        Some(Stick::UpLeftLeaf),
        Some(Stick::UpRightLeaf),
        Some(Stick::DownLeftLeaf),
        Some(Stick::DownRightLeaf),
    ];
    assert(r@ =~= leaf_moves());
    r
}

/// Picks what a leaf cluster does next and counts it. Outside leaf mode the
/// answer is `LeafSpawn`, which enters it; inside, a leaf movement adds a
/// leaf, `LeafReturn` starts a new cluster, `None` leaves leaf mode.
///
/// Leaf mode may end once the tree's stick budget is spent even where the
/// cluster minimums are not met: no leaf can be placed then, and ending is
/// what keeps every tree within its stick maximum.
fn gen_leaf_stick_or_stop(rng: &mut ThreadRng, stats: &mut Stats, conf: &Config) -> (r: Option<
    Stick,
>)
    requires
        conf.wf(),
        old(stats).t.num_sticks <= conf.t.max_sticks,
        old(stats).b.num_sticks <= old(stats).t.num_sticks,
        old(stats).b.num_leaves <= old(stats).b.num_sticks,
        old(stats).b.num_leaves_in_leaflet <= conf.b.max_leaves_in_leaflet,
        old(stats).b.num_leaflets <= conf.b.max_leaflets,
    ensures
        !old(stats).b.is_leaf_state ==> r == Some(Stick::LeafSpawn) && *final(stats) == (Stats {
            b: BranchStats { is_leaf_state: true, ..old(stats).b },
            ..*old(stats)
        }),
        old(stats).b.is_leaf_state ==> leaf_options(*old(stats), *conf).contains(r),
        old(stats).b.is_leaf_state && (r matches Some(k) && !is_control(k)) ==> *final(stats)
            == old(stats).with_leaf(),
        old(stats).b.is_leaf_state && r == Some(Stick::LeafReturn) ==> *final(stats) == (Stats {
            b: BranchStats {
                num_leaves_in_leaflet: 0,
                num_leaflets: (old(stats).b.num_leaflets + 1) as usize,
                ..old(stats).b
            },
            ..*old(stats)
        }),
        old(stats).b.is_leaf_state && r is None ==> *final(stats) == *old(stats),
{
    if !stats.b.is_leaf_state {
        stats.b.is_leaf_state = true;
        return Some(Stick::LeafSpawn);
    }
    let mut options: Vec<Option<Stick>> = Vec::new();
    push_when(
        &mut options,
        stats.b.num_leaves_in_leaflet < conf.b.max_leaves_in_leaflet && stats.t.num_sticks
            < conf.t.max_sticks,
        &leaf_move_vec(),
    );
    push_when(
        &mut options,
        stats.b.num_leaves_in_leaflet >= conf.b.min_leaves_in_leaflet && stats.b.num_leaflets
            < conf.b.max_leaflets,
        &single(Some(Stick::LeafReturn)),
    );
    push_when(
        &mut options,
        ((stats.b.num_leaflets > 0 || conf.b.allow_dead_branches) && stats.b.num_leaves_in_leaflet
            >= conf.b.min_leaves_in_leaflet && stats.b.num_leaflets >= conf.b.min_leaflets)
            || stats.t.num_sticks >= conf.t.max_sticks,
        &single(None),
    );
    assert(options@ =~= leaf_options(*stats, *conf));
    let output = draw(rng, &options);
    if let Some(stick) = output {
        if !stick.is_control_char() {
            stats.add_one_leaf();
        } else {
            stats.b.num_leaves_in_leaflet = 0;
            stats.b.num_leaflets += 1;
        }
    }
    output
}

/// Appends one stick to the output, unfolding the shape of the result.
fn emit(out: &mut Vec<Stick>, k: Stick)
    ensures
        final(out)@ == old(out)@.push(k),
        final(out)@.take(old(out)@.len() as int) == old(out)@,
        open_depth(final(out)@) == open_depth(old(out)@) + if k == Stick::BranchIndicator {
            1int
        } else if k == Stick::BranchReturn {
            -1int
        } else {
            0int
        },
        movement_count(final(out)@) == movement_count(old(out)@) + if is_control(k) {
            0int
        } else {
            1int
        },
        well_nested(final(out)@) == (well_nested(old(out)@) && (k == Stick::BranchReturn
            ==> open_depth(old(out)@) > 0) && (k == Stick::LeafReturn ==> leaf_armed(old(out)@))),
        leaf_armed(final(out)@) == (k == Stick::LeafSpawn || (!is_branch_move(k) && leaf_armed(
            old(out)@,
        ))),
        forall|d: int|
            #[trigger] level_moves(final(out)@, d) == level_moves(old(out)@, d) + if is_branch_move(k)
                && open_depth(old(out)@) == d {
                1int
            } else {
                0int
            },
        forall|x: Stick|
            #[trigger] count_of(final(out)@, x) == count_of(old(out)@, x) + if k == x {
                1int
            } else {
                0int
            },
{
    let ghost before = out@;
    out.push(k);
    assert(out@.drop_last() =~= before);
    assert(out@.take(before.len() as int) =~= before);
}

/// Whether `out` is a well-nested sequence whose movements are the ones
/// that `s` counts, within the tree's budget.
pub open spec fn tracks(out: Seq<Stick>, s: Stats, c: Config) -> bool {
    &&& well_nested(out)
    &&& movement_count(out) == s.t.num_sticks
    &&& s.t.num_sticks <= c.t.max_sticks
    &&& open_depth(out) == s.t.branch_depth
}

/// Every stick in `s[a..b]` stands inside at least `d` open branches.
pub open spec fn nested_between(s: Seq<Stick>, a: int, b: int, d: int) -> bool {
    forall|i: int| a <= i < b ==> open_depth(#[trigger] s.take(i)) >= d
}

/// The branch scope that `s[p]` opens is closed by `s[q]`, and every stick
/// between them stands inside it.
pub open spec fn closes_at(s: Seq<Stick>, p: int, q: int) -> bool {
    &&& 0 <= p < q < s.len()
    &&& s[p] == Stick::BranchIndicator
    &&& s[q] == Stick::BranchReturn
    &&& open_depth(s.take(q)) == open_depth(s.take(p)) + 1
    &&& nested_between(s, p + 1, q, open_depth(s.take(p)) + 1)
}

/// The branch movements of the scope opened at `p` and closed at `q` that
/// belong to that scope itself, not to scopes nested in it.
pub open spec fn own_sticks(s: Seq<Stick>, p: int, q: int) -> int {
    level_moves(s.take(q), open_depth(s.take(p)) + 1) - level_moves(
        s.take(p + 1),
        open_depth(s.take(p)) + 1,
    )
}

/// Inside the scope opened at `p` and closed at `q`, at most one
/// `LeafSpawn` stands at the scope's own level.
pub open spec fn one_own_spawn(s: Seq<Stick>, p: int, q: int) -> bool {
    forall|i: int, j: int|
        #![trigger s[i], s[j]]
        p < i < q && p < j < q && s[i] == Stick::LeafSpawn && s[j] == Stick::LeafSpawn
            && open_depth(s.take(i)) == open_depth(s.take(p)) + 1 && open_depth(s.take(j))
            == open_depth(s.take(p)) + 1 ==> i == j
}

/// Every `LeafSpawn` of `s` from index `a` on stands inside more than `d`
/// open branches.
pub open spec fn spawns_deeper(s: Seq<Stick>, a: int, d: int) -> bool {
    forall|i: int|
        a <= i < s.len() && s[i] == Stick::LeafSpawn ==> open_depth(#[trigger] s.take(i)) > d
}

/// Where `s[p]` opens a branch, the branch closes; it holds at most one
/// `LeafSpawn` at its own level; its own sticks number at
/// most the branch maximum, and at least the branch minimum unless the
/// tree's stick budget was spent by the time it closed; and unless dead
/// branches are allowed, it ends with its leaf clusters, a `LeafSpawn` at its
/// own level followed only by leaves and returns to the leaf origin.
pub open spec fn branch_scope_ok(s: Seq<Stick>, p: int, c: Config) -> bool {
    s[p] == Stick::BranchIndicator ==> exists|q: int|
        #[trigger] closes_at(s, p, q) && one_own_spawn(s, p, q) && own_sticks(s, p, q)
            <= c.b.max_sticks && (own_sticks(s, p, q) >= c.b.min_sticks || movement_count(
            s.take(q + 1),
        ) == c.t.max_sticks) && (!c.b.allow_dead_branches ==> exists|k: int|
            p < k && #[trigger] leaf_run(s, k, q) && open_depth(s.take(k)) == open_depth(s.take(p))
                + 1)
}

/// What a branch scope states survives appending.
proof fn lemma_scope_extends(s: Seq<Stick>, t: Seq<Stick>, p: int, c: Config)
    requires
        extends(s, t),
        0 <= p < t.len(),
        branch_scope_ok(t, p, c),
    ensures
        branch_scope_ok(s, p, c),
{
    if t[p] == Stick::BranchIndicator {
        let q = choose|q: int|
            #[trigger] closes_at(t, p, q) && one_own_spawn(t, p, q) && own_sticks(t, p, q)
                <= c.b.max_sticks && (own_sticks(t, p, q) >= c.b.min_sticks || movement_count(
                t.take(q + 1),
            ) == c.t.max_sticks) && (!c.b.allow_dead_branches ==> exists|k: int|
                p < k && #[trigger] leaf_run(t, k, q) && open_depth(t.take(k)) == open_depth(
                    t.take(p),
                ) + 1);
        lemma_extends_take(s, t, p);
        lemma_extends_take(s, t, p + 1);
        lemma_extends_take(s, t, q);
        lemma_extends_take(s, t, q + 1);
        assert forall|i: int| p + 1 <= i < q implies open_depth(#[trigger] s.take(i)) >= open_depth(
            s.take(p),
        ) + 1 by {
            lemma_extends_take(s, t, i);
        }
        assert(closes_at(s, p, q));
        assert forall|i: int, j: int|
            #![trigger s[i], s[j]]
            p < i < q && p < j < q && s[i] == Stick::LeafSpawn && s[j] == Stick::LeafSpawn
                && open_depth(s.take(i)) == open_depth(s.take(p)) + 1 && open_depth(s.take(j))
                == open_depth(s.take(p)) + 1 implies i == j by {
            lemma_extends_take(s, t, i);
            lemma_extends_take(s, t, j);
            assert(t[i] == s[i] && t[j] == s[j]);
        }
        if !c.b.allow_dead_branches {
            let k = choose|k: int|
                p < k && #[trigger] leaf_run(t, k, q) && open_depth(t.take(k)) == open_depth(
                    t.take(p),
                ) + 1;
            lemma_extends_take(s, t, k);
            assert(leaf_run(s, k, q));
        }
    }
}

/// Appending sticks that open no branch keeps every branch scope as stated.
proof fn lemma_scopes_extend(s: Seq<Stick>, t: Seq<Stick>, a: int, c: Config)
    requires
        extends(s, t),
        0 <= a <= t.len(),
        forall|p: int| a <= p < t.len() ==> branch_scope_ok(t, p, c),
        forall|p: int| t.len() <= p < s.len() ==> s[p] != Stick::BranchIndicator,
    ensures
        forall|p: int| a <= p < s.len() ==> branch_scope_ok(s, p, c),
{
    assert forall|p: int| a <= p < s.len() implies branch_scope_ok(s, p, c) by {
        if p < t.len() {
            lemma_scope_extends(s, t, p, c);
        }
    }
}

/// Generates the leaf clusters at the end of a branch: `LeafSpawn`, then
/// leaves and returns to the leaf origin, until leaf mode ends.
///
/// The returns to the leaf origin number at most `max_leaflets`, and at
/// least `min_leaflets` unless the tree's stick budget is spent: once it is,
/// leaf mode may end early, so that no leaf ever exceeds the budget.
fn gen_leaves(rng: &mut ThreadRng, stats: &mut Stats, conf: &Config, out: &mut Vec<Stick>)
    requires
        conf.wf(),
        tracks(old(out)@, *old(stats), *conf),
        !old(stats).b.is_leaf_state,
        old(stats).b.num_leaves_in_leaflet == 0,
        old(stats).b.num_leaflets == 0,
        old(stats).b.num_leaves <= old(stats).b.num_sticks,
        old(stats).b.num_sticks <= old(stats).t.num_sticks,
    ensures
        tracks(final(out)@, *final(stats), *conf),
        final(stats).t.num_sticks >= old(stats).t.num_sticks,
        final(stats).t.branch_depth == old(stats).t.branch_depth,
        final(stats).t.has_branched == old(stats).t.has_branched,
        final(stats).t.height == old(stats).t.height,
        final(stats).b == (BranchStats {
            num_sticks: final(stats).b.num_sticks,
            num_leaves: final(stats).b.num_leaves,
            ..old(stats).b
        }),
        final(stats).b.num_leaves <= final(stats).b.num_sticks,
        final(stats).b.num_sticks - old(stats).b.num_sticks == final(stats).t.num_sticks - old(
            stats,
        ).t.num_sticks,
        forall|d: int| #[trigger] level_moves(final(out)@, d) == level_moves(old(out)@, d),
        extends(final(out)@, old(out)@),
        leaf_run(final(out)@, old(out)@.len() as int, final(out)@.len() as int),
        nested_from(final(out)@, old(out)@.len() as int, old(stats).t.branch_depth as int),
        count_of(final(out)@, Stick::LeafReturn) - count_of(old(out)@, Stick::LeafReturn)
            <= conf.b.max_leaflets,
        count_of(final(out)@, Stick::LeafReturn) - count_of(old(out)@, Stick::LeafReturn)
            >= conf.b.min_leaflets || final(stats).t.num_sticks == conf.t.max_sticks,
        clusters_within(
            final(out)@,
            old(out)@.len() as int,
            conf.b.min_leaves_in_leaflet as int,
            conf.b.max_leaves_in_leaflet as int,
        ),
        trailing_leaves(final(out)@) <= conf.b.max_leaves_in_leaflet,
        trailing_leaves(final(out)@) >= conf.b.min_leaves_in_leaflet || final(stats).t.num_sticks
            == conf.t.max_sticks,
{
    let ghost start = *stats;
    let ghost start_out = out@;
    loop
        invariant
            conf.wf(),
            start == *old(stats),
            !start.b.is_leaf_state,
            start.b.num_leaves_in_leaflet == 0,
            start.b.num_leaflets == 0,
            tracks(out@, *stats, *conf),
            stats.b.is_leaf_state ==> leaf_armed(out@),
            stats.b.num_leaves_in_leaflet <= conf.b.max_leaves_in_leaflet,
            stats.b.num_leaflets <= conf.b.max_leaflets,
            stats.b.num_leaves <= stats.b.num_sticks,
            stats.b.num_sticks <= stats.t.num_sticks,
            stats.t.num_sticks >= start.t.num_sticks,
            stats.t.branch_depth == start.t.branch_depth,
            stats.t.has_branched == start.t.has_branched,
            stats.t.height == start.t.height,
            stats.b.height == start.b.height,
            stats.b.num_sticks - start.b.num_sticks == stats.t.num_sticks - start.t.num_sticks,
            start_out == old(out)@,
            forall|d: int| #[trigger] level_moves(out@, d) == level_moves(start_out, d),
            extends(out@, start_out),
            !stats.b.is_leaf_state ==> out@ == start_out,
            stats.b.is_leaf_state ==> leaf_run(out@, start_out.len() as int, out@.len() as int),
            nested_from(out@, start_out.len() as int, start.t.branch_depth as int),
            count_of(out@, Stick::LeafReturn) == count_of(start_out, Stick::LeafReturn)
                + stats.b.num_leaflets,
            stats.b.is_leaf_state ==> trailing_leaves(out@) == stats.b.num_leaves_in_leaflet,
            !stats.b.is_leaf_state ==> stats.b.num_leaves_in_leaflet == 0,
            clusters_within(
                out@,
                start_out.len() as int,
                conf.b.min_leaves_in_leaflet as int,
                conf.b.max_leaves_in_leaflet as int,
            ),
        decreases
            (if stats.b.is_leaf_state {
                0int
            } else {
                1int
            }),
            conf.b.max_leaflets - stats.b.num_leaflets,
            conf.b.max_leaves_in_leaflet - stats.b.num_leaves_in_leaflet,
    {
        let ghost prev = *stats;
        match gen_leaf_stick_or_stop(rng, stats, conf) {
            Some(k) => {
                proof {
                    if prev.b.is_leaf_state {
                        assert(leaf_options(prev, *conf).contains(Some(k)));
                        let i = choose|i: int|
                            0 <= i < leaf_options(prev, *conf).len() && leaf_options(prev, *conf)[i]
                                == Some(k);
                        assert(k == Stick::LeafReturn || is_leaf_move(k));
                        if !is_control(k) {
                            assert(prev.t.num_sticks < conf.t.max_sticks);
                        }
                    }
                }
                let ghost before = out@;
                emit(out, k);
                proof {
                    assert forall|i: int|
                        start_out.len() <= i < out@.len() implies open_depth(#[trigger] out@.take(i))
                        >= start.t.branch_depth by {
                        if i < before.len() {
                            lemma_extends_take(out@, before, i);
                        }
                    }
                    assert(out@.drop_last() =~= before);
                    assert forall|i: int|
                        start_out.len() <= i < out@.len() && out@[i] == Stick::LeafReturn implies conf.b.min_leaves_in_leaflet <= trailing_leaves(
                        #[trigger] out@.take(i),
                    ) <= conf.b.max_leaves_in_leaflet by {
                        if i < before.len() {
                            lemma_extends_take(out@, before, i);
                        } else {
                            assert(out@.take(i) =~= before);
                        }
                    }
                }
            },
            None => {
                proof {
                    assert(leaf_options(prev, *conf).contains(None));
                    let i = choose|i: int|
                        0 <= i < leaf_options(prev, *conf).len() && leaf_options(prev, *conf)[i]
                            == None::<Stick>;
                    assert(prev.b.num_leaflets >= conf.b.min_leaflets || prev.t.num_sticks
                        >= conf.t.max_sticks);
                }
                stats.b.is_leaf_state = false;
                stats.b.num_leaves_in_leaflet = 0;
                stats.b.num_leaflets = 0;
                return ;
            },
        }
    }
}

/// Appending keeps every `LeafSpawn` from `a` on deeper than `d` when the
/// appended ones are.
proof fn lemma_spawns_extend(s: Seq<Stick>, t: Seq<Stick>, a: int, d: int)
    requires
        extends(s, t),
        0 <= a <= t.len(),
        spawns_deeper(t, a, d),
        forall|i: int|
            t.len() <= i < s.len() && s[i] == Stick::LeafSpawn ==> open_depth(#[trigger] s.take(i))
                > d,
    ensures
        spawns_deeper(s, a, d),
{
    assert forall|i: int| a <= i < s.len() && s[i] == Stick::LeafSpawn implies open_depth(
        #[trigger] s.take(i),
    ) > d by {
        if i < t.len() {
            lemma_extends_take(s, t, i);
        }
    }
}

/// When a branch closes, the only `LeafSpawn` at its own level is the one
/// its leaf clusters begin with, if any.
proof fn lemma_spawns_at_close(s: Seq<Stick>, t: Seq<Stick>, a: int, d: int, kl: int)
    requires
        extends(s, t),
        0 <= a <= t.len(),
        spawns_deeper(t, a, d),
        forall|i: int| t.len() <= i < s.len() - 1 && #[trigger] s[i] == Stick::LeafSpawn ==> i == kl,
    ensures
        forall|i: int|
            a <= i < s.len() - 1 && s[i] == Stick::LeafSpawn && open_depth(#[trigger] s.take(i))
                == d ==> i == kl,
{
    assert forall|i: int|
        a <= i < s.len() - 1 && s[i] == Stick::LeafSpawn && open_depth(#[trigger] s.take(i))
            == d implies i == kl by {
        if i < t.len() {
            lemma_extends_take(s, t, i);
            assert(t[i] == s[i]);
        }
    }
}

/// Joining two stretches whose leaf clusters are within bounds.
proof fn lemma_clusters_join(s: Seq<Stick>, t: Seq<Stick>, a: int, lo: int, hi: int)
    requires
        extends(s, t),
        0 <= a <= t.len(),
        clusters_within(t, a, lo, hi),
        clusters_within(s, t.len() as int, lo, hi),
    ensures
        clusters_within(s, a, lo, hi),
{
    assert forall|i: int| a <= i < s.len() && s[i] == Stick::LeafReturn implies lo
        <= trailing_leaves(#[trigger] s.take(i)) <= hi by {
        if i < t.len() {
            lemma_extends_take(s, t, i);
        }
    }
}

/// A `LeafSpawn` at `i` begins a run of leaves and returns to the leaf
/// origin that the `BranchReturn` of its own scope ends; a leaf or a return
/// at `i` lies in such a run.
pub open spec fn leaf_placed(s: Seq<Stick>, i: int) -> bool {
    &&& s[i] == Stick::LeafSpawn ==> exists|q: int|
        i < q < s.len() && #[trigger] leaf_run(s, i, q) && s[q] == Stick::BranchReturn && open_depth(
            s.take(q),
        ) == open_depth(s.take(i))
    &&& is_leaf_part(s[i]) ==> exists|k: int| 0 <= k < i && #[trigger] leaf_run(s, k, i + 1)
}

/// What `leaf_placed` states survives appending.
proof fn lemma_leaf_placed_extends(s: Seq<Stick>, t: Seq<Stick>, i: int)
    requires
        extends(s, t),
        0 <= i < t.len(),
        leaf_placed(t, i),
    ensures
        leaf_placed(s, i),
{
    if t[i] == Stick::LeafSpawn {
        let q = choose|q: int|
            i < q < t.len() && #[trigger] leaf_run(t, i, q) && t[q] == Stick::BranchReturn
                && open_depth(t.take(q)) == open_depth(t.take(i));
        lemma_extends_take(s, t, q);
        lemma_extends_take(s, t, i);
        assert(leaf_run(s, i, q));
    }
    if is_leaf_part(t[i]) {
        let k = choose|k: int| 0 <= k < i && #[trigger] leaf_run(t, k, i + 1);
        assert(leaf_run(s, k, i + 1));
    }
}

/// Joining two stretches in which every leaf stick is placed.
proof fn lemma_leaves_join(s: Seq<Stick>, t: Seq<Stick>, a: int)
    requires
        extends(s, t),
        0 <= a <= t.len(),
        forall|i: int| a <= i < t.len() ==> leaf_placed(t, i),
        forall|i: int| t.len() <= i < s.len() ==> leaf_placed(s, i),
    ensures
        forall|i: int| a <= i < s.len() ==> leaf_placed(s, i),
{
    assert forall|i: int| a <= i < s.len() implies leaf_placed(s, i) by {
        if i < t.len() {
            lemma_leaf_placed_extends(s, t, i);
        }
    }
}

/// A leaf section from `k` on, closed by the `BranchReturn` that ends `s`
/// at the section's own depth, places every leaf stick in it.
proof fn lemma_leaf_section(s: Seq<Stick>, k: int)
    requires
        s.len() >= 1,
        leaf_run(s, k, s.len() - 1),
        s.last() == Stick::BranchReturn,
        open_depth(s.take(s.len() - 1)) == open_depth(s.take(k)),
    ensures
        forall|i: int| k <= i < s.len() ==> leaf_placed(s, i),
{
    assert forall|i: int| k <= i < s.len() implies leaf_placed(s, i) by {
        if i == k {
            assert(leaf_run(s, k, s.len() - 1));
        } else if i < s.len() - 1 {
            assert(is_leaf_part(s[i]));
            assert(leaf_run(s, k, i + 1));
        }
    }
}

/// A branch whose opening `BranchIndicator` ends `start` and whose
/// `BranchReturn` ends `s` meets what `branch_scope_ok` states of it.
proof fn lemma_close_scope(s: Seq<Stick>, start: Seq<Stick>, d: int, kl: int, c: Config)
    requires
        start.len() >= 1,
        start.last() == Stick::BranchIndicator,
        open_depth(start) == d,
        s.len() >= start.len() + 1,
        extends(s, start),
        s.last() == Stick::BranchReturn,
        open_depth(s.drop_last()) == d,
        nested_from(s, start.len() as int, d),
        level_moves(s.drop_last(), d) - level_moves(start, d) <= c.b.max_sticks,
        level_moves(s.drop_last(), d) - level_moves(start, d) >= c.b.min_sticks || movement_count(s)
            == c.t.max_sticks,
        !c.b.allow_dead_branches ==> exists|k: int|
            start.len() <= k && #[trigger] leaf_run(s, k, s.len() - 1) && open_depth(s.take(k)) == d,
        forall|i: int|
            start.len() <= i < s.len() - 1 && s[i] == Stick::LeafSpawn && open_depth(
                #[trigger] s.take(i),
            ) == d ==> i == kl,
    ensures
        branch_scope_ok(s, start.len() - 1, c),
{
    let p = start.len() - 1;
    let q = s.len() - 1;
    lemma_extends_take(s, start, p);
    lemma_extends_take(s, start, p + 1);
    assert(start.take(p) =~= start.drop_last());
    assert(start.take(p + 1) =~= start);
    assert(s.take(q) =~= s.drop_last());
    assert(s.take(q + 1) =~= s);
    assert(open_depth(s.take(p)) == d - 1);
    assert(closes_at(s, p, q));
    assert(one_own_spawn(s, p, q));
    if !c.b.allow_dead_branches {
        let k = choose|k: int|
            start.len() <= k && #[trigger] leaf_run(s, k, s.len() - 1) && open_depth(s.take(k)) == d;
        assert(p < k && leaf_run(s, k, q));
    }
}

/// Generates the rest of a branch whose `BranchIndicator` was just placed:
/// sticks and nested branches until the branch stops, or reaches its own
/// maximum or the tree's budget; then its leaves, unless it ends dead; then
/// its `BranchReturn`. The branch places at least one stick.
///
/// The branch movements that belong to this branch itself, those placed at
/// its nesting level, number at most the branch maximum, and at least the
/// branch minimum unless the tree's stick budget ran out; shallower levels
/// are left untouched.
fn gen_branches(rng: &mut ThreadRng, stats: &mut Stats, conf: &Config, out: &mut Vec<Stick>)
    requires
        conf.wf(),
        tracks(old(out)@, *old(stats), *conf),
        old(stats).t.branch_depth >= 1,
        old(stats).t.has_branched,
        old(stats).b == BranchStats::zero(),
        old(stats).t.num_sticks < conf.t.max_sticks,
        old(stats).t.branch_depth <= old(stats).t.num_sticks + 1,
        old(out)@.len() >= 1,
        old(out)@.last() == Stick::BranchIndicator,
    ensures
        tracks(final(out)@, *final(stats), *conf),
        final(stats).t.branch_depth == old(stats).t.branch_depth - 1,
        final(stats).t.num_sticks > old(stats).t.num_sticks,
        branch_scope_ok(final(out)@, old(out)@.len() - 1, *conf),
        forall|i: int| old(out)@.len() <= i < final(out)@.len() ==> leaf_placed(final(out)@, i),
        clusters_within(
            final(out)@,
            old(out)@.len() as int,
            conf.b.min_leaves_in_leaflet as int,
            conf.b.max_leaves_in_leaflet as int,
        ),
        forall|p: int|
            old(out)@.len() <= p < final(out)@.len() ==> branch_scope_ok(final(out)@, p, *conf),
        final(stats).t.has_branched,
        final(stats).t.height == old(stats).t.height,
        forall|d: int|
            d < old(stats).t.branch_depth ==> #[trigger] level_moves(final(out)@, d) == level_moves(
                old(out)@,
                d,
            ),
        level_moves(final(out)@, old(stats).t.branch_depth as int) - level_moves(
            old(out)@,
            old(stats).t.branch_depth as int,
        ) <= conf.b.max_sticks,
        level_moves(final(out)@, old(stats).t.branch_depth as int) - level_moves(
            old(out)@,
            old(stats).t.branch_depth as int,
        ) >= conf.b.min_sticks || final(stats).t.num_sticks == conf.t.max_sticks,
        extends(final(out)@, old(out)@),
        final(out)@.len() > old(out)@.len(),
        final(out)@.last() == Stick::BranchReturn,
        nested_from(final(out)@, old(out)@.len() as int, old(stats).t.branch_depth as int),
        !conf.b.allow_dead_branches ==> exists|k: int|
            old(out)@.len() <= k && #[trigger] leaf_run(
                final(out)@,
                k,
                final(out)@.len() - 1,
            ) && open_depth(final(out)@.take(k)) == old(stats).t.branch_depth,
    decreases conf.t.max_sticks - old(stats).t.num_sticks, 0int,
{
    let ghost start = *stats;
    let ghost start_out = out@;
    let ghost lvl = start.t.branch_depth as int;
    while stats.b.num_sticks < conf.b.max_sticks && stats.t.num_sticks < conf.t.max_sticks
        invariant
            conf.wf(),
            start == *old(stats),
            tracks(out@, *stats, *conf),
            start.t.branch_depth >= 1,
            start.t.num_sticks < conf.t.max_sticks,
            start.t.branch_depth <= start.t.num_sticks + 1,
            stats.t.branch_depth == start.t.branch_depth,
            stats.t.has_branched,
            stats.t.height == start.t.height,
            stats.b == (BranchStats { num_sticks: stats.b.num_sticks, ..BranchStats::zero() }),
            stats.t.num_sticks >= start.t.num_sticks + stats.b.num_sticks,
            start_out == old(out)@,
            lvl == start.t.branch_depth,
            forall|d: int| d < lvl ==> #[trigger] level_moves(out@, d) == level_moves(start_out, d),
            level_moves(out@, lvl) == level_moves(start_out, lvl) + stats.b.num_sticks,
            stats.b.num_sticks <= conf.b.max_sticks,
            extends(out@, start_out),
            nested_from(out@, start_out.len() as int, lvl),
            start_out.len() >= 1,
            start_out.last() == Stick::BranchIndicator,
            open_depth(start_out) == lvl,
            spawns_deeper(out@, start_out.len() as int, lvl),
            forall|i: int| start_out.len() <= i < out@.len() ==> leaf_placed(out@, i),
            clusters_within(
                out@,
                start_out.len() as int,
                conf.b.min_leaves_in_leaflet as int,
                conf.b.max_leaves_in_leaflet as int,
            ),
            forall|p: int| start_out.len() <= p < out@.len() ==> branch_scope_ok(out@, p, *conf),
        decreases conf.t.max_sticks - stats.t.num_sticks,
    {
        let ghost prev = *stats;
        let chosen = gen_branch_stick_or_stop(rng, stats, conf);
        proof {
            let i = choose|i: int|
                0 <= i < branch_options(prev, *conf).len() && branch_options(prev, *conf)[i]
                    == chosen;
        }
        let ghost before = out@;
        match chosen {
            Some(Stick::BranchIndicator) => {
                branch(rng, stats, conf, out);
                proof {
                    lemma_nested_join(out@, before, start_out.len() as int, lvl);
                    assert forall|i: int|
                        before.len() <= i < out@.len() && out@[i] == Stick::LeafSpawn implies open_depth(
                        #[trigger] out@.take(i),
                    ) > lvl by {
                        if i > before.len() {
                            assert(open_depth(out@.take(i)) >= lvl + 1);
                        }
                    }
                    lemma_spawns_extend(out@, before, start_out.len() as int, lvl);
                    lemma_clusters_join(
                        out@,
                        before,
                        start_out.len() as int,
                        conf.b.min_leaves_in_leaflet as int,
                        conf.b.max_leaves_in_leaflet as int,
                    );
                    lemma_leaves_join(out@, before, start_out.len() as int);
                    assert forall|p: int| start_out.len() <= p < out@.len() implies branch_scope_ok(
                        out@,
                        p,
                        *conf,
                    ) by {
                        if p < before.len() {
                            lemma_scope_extends(out@, before, p, *conf);
                        }
                    }
                }
            },
            Some(Stick::BranchReturn) => {
                emit(out, Stick::BranchReturn);
                proof {
                    lemma_nested_push(out@, before, start_out.len() as int, lvl);
                    lemma_scopes_extend(out@, before, start_out.len() as int, *conf);
                    assert(out@.drop_last() =~= before);
                    lemma_clusters_join(
                        out@,
                        before,
                        start_out.len() as int,
                        conf.b.min_leaves_in_leaflet as int,
                        conf.b.max_leaves_in_leaflet as int,
                    );
                    lemma_spawns_at_close(out@, before, start_out.len() as int, lvl, -1);
                    lemma_leaves_join(out@, before, start_out.len() as int);
                    lemma_close_scope(out@, start_out, lvl, -1, *conf);
                }
                return ;
            },
            Some(k) => {
                emit(out, k);
                proof {
                    lemma_nested_push(out@, before, start_out.len() as int, lvl);
                    lemma_scopes_extend(out@, before, start_out.len() as int, *conf);
                    lemma_spawns_extend(out@, before, start_out.len() as int, lvl);
                    lemma_clusters_join(
                        out@,
                        before,
                        start_out.len() as int,
                        conf.b.min_leaves_in_leaflet as int,
                        conf.b.max_leaves_in_leaflet as int,
                    );
                    lemma_leaves_join(out@, before, start_out.len() as int);
                }
            },
            None => {
                let ghost k = out@.len() as int;
                gen_leaves(rng, stats, conf, out);
                let ghost with_leaves = out@;
                emit(out, Stick::BranchReturn);
                proof {
                    lemma_nested_join(with_leaves, before, start_out.len() as int, lvl);
                    lemma_nested_push(out@, with_leaves, start_out.len() as int, lvl);
                    lemma_extends_take(out@, before, k);
                    assert(before.take(k) =~= before);
                    assert(leaf_run(out@, k, out@.len() - 1));
                    lemma_scopes_extend(with_leaves, before, start_out.len() as int, *conf);
                    lemma_scopes_extend(out@, with_leaves, start_out.len() as int, *conf);
                    assert(out@.drop_last() =~= with_leaves);
                    lemma_spawns_at_close(out@, before, start_out.len() as int, lvl, k);
                    assert(out@.take(out@.len() - 1) =~= with_leaves);
                    lemma_leaf_section(out@, k);
                    lemma_leaves_join(out@, before, start_out.len() as int);
                    lemma_clusters_join(
                        with_leaves,
                        before,
                        start_out.len() as int,
                        conf.b.min_leaves_in_leaflet as int,
                        conf.b.max_leaves_in_leaflet as int,
                    );
                    lemma_clusters_join(
                        out@,
                        with_leaves,
                        start_out.len() as int,
                        conf.b.min_leaves_in_leaflet as int,
                        conf.b.max_leaves_in_leaflet as int,
                    );
                }
                stats.sub_one_branch();
                proof {
                    lemma_close_scope(out@, start_out, lvl, k, *conf);
                }
                return ;
            },
        }
    }
    let ghost k = out@.len() as int;
    let ghost before_leaves = out@;
    if !conf.b.allow_dead_branches {
        gen_leaves(rng, stats, conf, out);
    }
    let ghost with_leaves = out@;
    emit(out, Stick::BranchReturn);
    proof {
        if !conf.b.allow_dead_branches {
            lemma_nested_join(with_leaves, before_leaves, start_out.len() as int, lvl);
        }
        lemma_nested_push(out@, with_leaves, start_out.len() as int, lvl);
        if !conf.b.allow_dead_branches {
            lemma_extends_take(out@, before_leaves, k);
            assert(before_leaves.take(k) =~= before_leaves);
            assert(leaf_run(out@, k, out@.len() - 1));
            lemma_scopes_extend(with_leaves, before_leaves, start_out.len() as int, *conf);
        }
        lemma_scopes_extend(out@, with_leaves, start_out.len() as int, *conf);
        assert(out@.drop_last() =~= with_leaves);
        lemma_spawns_at_close(out@, before_leaves, start_out.len() as int, lvl, k);
        if !conf.b.allow_dead_branches {
            assert(out@.take(out@.len() - 1) =~= with_leaves);
            lemma_leaf_section(out@, k);
        }
        lemma_leaves_join(out@, before_leaves, start_out.len() as int);
        if !conf.b.allow_dead_branches {
            lemma_clusters_join(
                with_leaves,
                before_leaves,
                start_out.len() as int,
                conf.b.min_leaves_in_leaflet as int,
                conf.b.max_leaves_in_leaflet as int,
            );
        }
        lemma_clusters_join(
            out@,
            with_leaves,
            start_out.len() as int,
            conf.b.min_leaves_in_leaflet as int,
            conf.b.max_leaves_in_leaflet as int,
        );
    }
    stats.sub_one_branch();
    proof {
        lemma_close_scope(out@, start_out, lvl, k, *conf);
    }
}

/// Places a `BranchIndicator` and generates the nested branch behind it,
/// with fresh branch counters; the current branch's counters are restored
/// afterwards, so that siblings never see each other's progress.
fn branch(rng: &mut ThreadRng, stats: &mut Stats, conf: &Config, out: &mut Vec<Stick>)
    requires
        conf.wf(),
        well_nested(old(out)@),
        movement_count(old(out)@) == old(stats).t.num_sticks,
        open_depth(old(out)@) + 1 == old(stats).t.branch_depth,
        old(stats).t.branch_depth >= 1,
        old(stats).t.has_branched,
        old(stats).t.num_sticks < conf.t.max_sticks,
        old(stats).t.branch_depth <= old(stats).t.num_sticks + 1,
    ensures
        tracks(final(out)@, *final(stats), *conf),
        final(stats).b == old(stats).b,
        final(stats).t.branch_depth == old(stats).t.branch_depth - 1,
        final(stats).t.num_sticks > old(stats).t.num_sticks,
        final(stats).t.has_branched,
        final(stats).t.height == old(stats).t.height,
        forall|d: int|
            d < old(stats).t.branch_depth ==> #[trigger] level_moves(final(out)@, d) == level_moves(
                old(out)@,
                d,
            ),
        extends(final(out)@, old(out)@),
        final(out)@.len() > old(out)@.len() + 1,
        final(out)@[old(out)@.len() as int] == Stick::BranchIndicator,
        final(out)@.last() == Stick::BranchReturn,
        nested_from(final(out)@, old(out)@.len() as int, old(stats).t.branch_depth - 1),
        nested_from(final(out)@, old(out)@.len() + 1int, old(stats).t.branch_depth as int),
        forall|p: int|
            old(out)@.len() <= p < final(out)@.len() ==> branch_scope_ok(final(out)@, p, *conf),
        clusters_within(
            final(out)@,
            old(out)@.len() as int,
            conf.b.min_leaves_in_leaflet as int,
            conf.b.max_leaves_in_leaflet as int,
        ),
        forall|i: int| old(out)@.len() <= i < final(out)@.len() ==> leaf_placed(final(out)@, i),
    decreases conf.t.max_sticks - old(stats).t.num_sticks, 1int,
{
    let ghost start_out = out@;
    emit(out, Stick::BranchIndicator);
    let ghost opened = out@;
    proof {
        assert(nested_from(start_out, start_out.len() as int, old(stats).t.branch_depth - 1));
        lemma_nested_push(opened, start_out, start_out.len() as int, old(stats).t.branch_depth - 1);
    }
    let current_branch_stats = stats.b;
    stats.b = BranchStats::new();
    gen_branches(rng, stats, conf, out);
    proof {
        lemma_nested_join(out@, opened, start_out.len() as int, old(stats).t.branch_depth - 1);
        lemma_leaves_join(out@, opened, start_out.len() as int);
        lemma_clusters_join(
            out@,
            opened,
            start_out.len() as int,
            conf.b.min_leaves_in_leaflet as int,
            conf.b.max_leaves_in_leaflet as int,
        );
    }
    stats.b = current_branch_stats;
}

/// Generates the trunk, with the branches that spring from it, until it
/// stops, reaches its maximum height, or the tree's budget is spent.
///
/// The trunk's height is the number of branch movements outside every
/// branch scope; it is at most `max_trunk_height`, and at least
/// `min_trunk_height` unless the stick budget ran out. Outside every scope
/// stand only branch movements and `BranchIndicator`s.
fn gen_trunk(rng: &mut ThreadRng, stats: &mut Stats, conf: &Config, out: &mut Vec<Stick>)
    requires
        conf.wf(),
        old(stats).is_fresh(),
        old(out)@.len() == 0,
    ensures
        well_formed(final(out)@),
        movement_count(final(out)@) == final(stats).t.num_sticks,
        final(stats).t.num_sticks <= conf.t.max_sticks,
        conf.t.min_sticks <= conf.t.max_trunk_height ==> final(stats).t.num_sticks
            >= conf.t.min_sticks,
        conf.t.max_sticks == 0 ==> final(out)@.len() == 0,
        final(stats).t.branch_depth == 0,
        final(stats).t.has_branched == final(out)@.contains(Stick::BranchIndicator),
        level_moves(final(out)@, 0) == final(stats).b.height,
        final(stats).b.height <= conf.t.max_trunk_height,
        final(stats).b.height >= conf.t.min_trunk_height || final(stats).t.num_sticks
            == conf.t.max_sticks,
        trunk_level_clean(final(out)@),
        forall|p: int| 0 <= p < final(out)@.len() ==> branch_scope_ok(final(out)@, p, *conf),
        clusters_within(
            final(out)@,
            0,
            conf.b.min_leaves_in_leaflet as int,
            conf.b.max_leaves_in_leaflet as int,
        ),
        forall|i: int| 0 <= i < final(out)@.len() ==> leaf_placed(final(out)@, i),
{
    while stats.b.height < conf.t.max_trunk_height && stats.t.num_sticks < conf.t.max_sticks
        invariant
            conf.wf(),
            tracks(out@, *stats, *conf),
            stats.t.branch_depth == 0,
            stats.b.height <= stats.b.num_sticks,
            stats.b.num_sticks <= stats.t.num_sticks,
            conf.t.max_sticks == 0 ==> out@.len() == 0,
            stats.t.has_branched == out@.contains(Stick::BranchIndicator),
            level_moves(out@, 0) == stats.b.height,
            stats.b.height <= conf.t.max_trunk_height,
            trunk_level_clean(out@),
            forall|p: int| 0 <= p < out@.len() ==> branch_scope_ok(out@, p, *conf),
            clusters_within(
                out@,
                0,
                conf.b.min_leaves_in_leaflet as int,
                conf.b.max_leaves_in_leaflet as int,
            ),
            forall|i: int| 0 <= i < out@.len() ==> leaf_placed(out@, i),
        decreases conf.t.max_sticks - stats.t.num_sticks,
    {
        let ghost prev = *stats;
        let ghost before = out@;
        let chosen = gen_trunk_stick_or_stop(rng, stats, conf);
        proof {
            let i = choose|i: int|
                0 <= i < trunk_options(prev, *conf).len() && trunk_options(prev, *conf)[i]
                    == chosen;
        }
        match chosen {
            Some(Stick::BranchIndicator) => {
                branch(rng, stats, conf, out);
                proof {
                    let n = before.len() as int;
                    assert(out@[n] == Stick::BranchIndicator);
                    assert(out@.contains(Stick::BranchIndicator));
                    lemma_clusters_join(
                        out@,
                        before,
                        0,
                        conf.b.min_leaves_in_leaflet as int,
                        conf.b.max_leaves_in_leaflet as int,
                    );
                    lemma_leaves_join(out@, before, 0);
                    assert forall|p: int| 0 <= p < out@.len() implies branch_scope_ok(
                        out@,
                        p,
                        *conf,
                    ) by {
                        if p < n {
                            lemma_scope_extends(out@, before, p, *conf);
                        }
                    }
                    assert forall|i: int|
                        0 <= i < out@.len() && open_depth(#[trigger] out@.take(i)) == 0 implies is_branch_move(
                        out@[i],
                    ) || out@[i] == Stick::BranchIndicator by {
                        if i < n {
                            lemma_extends_take(out@, before, i);
                        }
                    }
                }
            },
            Some(k) => {
                emit(out, k);
                proof {
                    let n = before.len() as int;
                    assert(is_branch_move(k));
                    lemma_scopes_extend(out@, before, 0, *conf);
                    lemma_clusters_join(
                        out@,
                        before,
                        0,
                        conf.b.min_leaves_in_leaflet as int,
                        conf.b.max_leaves_in_leaflet as int,
                    );
                    lemma_leaves_join(out@, before, 0);
                    assert forall|i: int|
                        0 <= i < out@.len() && open_depth(#[trigger] out@.take(i)) == 0 implies is_branch_move(
                        out@[i],
                    ) || out@[i] == Stick::BranchIndicator by {
                        if i < n {
                            lemma_extends_take(out@, before, i);
                        }
                    }
                    if !before.contains(Stick::BranchIndicator) {
                        assert forall|i: int| 0 <= i < out@.len() implies out@[i]
                            != Stick::BranchIndicator by {
                            if i < n {
                                assert(out@[i] == before[i]);
                            }
                        }
                    } else {
                        let j = choose|j: int| 0 <= j < before.len() && before[j] == Stick::BranchIndicator;
                        assert(out@[j] == before[j]);
                    }
                }
            },
            None => {
                return ;
            },
        }
    }
}

/// What every tree string generated under `c` satisfies: it encodes a
/// well-formed stick sequence whose movement sticks, leaves included, number
/// at most `max_sticks`, and at least `min_sticks` where a trunk of maximum
/// height alone would hold that many; with `max_sticks` zero it is empty;
/// every branch scope in it is as `branch_scope_ok` states; and every leaf
/// cluster closed by a `LeafReturn` holds between the cluster minimum and
/// maximum of leaves; and every leaf stick is placed as `leaf_placed` states.
pub open spec fn fits_config(cs: Seq<char>, c: Config) -> bool {
    &&& all_glyphs(cs)
    &&& well_formed(decode_all(cs))
    &&& movement_count(decode_all(cs)) <= c.t.max_sticks
    &&& c.t.min_sticks <= c.t.max_trunk_height ==> movement_count(decode_all(cs)) >= c.t.min_sticks
    &&& c.t.max_sticks == 0 ==> cs.len() == 0
    &&& forall|p: int| 0 <= p < cs.len() ==> branch_scope_ok(decode_all(cs), p, c)
    &&& clusters_within(
        decode_all(cs),
        0,
        c.b.min_leaves_in_leaflet as int,
        c.b.max_leaves_in_leaflet as int,
    )
    &&& forall|i: int| 0 <= i < cs.len() ==> leaf_placed(decode_all(cs), i)
}

/// Generates a tree string under the bounds of `conf`, drawing from `rng`;
/// `stats` ends up holding the run's counters.
pub fn gen(rng: &mut ThreadRng, stats: &mut Stats, conf: &Config) -> (r: String)
    requires
        conf.wf(),
        old(stats).is_fresh(),
    ensures
        fits_config(r@, *conf),
        movement_count(decode_all(r@)) == final(stats).t.num_sticks,
        final(stats).t.branch_depth == 0,
        final(stats).t.has_branched == decode_all(r@).contains(Stick::BranchIndicator),
        level_moves(decode_all(r@), 0) == final(stats).b.height,
        final(stats).b.height <= conf.t.max_trunk_height,
        final(stats).b.height >= conf.t.min_trunk_height || final(stats).t.num_sticks
            == conf.t.max_sticks,
        trunk_level_clean(decode_all(r@)),
{
    let mut out: Vec<Stick> = Vec::new();
    gen_trunk(rng, stats, conf, &mut out);
    let r = encode(&out);
    proof {
        lemma_decode_encode(out@);
    }
    r
}

} // verus!
