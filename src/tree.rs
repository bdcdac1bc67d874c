use vstd::prelude::*;

use rand::rngs::ThreadRng;

use crate::canvas::{Canvas, Grid};
use crate::error::TreeError;
use crate::point::Point;
use crate::confstats::{Config, Stats};
use crate::lottery::fresh_rng;
use crate::shape::{count_of, leaf_armed, open_depth, well_nested};
use crate::tree_gen::{fits_config, gen};
use crate::sticks::{
    all_glyphs, decode_all, decode_str, displacement, glyph, is_leaf_move, Stick,
};

verus! {

/// A position as a pair of mathematical integers.
pub open spec fn pt(p: Point) -> (int, int) {
    (p.x as int, p.y as int)
}

/// The interpreter's state: the cursor, the positions to return to when
/// branches close (innermost last), the remembered leaf origin, and the
/// canvas painted so far.
pub struct Pen {
    pub cursor: (int, int),
    pub stack: Seq<(int, int)>,
    pub leaf: Option<(int, int)>,
    pub canvas: Grid,
}

/// `g` with `c` written at `p`.
pub open spec fn paint(g: Grid, p: (int, int), c: char) -> Grid {
    g.put(p.0, p.1, c)
}

/// The state before the first stick: cursor at the origin, and the root
/// painted at and below it, a seed with a trunk base and two slanted supports.
pub open spec fn root_pen() -> Pen {
    Pen {
        cursor: (0, 0),
        stack: Seq::empty(),
        leaf: None,
        canvas: paint(
            paint(paint(paint(Grid::empty(), (0, 0), 'O'), (-1, -1), '/'), (0, -1), '|'),
            (1, -1),
            '\\',
        ),
    }
}

/// One stick of interpretation.
pub open spec fn pen_step(p: Pen, k: Stick) -> Result<Pen, TreeError> {
    if k == Stick::BranchIndicator {
        Ok(Pen { stack: p.stack.push(p.cursor), canvas: paint(p.canvas, p.cursor, 'Y'), ..p })
    } else if k == Stick::BranchReturn {
        if p.stack.len() == 0 {
            Err(TreeError::UnbalancedBranch)
        } else {
            Ok(Pen { cursor: p.stack.last(), stack: p.stack.drop_last(), ..p })
        }
    } else if k == Stick::LeafSpawn {
        Ok(Pen { leaf: Some(p.cursor), canvas: paint(p.canvas, p.cursor, 'O'), ..p })
    } else if k == Stick::LeafReturn {
        match p.leaf {
            Some(o) => Ok(Pen { cursor: o, ..p }),
            None => Err(TreeError::UnmatchedLeafClose),
        }
    } else {
        let next = (p.cursor.0 + displacement(k).0, p.cursor.1 + displacement(k).1);
        if is_leaf_move(k) {
            Ok(Pen { cursor: next, canvas: paint(p.canvas, next, '"'), ..p })
        } else if p.canvas.glyph_at(next.0, next.1) == 'Y' || p.canvas.glyph_at(next.0, next.1) == 'O' {
            Ok(Pen { cursor: next, ..p })
        } else {
            Ok(Pen { cursor: next, leaf: None, canvas: paint(p.canvas, next, glyph(k)), ..p })
        }
    }
}

/// The state after interpreting `s` from the root, or the first error.
pub open spec fn interpret(s: Seq<Stick>) -> Result<Pen, TreeError>
    decreases s.len(),
{
    if s.len() == 0 {
        Ok(root_pen())
    } else {
        match interpret(s.drop_last()) {
            Ok(p) => pen_step(p, s.last()),
            Err(e) => Err(e),
        }
    }
}

/// Interpreting a well-nested sequence raises neither `UnbalancedBranch`
/// nor `UnmatchedLeafClose`: it succeeds, with one saved position for each
/// branch still open, and a leaf origin wherever the sequence may close a
/// leaf cluster.
pub proof fn lemma_well_nested_interprets(s: Seq<Stick>)
    requires
        well_nested(s),
    ensures
        interpret(s) is Ok,
        interpret(s)->Ok_0.stack.len() == open_depth(s),
        leaf_armed(s) ==> interpret(s)->Ok_0.leaf is Some,
    decreases s.len(),
{
    if s.len() > 0 {
        lemma_well_nested_interprets(s.drop_last());
    }
}

/// A generated tree string holds as many `BranchIndicator`s as
/// `BranchReturn`s, and interpreting it raises neither `UnbalancedBranch`
/// nor `UnmatchedLeafClose`.
pub proof fn lemma_generated_interprets(cs: Seq<char>, c: Config)
    requires
        fits_config(cs, c),
    ensures
        count_of(decode_all(cs), Stick::BranchIndicator) == count_of(
            decode_all(cs),
            Stick::BranchReturn,
        ),
        interpret(decode_all(cs)) is Ok,
{
    lemma_well_nested_interprets(decode_all(cs));
}

/// A tree generated with a stick budget of zero is empty, and its picture
/// holds the root and nothing else.
pub proof fn lemma_empty_budget(cs: Seq<char>, c: Config)
    requires
        fits_config(cs, c),
        c.t.max_sticks == 0,
    ensures
        cs.len() == 0,
        interpret(decode_all(cs)) == Ok::<Pen, TreeError>(root_pen()),
{
    assert(decode_all(cs).len() == 0);
}

/// Once interpretation fails, it fails the same way whatever follows.
proof fn lemma_error_persists(s: Seq<Stick>, i: int, e: TreeError)
    requires
        0 <= i <= s.len(),
        interpret(s.take(i)) == Err::<Pen, TreeError>(e),
    ensures
        interpret(s) == Err::<Pen, TreeError>(e),
    decreases s.len() - i,
{
    if i == s.len() {
        assert(s.take(i) =~= s);
    } else {
        assert(s.take(i + 1).drop_last() =~= s.take(i));
        lemma_error_persists(s, i + 1, e);
    }
}

/// Every coordinate of `p` lies within `b` of the origin.
pub open spec fn within(p: (int, int), b: int) -> bool {
    -b <= p.0 <= b && -b <= p.1 <= b
}

/// The state `pen` holds the same positions as the interpreter's variables,
/// and all of them lie within `b` of the origin.
pub open spec fn pen_matches(
    pen: Pen,
    cursor: Point,
    points: Seq<Point>,
    leaf: Option<Point>,
    canvas: Canvas,
    b: int,
) -> bool {
    &&& pen.cursor == pt(cursor)
    &&& pen.stack == points.map_values(|q: Point| pt(q))
    &&& pen.leaf == match leaf {
        Some(q) => Some(pt(q)),
        None => None::<(int, int)>,
    }
    &&& canvas.wf()
    &&& canvas.view() == pen.canvas
    &&& within(pen.cursor, b)
    &&& forall|j: int| 0 <= j < pen.stack.len() ==> within(#[trigger] pen.stack[j], b)
    &&& pen.leaf matches Some(o) ==> within(o, b)
}

/// A tree painted on a canvas.
pub struct Fvtree {
    canvas: Canvas,
}

impl Fvtree {
    /// The canvas that holds the picture.
    pub closed spec fn picture(&self) -> Canvas {
        self.canvas
    }

    /// Paints the root below the origin.
    fn put_down_root(canvas: &mut Canvas)
        requires
            old(canvas).wf(),
            old(canvas).view() == Grid::empty(),
        ensures
            final(canvas).wf(),
            final(canvas).view() == root_pen().canvas,
    {
        canvas.put(Point { x: 0, y: 0 }, 'O');
        canvas.put(Point { x: -1, y: -1 }, '/');
        canvas.put(Point { x: 0, y: -1 }, '|');
        canvas.put(Point { x: 1, y: -1 }, '\\');
    }

    /// Decodes `tree` and replays it on a fresh canvas that holds the root.
    /// Fails with `UnrecognizedSymbol` when a character is not a glyph, and
    /// otherwise exactly as `interpret` does; on success the canvas shows
    /// precisely the grid that `interpret` painted, and so renders as its rows.
    pub fn build(tree: &FvtreeString) -> (r: Result<Fvtree, TreeError>)
        requires
            tree.chars().len() <= i32::MAX,
        ensures
            !all_glyphs(tree.chars()) ==> r == Err::<Fvtree, TreeError>(TreeError::UnrecognizedSymbol),
            all_glyphs(tree.chars()) ==> match interpret(decode_all(tree.chars())) {
                Err(e) => r == Err::<Fvtree, TreeError>(e),
                Ok(pen) => r matches Ok(t) && t.picture().wf() && t.picture().view() == pen.canvas,
            },
    {
        let sticks = match decode_str(tree.tree_string.as_str()) {
            Ok(v) => v,
            Err(e) => return Err(e),
        };
        let ghost s = sticks@;
        assert(all_glyphs(tree.chars()) && s == decode_all(tree.chars()));
        let mut canvas = Canvas::new();
        Fvtree::put_down_root(&mut canvas);
        let mut cursor = Point { x: 0, y: 0 };
        let mut branch_points: Vec<Point> = Vec::new();
        let mut leaf_spawn_point: Option<Point> = None;
        let ghost mut pen = root_pen();
        proof {
            assert(s.take(0) =~= Seq::<Stick>::empty());
            assert(branch_points@.map_values(|q: Point| pt(q)) =~= Seq::<(int, int)>::empty());
        }
        let n = sticks.len();
        let mut i: usize = 0;
        while i < n
            invariant
                n == s.len(),
                s == sticks@,
                all_glyphs(tree.chars()),
                s == decode_all(tree.chars()),
                n <= i32::MAX,
                i <= n,
                interpret(s.take(i as int)) == Ok::<Pen, TreeError>(pen),
                pen_matches(pen, cursor, branch_points@, leaf_spawn_point, canvas, i as int),
            decreases n - i,
        {
            let stick = sticks[i];
            let ghost prev = pen;
            proof {
                canvas.lemma_view_glyphs();
            }
            proof {
                assert(s.take(i + 1).drop_last() =~= s.take(i as int));
                assert(s.take(i + 1).last() == stick);
            }
            match stick {
                Stick::BranchIndicator => {
                    canvas.put(cursor, 'Y');
                    branch_points.push(cursor);
                    proof {
                        pen = pen_step(prev, stick)->Ok_0;
                        assert(branch_points@.map_values(|q: Point| pt(q)) =~= pen.stack);
                    }
                },
                Stick::BranchReturn => {
                    match branch_points.pop() {
                        Some(q) => {
                            cursor = q;
                            proof {
                                pen = pen_step(prev, stick)->Ok_0;
                                assert(branch_points@.map_values(|q: Point| pt(q)) =~= pen.stack);
                            }
                        },
                        None => {
                            proof {
                                lemma_error_persists(s, i + 1, TreeError::UnbalancedBranch);
                            }
                            return Err(TreeError::UnbalancedBranch);
                        },
                    }
                },
                Stick::LeafSpawn => {
                    leaf_spawn_point = Some(cursor);
                    canvas.put(cursor, 'O');
                    proof {
                        pen = pen_step(prev, stick)->Ok_0;
                    }
                },
                Stick::LeafReturn => {
                    match leaf_spawn_point {
                        Some(q) => {
                            cursor = q;
                            proof {
                                pen = pen_step(prev, stick)->Ok_0;
                            }
                        },
                        None => {
                            proof {
                                lemma_error_persists(s, i + 1, TreeError::UnmatchedLeafClose);
                            }
                            return Err(TreeError::UnmatchedLeafClose);
                        },
                    }
                },
                _ => {
                    let step = match stick.cursor_move() {
                        Some(p) => p,
                        None => Point { x: 0, y: 0 },
                    };
                    let next = cursor.add(step);
                    if stick.is_leaf() {
                        cursor = next;
                        canvas.put(cursor, '"');
                    } else if canvas.is_char_point(next, 'Y') || canvas.is_char_point(next, 'O') {
                        cursor = next;
                    } else {
                        leaf_spawn_point = None;
                        cursor = next;
                        canvas.put(cursor, stick.to_char());
                    }
                    proof {
                        pen = pen_step(prev, stick)->Ok_0;
                    }
                },
            }
            i = i + 1;
        }
        proof {
            assert(s.take(n as int) =~= s);
        }
        Ok(Fvtree { canvas })
    }

    /// The rendered picture, topmost row first.
    pub fn to_string(&self) -> (r: String)
        ensures
            r@ == self.picture().rendered(),
    {
        self.canvas.to_string()
    }

    /// The canvas that holds the picture.
    pub fn canvas(&self) -> (r: &Canvas)
        ensures
            *r == self.picture(),
    {
        &self.canvas
    }
}

/// A tree string: the encoding of a stick sequence, one glyph per stick.
pub struct FvtreeString {
    tree_string: String,
}

impl FvtreeString {
    /// The characters of the tree string.
    pub closed spec fn chars(&self) -> Seq<char> {
        self.tree_string@
    }

    /// A tree generated under the default bounds, from this thread's
    /// random generator.
    pub fn new() -> (r: FvtreeString)
        ensures
            fits_config(r.chars(), Config::defaults()),
    {
        FvtreeString::new_recursive()
    }

    /// A tree generated under the default bounds by recursive descent, from
    /// this thread's random generator.
    pub fn new_recursive() -> (r: FvtreeString)
        ensures
            fits_config(r.chars(), Config::defaults()),
    {
        let mut rng = fresh_rng();
        let conf = Config::new();
        let mut stats = Stats::new();
        let tree_string = gen(&mut rng, &mut stats, &conf);
        FvtreeString { tree_string }
    }

    /// A tree generated under `conf`, drawing from `rng`; fails with
    /// `InvalidConfig` when the bounds are not well-formed.
    pub fn with_config(rng: &mut ThreadRng, conf: &Config) -> (r: Result<FvtreeString, TreeError>)
        ensures
            conf.wf() ==> (r matches Ok(t) && fits_config(t.chars(), *conf)),
            !conf.wf() ==> r == Err::<FvtreeString, TreeError>(TreeError::InvalidConfig),
    {
        if !conf.is_valid() {
            return Err(TreeError::InvalidConfig);
        }
        let mut stats = Stats::new();
        let tree_string = gen(rng, &mut stats, conf);
        Ok(FvtreeString { tree_string })
    }

    /// A tree string given by hand; fails with `UnrecognizedSymbol` unless
    /// every character is the glyph of a stick.
    pub fn build(tree_string: &str) -> (r: Result<FvtreeString, TreeError>)
        ensures
            all_glyphs(tree_string@) ==> (r matches Ok(t) && t.chars() == tree_string@),
            !all_glyphs(tree_string@) ==> r == Err::<FvtreeString, TreeError>(
                TreeError::UnrecognizedSymbol,
            ),
    {
        match decode_str(tree_string) {
            Ok(_) => Ok(FvtreeString { tree_string: tree_string.to_owned() }),
            Err(e) => Err(e),
        }
    }

    /// A copy of the tree string.
    pub fn tree_string(&self) -> (r: String)
        ensures
            r@ == self.chars(),
    {
        self.tree_string.clone()
    }

    /// The tree string as text.
    pub fn to_string(&self) -> (r: String)
        ensures
            r@ == self.chars(),
    {
        self.tree_string.clone()
    }
}

} // verus!
