use vstd::prelude::*;

use crate::error::TreeError;
use crate::point::Point;

verus! {

/// One symbol of a tree string.
///
/// Movement sticks carry a displacement and a glyph; the branch movements
/// draw the trunk and branches, the leaf movements draw leaf clusters.
/// The four control sticks open and close branch scopes and leaf clusters.
#[derive(Debug, Clone, Copy, PartialEq, Eq, Structural)]
pub enum Stick {
    UpBranch,
    UpLeftBranch,
    UpRightBranch,
    UpLeaf,
    LeftLeaf,
    RightLeaf,
    DownLeaf,
    UpLeftLeaf,
    UpRightLeaf,
    DownLeftLeaf,
    DownRightLeaf,
    BranchIndicator,
    BranchReturn,
    LeafSpawn,
    LeafReturn,
}

/// The character that encodes each stick in a tree string.
pub open spec fn glyph(s: Stick) -> char {
    match s {
        Stick::UpBranch => '|',
        Stick::UpLeftBranch => '\\',
        Stick::UpRightBranch => '/',
        Stick::UpLeaf => '^',
        Stick::LeftLeaf => '<',
        Stick::RightLeaf => '>',
        Stick::DownLeaf => 'v',
        Stick::UpLeftLeaf => 't',
        Stick::UpRightLeaf => 'u',
        Stick::DownLeftLeaf => 'b',
        Stick::DownRightLeaf => 'm',
        Stick::BranchIndicator => 'y',
        Stick::BranchReturn => 'r',
        Stick::LeafSpawn => 'o',
        Stick::LeafReturn => 'l',
    }
}

/// The stick that a character encodes, if any.
pub open spec fn decode_glyph(c: char) -> Option<Stick> {
    if c == '|' {
        Some(Stick::UpBranch)
    } else if c == '\\' {
        Some(Stick::UpLeftBranch)
    } else if c == '/' {
        Some(Stick::UpRightBranch)
    } else if c == '^' {
        Some(Stick::UpLeaf)
    } else if c == '<' {
        Some(Stick::LeftLeaf)
    } else if c == '>' {
        Some(Stick::RightLeaf)
    } else if c == 'v' {
        Some(Stick::DownLeaf)
    } else if c == 't' {
        Some(Stick::UpLeftLeaf)
    } else if c == 'u' {
        Some(Stick::UpRightLeaf)
    } else if c == 'b' {
        Some(Stick::DownLeftLeaf)
    } else if c == 'm' {
        Some(Stick::DownRightLeaf)
    } else if c == 'y' {
        Some(Stick::BranchIndicator)
    } else if c == 'r' {
        Some(Stick::BranchReturn)
    } else if c == 'o' {
        Some(Stick::LeafSpawn)
    } else if c == 'l' {
        Some(Stick::LeafReturn)
    } else {
        None
    }
}

/// The four sticks that steer the interpreter instead of moving it.
pub open spec fn is_control(s: Stick) -> bool {
    match s {
        Stick::BranchIndicator | Stick::BranchReturn | Stick::LeafSpawn | Stick::LeafReturn => true,
        _ => false,
    }
}

/// The eight movements that only occur inside a leaf cluster.
pub open spec fn is_leaf_move(s: Stick) -> bool {
    match s {
        Stick::UpLeaf | Stick::LeftLeaf | Stick::RightLeaf | Stick::DownLeaf | Stick::UpLeftLeaf
        | Stick::UpRightLeaf | Stick::DownLeftLeaf | Stick::DownRightLeaf => true,
        _ => false,
    }
}

/// The three movements that draw the trunk and branches.
pub open spec fn is_branch_move(s: Stick) -> bool {
    !is_control(s) && !is_leaf_move(s)
}

/// The displacement of a movement stick, as (dx, dy) with y pointing up.
pub open spec fn displacement(s: Stick) -> (int, int) {
    match s {
        Stick::UpBranch => (0, 1),
        Stick::UpLeftBranch => (-1, 1),
        Stick::UpRightBranch => (1, 1),
        Stick::UpLeaf => (0, 1),
        Stick::LeftLeaf => (-1, 0),
        Stick::RightLeaf => (1, 0),
        Stick::DownLeaf => (0, -1),
        Stick::UpLeftLeaf => (-1, 1),
        Stick::UpRightLeaf => (1, 1),
        Stick::DownLeftLeaf => (-1, -1),
        Stick::DownRightLeaf => (1, -1),
        _ => (0, 0),
    }
}

/// The characters of a tree string that encodes `s`.
pub open spec fn encode_all(s: Seq<Stick>) -> Seq<char> {
    s.map_values(|k: Stick| glyph(k))
}

/// Whether every character of `cs` is the glyph of some stick.
pub open spec fn all_glyphs(cs: Seq<char>) -> bool {
    forall|i: int| 0 <= i < cs.len() ==> (#[trigger] decode_glyph(cs[i])) is Some
}

/// The sticks that `cs` encodes, one for each character; meaningful where
/// `all_glyphs(cs)` holds.
pub open spec fn decode_all(cs: Seq<char>) -> Seq<Stick> {
    cs.map_values(|c: char| decode_glyph(c)->0)
}

/// Decoding the glyph of any stick gives that stick back, and the only
/// character that decodes to a stick is its glyph: the alphabet is a bijection.
pub proof fn lemma_glyph_bijection(s: Stick, c: char)
    ensures
        decode_glyph(glyph(s)) == Some(s),
        decode_glyph(c) == Some(s) ==> glyph(s) == c,
{
}

/// Decoding the encoding of a stick sequence gives the sequence back.
pub proof fn lemma_decode_encode(s: Seq<Stick>)
    ensures
        all_glyphs(encode_all(s)),
        decode_all(encode_all(s)) == s,
{
    assert forall|i: int| 0 <= i < encode_all(s).len() implies (#[trigger] decode_glyph(
        encode_all(s)[i],
    )) is Some by {
        lemma_glyph_bijection(s[i], ' ');
    }
    assert forall|i: int| 0 <= i < s.len() implies decode_all(encode_all(s))[i] == s[i] by {
        lemma_glyph_bijection(s[i], ' ');
    }
    assert(decode_all(encode_all(s)) =~= s);
}

/// Encoding the decoding of a string made of glyphs gives the string back.
pub proof fn lemma_encode_decode(cs: Seq<char>)
    requires
        all_glyphs(cs),
    ensures
        encode_all(decode_all(cs)) == cs,
{
    assert forall|i: int| 0 <= i < cs.len() implies encode_all(decode_all(cs))[i] == cs[i] by {
        assert(decode_glyph(cs[i]) is Some);
        lemma_glyph_bijection(decode_glyph(cs[i])->0, cs[i]);
    }
    assert(encode_all(decode_all(cs)) =~= cs);
}

/// The sticks that `s` encodes; fails with `UnrecognizedSymbol` when some
/// character is not a glyph.
pub fn decode_str(s: &str) -> (r: Result<Vec<Stick>, TreeError>)
    ensures
        all_glyphs(s@) ==> (r matches Ok(v) && v@ == decode_all(s@)),
        !all_glyphs(s@) ==> r == Err::<Vec<Stick>, TreeError>(TreeError::UnrecognizedSymbol),
{
    broadcast use vstd::string::axiom_spec_iter;

    let mut out: Vec<Stick> = Vec::new();
    for c in it: s.chars()
        invariant
            it.seq() == s@,
            out@ == decode_all(s@.take(it.index() as int)),
            all_glyphs(s@.take(it.index() as int)),
    {
        let ghost i = it.index() as int;
        match Stick::from_char(c) {
            Ok(k) => {
                out.push(k);
                assert(s@.take(i + 1) =~= s@.take(i).push(c));
                assert(decode_all(s@.take(i + 1)) =~= decode_all(s@.take(i)).push(k));
            },
            Err(e) => {
                assert(decode_glyph(s@[i]) is None);
                return Err(e);
            },
        }
    }
    assert(s@.take(s@.len() as int) =~= s@);
    Ok(out)
}

/// The tree string that encodes `sticks`.
pub fn encode(sticks: &Vec<Stick>) -> (r: String)
    ensures
        r@ == encode_all(sticks@),
{
    let mut out = String::new();
    let mut i: usize = 0;
    while i < sticks.len()
        invariant
            i <= sticks@.len(),
            out@ == encode_all(sticks@.take(i as int)),
        decreases sticks@.len() - i,
    {
        let c = sticks[i].to_char();
        crate::canvas::push_char(&mut out, c);
        proof {
            assert(sticks@.take(i + 1) =~= sticks@.take(i as int).push(sticks@[i as int]));
            assert(encode_all(sticks@.take(i + 1)) =~= encode_all(sticks@.take(i as int)).push(c));
        }
        i = i + 1;
    }
    assert(sticks@.take(sticks@.len() as int) =~= sticks@);
    out
}

impl Stick {
    /// Whether this stick steers the interpreter instead of moving it.
    pub fn is_control_char(&self) -> (r: bool)
        ensures
            r == is_control(*self),
    {
        match self {
            Stick::BranchIndicator | Stick::BranchReturn | Stick::LeafSpawn | Stick::LeafReturn => true,
            _ => false,
        }
    }

    /// The glyph that encodes this stick.
    pub fn to_char(&self) -> (r: char)
        ensures
            r == glyph(*self),
    {
        match self {
            Stick::UpBranch => '|',
            Stick::UpLeftBranch => '\\',
            Stick::UpRightBranch => '/',
            Stick::UpLeaf => '^',
            Stick::LeftLeaf => '<',
            Stick::RightLeaf => '>',
            Stick::DownLeaf => 'v',
            Stick::UpLeftLeaf => 't',
            Stick::UpRightLeaf => 'u',
            Stick::DownLeftLeaf => 'b',
            Stick::DownRightLeaf => 'm',
            Stick::BranchIndicator => 'y',
            Stick::BranchReturn => 'r',
            Stick::LeafSpawn => 'o',
            Stick::LeafReturn => 'l',
        }
    }

    /// The displacement of a movement stick; `None` for a control stick.
    pub fn cursor_move(&self) -> (r: Option<Point>)
        ensures
            is_control(*self) <==> r is None,
            r matches Some(p) ==> (p.x as int, p.y as int) == displacement(*self),
    {
        match self {
            Stick::UpBranch => Some(Point { x: 0, y: 1 }),
            Stick::UpLeftBranch => Some(Point { x: -1, y: 1 }),
            Stick::UpRightBranch => Some(Point { x: 1, y: 1 }),
            Stick::UpLeaf => Some(Point { x: 0, y: 1 }),
            Stick::LeftLeaf => Some(Point { x: -1, y: 0 }),
            Stick::RightLeaf => Some(Point { x: 1, y: 0 }),
            Stick::DownLeaf => Some(Point { x: 0, y: -1 }),
            Stick::UpLeftLeaf => Some(Point { x: -1, y: 1 }),
            Stick::UpRightLeaf => Some(Point { x: 1, y: 1 }),
            Stick::DownLeftLeaf => Some(Point { x: -1, y: -1 }),
            Stick::DownRightLeaf => Some(Point { x: 1, y: -1 }),
            _ => None,
        }
    }

    /// Whether this stick is one of the eight leaf movements.
    pub fn is_leaf(&self) -> (r: bool)
        ensures
            r == is_leaf_move(*self),
    {
        match self {
            Stick::UpLeaf | Stick::LeftLeaf | Stick::RightLeaf | Stick::DownLeaf | Stick::UpLeftLeaf
            | Stick::UpRightLeaf | Stick::DownLeftLeaf | Stick::DownRightLeaf => true,
            _ => false,
        }
    }

    /// The stick whose glyph is `c`; fails with `UnrecognizedSymbol` for any
    /// other character.
    pub fn from_char(c: char) -> (r: Result<Stick, TreeError>)
        ensures
            decode_glyph(c) matches Some(s) ==> r == Ok::<Stick, TreeError>(s),
            decode_glyph(c) is None ==> r == Err::<Stick, TreeError>(TreeError::UnrecognizedSymbol),
    {
        match c {
            '|' => Ok(Stick::UpBranch),
            '\\' => Ok(Stick::UpLeftBranch),
            '/' => Ok(Stick::UpRightBranch),
            '^' => Ok(Stick::UpLeaf),
            '<' => Ok(Stick::LeftLeaf),
            '>' => Ok(Stick::RightLeaf),
            'v' => Ok(Stick::DownLeaf),
            't' => Ok(Stick::UpLeftLeaf),
            'u' => Ok(Stick::UpRightLeaf),
            'b' => Ok(Stick::DownLeftLeaf),
            'm' => Ok(Stick::DownRightLeaf),
            'y' => Ok(Stick::BranchIndicator),
            'r' => Ok(Stick::BranchReturn),
            'o' => Ok(Stick::LeafSpawn),
            'l' => Ok(Stick::LeafReturn),
            _ => Err(TreeError::UnrecognizedSymbol),
        }
    }
}

} // verus!
