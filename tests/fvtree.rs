use fvtree::lottery::Lottery;
use fvtree::sticks::decode_str;
use fvtree::{
    BranchConfig, Config, Fvtree, FvtreeString, Point, Stats, Stick, TreeConfig, TreeError,
};

#[test]
fn dont_panic() {
    assert!(true);
}

const ALL_STICKS: [Stick; 15] = [
    Stick::UpBranch,
    Stick::UpLeftBranch,
    Stick::UpRightBranch,
    Stick::UpLeaf,
    Stick::LeftLeaf,
    Stick::RightLeaf,
    Stick::DownLeaf,
    Stick::UpLeftLeaf,
    Stick::UpRightLeaf,
    Stick::DownLeftLeaf,
    Stick::DownRightLeaf,
    Stick::BranchIndicator,
    Stick::BranchReturn,
    Stick::LeafSpawn,
    Stick::LeafReturn,
];

#[test]
fn glyphs_round_trip() {
    for s in ALL_STICKS {
        let c = s.to_char();
        assert_eq!(Stick::from_char(c), Ok(s));
        assert_eq!(Stick::from_char(c).unwrap().to_char(), c);
    }
    let glyphs: String = ALL_STICKS.iter().map(|s| s.to_char()).collect();
    assert_eq!(glyphs, "|\\/^<>vtubmyrol");
}

#[test]
fn unknown_glyph_is_refused() {
    assert_eq!(Stick::from_char('x'), Err(TreeError::UnrecognizedSymbol));
    assert_eq!(decode_str("|yx"), Err(TreeError::UnrecognizedSymbol));
    assert!(matches!(FvtreeString::build("||q"), Err(TreeError::UnrecognizedSymbol)));
}

#[test]
fn stick_properties() {
    assert!(Stick::BranchIndicator.is_control_char());
    assert!(!Stick::UpBranch.is_control_char());
    assert!(Stick::DownLeaf.is_leaf());
    assert!(!Stick::UpLeftBranch.is_leaf());
    assert_eq!(Stick::UpLeftBranch.cursor_move(), Some(Point { x: -1, y: 1 }));
    assert_eq!(Stick::DownRightLeaf.cursor_move(), Some(Point { x: 1, y: -1 }));
    assert_eq!(Stick::LeafReturn.cursor_move(), None);
}

#[test]
fn point_addition() {
    let p = Point { x: 2, y: -3 }.add(Point { x: -1, y: 1 });
    assert_eq!(p, Point { x: 1, y: -2 });
    let mut q = Point { x: 0, y: 0 };
    q.add_assign(Point { x: 1, y: 1 });
    assert_eq!(q, Point { x: 1, y: 1 });
}

#[test]
fn empty_lottery_fails() {
    let mut rng = rand::thread_rng();
    let mut lot: Lottery<u32> = Lottery::build(&mut rng);
    assert_eq!(lot.pick(), Err(TreeError::EmptyPopulation));
    assert_eq!(lot.choose_without_bias(), Err(TreeError::EmptyPopulation));
}

#[test]
fn zero_weight_is_refused() {
    let mut rng = rand::thread_rng();
    let mut lot: Lottery<char> = Lottery::build(&mut rng);
    assert_eq!(lot.add_with_bias('a', 0), Err(TreeError::InvalidWeight));
    assert_eq!(lot.pick(), Err(TreeError::EmptyPopulation));
    assert_eq!(lot.add_with_bias('a', 2), Ok(()));
    assert_eq!(lot.pick(), Ok('a'));
}

#[test]
fn unweighted_lottery_returns_an_outcome() {
    let mut rng = rand::thread_rng();
    let mut lot: Lottery<u32> = Lottery::build(&mut rng);
    lot.add(7);
    lot.add(9);
    let mut seen = [false, false];
    for _ in 0..1000 {
        match lot.pick() {
            Ok(7) => seen[0] = true,
            Ok(9) => seen[1] = true,
            other => panic!("unexpected {:?}", other),
        }
    }
    assert!(seen[0] && seen[1]);
}

#[test]
fn draw_selects_by_cumulative_weight() {
    let mut rng = rand::thread_rng();
    let mut lot: Lottery<char> = Lottery::build(&mut rng);
    lot.add_with_bias('a', 3).unwrap();
    lot.add_with_bias('b', 1).unwrap();
    lot.add('c');
    assert_eq!(lot.choose_with_draw(1), 'a');
    assert_eq!(lot.choose_with_draw(3), 'a');
    assert_eq!(lot.choose_with_draw(4), 'b');
    assert_eq!(lot.choose_with_draw(5), 'c');
}

#[test]
fn weighted_lottery_is_fair() {
    let mut rng = rand::thread_rng();
    let mut lot: Lottery<char> = Lottery::build(&mut rng);
    lot.add_with_bias('a', 3).unwrap();
    lot.add_with_bias('b', 1).unwrap();
    let mut a = 0u32;
    let mut b = 0u32;
    for _ in 0..10_000 {
        match lot.pick() {
            Ok('a') => a += 1,
            Ok('b') => b += 1,
            other => panic!("unexpected {:?}", other),
        }
    }
    let ratio = a as f64 / b as f64;
    assert!(ratio > 2.7 && ratio < 3.3, "ratio {}", ratio);
}

#[test]
fn config_validation() {
    assert!(TreeConfig::build(3, 10, 1, 3, 5, 50).is_ok());
    assert_eq!(TreeConfig::build(11, 10, 1, 3, 5, 50), Err(TreeError::InvalidConfig));
    assert_eq!(TreeConfig::build(3, 10, 4, 3, 5, 50), Err(TreeError::InvalidConfig));
    assert_eq!(TreeConfig::build(3, 10, 1, 3, 51, 50), Err(TreeError::InvalidConfig));
    assert!(BranchConfig::build(2, 4, 2, false, 2, 3, 4, 5).is_ok());
    assert_eq!(BranchConfig::build(5, 4, 2, false, 2, 3, 4, 5), Err(TreeError::InvalidConfig));
    assert_eq!(BranchConfig::build(0, 4, 2, false, 2, 3, 4, 5), Err(TreeError::InvalidConfig));
    assert_eq!(BranchConfig::build(2, 4, 0, false, 2, 3, 4, 5), Err(TreeError::InvalidConfig));
    assert_eq!(BranchConfig::build(2, 4, 2, false, 4, 3, 4, 5), Err(TreeError::InvalidConfig));
    assert_eq!(BranchConfig::build(2, 4, 2, false, 2, 3, 6, 5), Err(TreeError::InvalidConfig));
    assert_eq!(BranchConfig::build(2, 4, 2, false, 0, 0, 0, 0), Err(TreeError::InvalidConfig));
    assert!(BranchConfig::build(2, 4, 2, true, 0, 0, 0, 0).is_ok());
    assert!(Config::new().is_valid());
    let t = TreeConfig::new();
    assert_eq!((t.min_trunk_height, t.max_trunk_height, t.min_sticks, t.max_sticks), (3, 1000, 20, 1000));
}

#[test]
fn stats_counting() {
    let mut s = Stats::new();
    s.add_one_stick();
    s.add_one_leaf();
    s.add_one_branch();
    s.add_one_branch();
    s.sub_one_branch();
    assert_eq!(s.t.num_sticks, 2);
    assert_eq!(s.b.num_sticks, 2);
    assert_eq!(s.b.num_leaves, 1);
    assert_eq!(s.b.num_leaves_in_leaflet, 1);
    assert_eq!(s.t.branch_depth, 1);
    assert!(s.t.has_branched);
}

fn render(tree_string: &str) -> Result<String, TreeError> {
    let ts = FvtreeString::build(tree_string)?;
    Ok(Fvtree::build(&ts)?.to_string())
}

#[test]
fn root_alone() {
    assert_eq!(render(""), Ok(" O\n/|\\\n".to_string()));
}

#[test]
fn one_stick_above_the_root() {
    assert_eq!(render("|"), Ok(" |\n O\n/|\\\n".to_string()));
}

#[test]
fn branch_marker_and_return() {
    // Up, branch, a stroke to the left, back to the marker, up again.
    assert_eq!(render("|y\\r|"), Ok("\\|\n Y\n O\n/|\\\n".to_string()));
}

#[test]
fn leaves_are_quotes_and_return_to_origin() {
    assert_eq!(render("|o^lv"), Ok(" \"\n O\n \"\n/|\\\n".to_string()));
}

#[test]
fn strokes_do_not_overwrite_markers() {
    // Back at the trunk's base, a stroke onto the nested branch's marker
    // moves the cursor but leaves the marker in place.
    let ts = FvtreeString::build("y\\yrr\\").unwrap();
    let t = Fvtree::build(&ts).unwrap();
    assert!(t.canvas().is_char_point(Point { x: -1, y: 1 }, 'Y'));
    assert!(t.canvas().is_char_point(Point { x: 0, y: 0 }, 'Y'));
    assert_eq!(render("|y||r\\"), Ok(" |\n\\|\n Y\n O\n/|\\\n".to_string()));
}

#[test]
fn interpreter_errors() {
    assert_eq!(render("|r"), Err(TreeError::UnbalancedBranch));
    assert_eq!(render("|l"), Err(TreeError::UnmatchedLeafClose));
    assert_eq!(render("o|l"), Err(TreeError::UnmatchedLeafClose));
    assert_eq!(render("|z"), Err(TreeError::UnrecognizedSymbol));
}

fn balanced(s: &str) -> bool {
    let mut depth: i64 = 0;
    for c in s.chars() {
        if c == 'y' {
            depth += 1;
        }
        if c == 'r' {
            depth -= 1;
            if depth < 0 {
                return false;
            }
        }
    }
    depth == 0
}

fn movements(s: &str) -> usize {
    s.chars().filter(|c| !"yrol".contains(*c)).count()
}

#[test]
fn generated_trees_are_balanced_and_render() {
    for _ in 0..50 {
        let ts = FvtreeString::new();
        let s = ts.tree_string();
        assert!(balanced(&s), "{}", s);
        let n = movements(&s);
        assert!(n >= 20 && n <= 1000, "{}", s);
        assert!(Fvtree::build(&ts).is_ok());
        assert_eq!(ts.to_string(), s);
    }
}

#[test]
fn generated_trees_respect_custom_bounds() {
    let mut rng = rand::thread_rng();
    let conf = Config {
        t: TreeConfig::build(2, 20, 1, 2, 10, 40).unwrap(),
        b: BranchConfig::build(1, 3, 1, true, 1, 2, 1, 2).unwrap(),
    };
    for _ in 0..200 {
        let s = FvtreeString::with_config(&mut rng, &conf).unwrap().tree_string();
        assert!(balanced(&s), "{}", s);
        let n = movements(&s);
        assert!(n >= 10 && n <= 40, "{} {}", n, s);
    }
}

#[test]
fn zero_budget_gives_bare_root() {
    let mut rng = rand::thread_rng();
    let conf = Config { t: TreeConfig::build(0, 1000, 1, 3, 0, 0).unwrap(), b: BranchConfig::new() };
    let ts = FvtreeString::with_config(&mut rng, &conf).unwrap();
    assert_eq!(ts.tree_string(), "");
    let t = Fvtree::build(&ts).unwrap();
    assert_eq!(t.to_string(), " O\n/|\\\n");
}

#[test]
fn invalid_config_is_refused() {
    let mut rng = rand::thread_rng();
    let mut conf = Config::new();
    conf.t.min_sticks = 2000;
    assert!(!conf.is_valid());
    assert!(matches!(FvtreeString::with_config(&mut rng, &conf), Err(TreeError::InvalidConfig)));
}

#[test]
fn leaf_paints_over_root_and_stroke_skips_seed() {
    assert_eq!(render("v|"), Ok(" O\n/\"\\\n".to_string()));
}

#[test]
fn leaf_return_goes_back_to_origin() {
    assert_eq!(render("|o^l>"), Ok(" \"\n O\"\n O\n/|\\\n".to_string()));
}

#[test]
fn branch_marker_painted_at_cursor() {
    assert_eq!(render("y\\r/"), Ok("\\ /\n Y\n/|\\\n".to_string()));
}
