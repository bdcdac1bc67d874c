use fvtree::{Canvas, Point};

#[test]
fn print_nothing() {
    let canvas = Canvas::new();
    let output = canvas.to_string();
    assert_eq!("", output);
}

#[test]
fn print_onething() {
    let mut canvas = Canvas::new();
    canvas.put(Point { x: 0, y: 0 }, 'x');
    let output = canvas.to_string();
    assert_eq!("x\n", output);
}

#[test]
fn print_positive() {
    let mut canvas = Canvas::new();
    canvas.put(Point { x: 1, y: 1 }, 'x');
    let output = canvas.to_string();
    assert_eq!(" x\n\n", output);
}

#[test]
fn print_negative() {
    let mut canvas = Canvas::new();
    canvas.put(Point { x: -1, y: 0 }, 'x');
    let output = canvas.to_string();
    assert_eq!("x\n", output);

    let mut canvas = Canvas::new();
    canvas.put(Point { x: 0, y: -1 }, 'x');
    let output = canvas.to_string();
    assert_eq!("x\n", output);
}

#[test]
fn print_twothing() {
    let mut canvas = Canvas::new();
    canvas.put(Point { x: 0, y: 0 }, 'x');
    canvas.put(Point { x: 2, y: 0 }, 'x');
    let output = canvas.to_string();
    assert_eq!("x x\n", output);
}

#[test]
fn print_negative_then_positive_x() {
    let mut canvas = Canvas::new();
    canvas.put(Point { x: -1, y: 0 }, 'x');
    canvas.put(Point { x: 1, y: 0 }, 'x');
    let output = canvas.to_string();
    assert_eq!("x x\n", output);
}

#[test]
fn print_positive_then_negative_x() {
    let mut canvas = Canvas::new();
    canvas.put(Point { x: 1, y: 0 }, 'x');
    canvas.put(Point { x: -1, y: 0 }, 'x');
    let output = canvas.to_string();
    assert_eq!("x x\n", output);
}

#[test]
fn print_negative_then_positive_y() {
    let mut canvas = Canvas::new();
    canvas.put(Point { x: 0, y: -1 }, 'x');
    canvas.put(Point { x: 0, y: 1 }, 'x');
    let output = canvas.to_string();
    assert_eq!("x\n\nx\n", output);
}

#[test]
fn print_positive_then_negative_y() {
    let mut canvas = Canvas::new();
    canvas.put(Point { x: 0, y: 1 }, 'x');
    canvas.put(Point { x: 0, y: -1 }, 'x');
    let output = canvas.to_string();
    assert_eq!("x\n\nx\n", output);
}

#[test]
fn print_something() {
    let mut canvas = Canvas::new();
    canvas.put(Point { x: -1, y: 0 }, '-');
    canvas.put(Point { x: 1, y: 0 }, '-');
    canvas.put(Point { x: 0, y: 0 }, '_');
    canvas.put(Point { x: 1, y: 1 }, '^');
    canvas.put(Point { x: -1, y: 1 }, '^');
    canvas.put(Point { x: 0, y: -1 }, 'v');
    let output = canvas.to_string();
    assert_eq!("^ ^\n-_-\n v\n", output);
}

#[test]
fn up_then_left() {
    let mut canvas = Canvas::new();
    canvas.put(Point { x: 0, y: 0 }, '|');
    canvas.put(Point { x: -1, y: 1 }, '.');
    let output = canvas.to_string();
    assert_eq!(".\n |\n", output);
}

#[test]
fn offset_across_rows() {
    let mut canvas = Canvas::new();
    canvas.put(Point { x: -1, y: 1 }, 'x');
    canvas.put(Point { x: -1, y: 2 }, 'y');
    canvas.put(Point { x: -1, y: 3 }, 'z');
    let output = canvas.to_string();
    assert_eq!("z\ny\nx\n\n", output);
}

#[test]
fn char_is_present_check() {
    let mut canvas = Canvas::new();
    canvas.put(Point { x: 2, y: 3 }, 'x');
    let output = canvas.is_char_point(Point { x: 2, y: 3 }, 'x');
    assert!(output);
}

#[test]
fn negative_point_reads_back() {
    let mut canvas = Canvas::new();
    canvas.put(Point { x: -5, y: -5 }, 'x');
    assert!(canvas.is_char_point(Point { x: -5, y: -5 }, 'x'));
    assert!(!canvas.is_blank_point(Point { x: -5, y: -5 }));
    for x in -7..3 {
        for y in -7..3 {
            if (x, y) != (-5, -5) {
                assert!(canvas.is_blank_point(Point { x, y }));
                assert!(!canvas.is_char_point(Point { x, y }, 'x'));
            }
        }
    }
}

#[test]
fn earlier_glyphs_keep_their_place_after_growth() {
    let mut canvas = Canvas::new();
    canvas.put(Point { x: 1, y: 1 }, 'a');
    canvas.put(Point { x: -3, y: -2 }, 'b');
    canvas.put(Point { x: 1, y: 1 }, 'c');
    assert!(canvas.is_char_point(Point { x: 1, y: 1 }, 'c'));
    assert!(canvas.is_char_point(Point { x: -3, y: -2 }, 'b'));
    assert!(canvas.is_blank_point(Point { x: 100, y: -100 }));
    assert!(canvas.is_blank_point(Point { x: i32::MIN, y: i32::MAX }));
    assert_eq!("    c\n\n\nb  \n", canvas.to_string());
}
