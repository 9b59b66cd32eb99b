use tdp_tl::comments::{comment_record, meta_key, parse_usize, CommentRecord, MetaKey};
use tdp_tl::gcode::MajorKind;
use tdp_tl::{comment, parentheses_comment, seimcolon_comment, ExtrudeRunner, GCode1, GCode1Coord, MotionState, Step};

fn bits(v: f32) -> u32 {
    v.to_bits()
}

fn coord(major: u32, x: Option<f32>, y: Option<f32>, z: Option<f32>, e: Option<f32>, f: Option<f32>) -> GCode1Coord {
    GCode1Coord { major, x: x.map(bits), y: y.map(bits), z: z.map(bits), e: e.map(bits), f: f.map(bits) }
}

#[test]
fn apply_overlays_present_words() {
    let base = coord(1, Some(1.0), Some(2.0), Some(3.0), Some(4.0), Some(5.0));
    let other = coord(0, Some(10.0), None, None, Some(0.5), None);
    let out = base.apply(&other);
    assert_eq!(out, coord(1, Some(10.0), Some(2.0), Some(3.0), Some(0.5), Some(5.0)));
    assert_eq!(base.apply(&GCode1Coord::new(7)), base);
    assert_eq!(GCode1Coord::new(3).apply(&other), coord(3, Some(10.0), None, None, Some(0.5), None));
    assert_eq!(out.apply(&other), out);
}

#[test]
fn major_codes() {
    assert_eq!(GCode1Coord::new(0).kind(), MajorKind::Move);
    assert_eq!(GCode1Coord::new(1).kind(), MajorKind::Move);
    assert_eq!(GCode1Coord::new(92).kind(), MajorKind::SetPosition);
    assert_eq!(GCode1Coord::new(2).kind(), MajorKind::Unsupported);
    assert_eq!(GCode1Coord::new(3).kind(), MajorKind::Unsupported);
    assert_eq!(GCode1Coord::new(28).kind(), MajorKind::Unsupported);
}

#[test]
fn runner_walks_the_program_in_order() {
    let g1 = coord(1, Some(5.0), None, None, Some(0.1), Some(1800.0));
    let program = vec![
        (1, GCode1::TypedComment("FLAVOR".to_string(), "Marlin".to_string())),
        (2, GCode1::Layer(0)),
        (3, GCode1::Coord(coord(92, Some(1.0), None, Some(2.0), Some(0.0), Some(9.0)))),
        (4, GCode1::Coord(g1)),
        (5, GCode1::Coord(coord(28, None, None, None, None, None))),
    ];
    let mut runner = ExtrudeRunner::new(program);
    assert_eq!(runner.remaining(), 5);
    assert_eq!(runner.state(), MotionState { x: 0, y: 0, z: 0, e: 0, f: 0 });
    assert_eq!(runner.step0(), Step::Skip);
    assert_eq!(runner.step0(), Step::Layer(0));
    assert_eq!(runner.step0(), Step::Assigned);
    // code 92 sets position and extruder value, not the feed rate
    assert_eq!(runner.state(), MotionState { x: bits(1.0), y: 0, z: bits(2.0), e: 0, f: 0 });
    let step = runner.step0();
    assert_eq!(
        step,
        Step::Move { line: 4, code: g1, target: coord(1, Some(5.0), Some(0.0), Some(2.0), Some(0.1), Some(1800.0)) }
    );
    // a move leaves the state to the caller
    assert_eq!(runner.state().x, bits(1.0));
    assert_eq!(runner.step0(), Step::Skip);
    assert_eq!(runner.step0(), Step::Done);
    assert_eq!(runner.step0(), Step::Done);
    assert_eq!(runner.remaining(), 0);
}

#[test]
fn runner_resumes_a_split_move() {
    let g1 = coord(1, Some(5.0), None, None, Some(0.1), None);
    let mut runner = ExtrudeRunner::new(vec![(7, GCode1::Coord(g1)), (8, GCode1::Layer(3))]);
    match runner.step0() {
        Step::Move { line, code, target } => {
            assert_eq!(line, 7);
            assert_eq!(target.f, Some(0));
            runner.set_feed(bits(1800.0));
            runner.set_position(bits(0.5), 0, 0);
            runner.set_extruder(bits(0.01));
            runner.resume(line, code);
        }
        _ => panic!("a move was expected"),
    }
    assert_eq!(runner.remaining(), 2);
    assert_eq!(
        runner.step0(),
        Step::Move { line: 7, code: g1, target: coord(1, Some(5.0), Some(0.0), Some(0.0), Some(0.1), Some(1800.0)) }
    );
    assert_eq!(runner.state(), MotionState { x: bits(0.5), y: 0, z: 0, e: bits(0.01), f: bits(1800.0) });
    assert_eq!(runner.step0(), Step::Layer(3));
    assert_eq!(runner.step0(), Step::Done);
}

#[test]
fn semicolon_comments() {
    assert_eq!(seimcolon_comment(b";LAYER:3\nG1 X1"), Some(8));
    assert_eq!(seimcolon_comment(b"; text\r\nnext"), Some(6));
    assert_eq!(seimcolon_comment(b";"), Some(1));
    assert_eq!(seimcolon_comment(b";abc"), Some(4));
    assert_eq!(seimcolon_comment(b";a\rb"), None);
    assert_eq!(seimcolon_comment(b";a\r"), None);
    assert_eq!(seimcolon_comment(b"G1 X1"), None);
    assert_eq!(seimcolon_comment(b""), None);
}

#[test]
fn parentheses_comments() {
    assert_eq!(parentheses_comment(b"(hello) G1"), Some(6));
    assert_eq!(parentheses_comment(b"(a)"), Some(2));
    assert_eq!(parentheses_comment(b"()"), None);
    assert_eq!(parentheses_comment(b"(open"), None);
    assert_eq!(parentheses_comment(b"(two\nlines)"), None);
    assert_eq!(parentheses_comment(b";x"), None);
    assert_eq!(parentheses_comment(b""), None);
}

#[test]
fn either_comment_form() {
    assert_eq!(comment(b";abc\n"), Some((4, 4)));
    assert_eq!(comment(b"(abc)rest"), Some((4, 5)));
    assert_eq!(comment(b"G1"), None);
    assert_eq!(comment(b"(abc"), None);
}

#[test]
fn decimal_numbers() {
    assert_eq!(parse_usize(b"0"), Some(0));
    assert_eq!(parse_usize(b"42"), Some(42));
    assert_eq!(parse_usize(b"+42"), Some(42));
    assert_eq!(parse_usize(b"007"), Some(7));
    assert_eq!(parse_usize(b""), None);
    assert_eq!(parse_usize(b"+"), None);
    assert_eq!(parse_usize(b"-1"), None);
    assert_eq!(parse_usize(b"12a"), None);
    assert_eq!(parse_usize(b" 12"), None);
    assert_eq!(parse_usize(b"1.5"), None);
    assert_eq!(parse_usize(usize::MAX.to_string().as_bytes()), Some(usize::MAX));
    assert_eq!(parse_usize(b"99999999999999999999999999"), None);
    let mut over = usize::MAX.to_string().into_bytes();
    let last = over.len() - 1;
    over[last] += 1;
    assert_eq!(parse_usize(&over), None);
    for text in ["0", "+5", "17", "x", "", "+", "184467440737095516150"] {
        assert_eq!(parse_usize(text.as_bytes()), text.parse::<usize>().ok());
    }
}

#[test]
fn comment_records() {
    assert_eq!(comment_record(b"LAYER:12"), CommentRecord::Layer(12));
    assert_eq!(comment_record(b"LAYER:"), CommentRecord::Malformed);
    assert_eq!(comment_record(b"LAYER:x"), CommentRecord::Malformed);
    assert_eq!(comment_record(b"LAYER_COUNT:80"), CommentRecord::Typed { key_end: 11, value_start: 12 });
    assert_eq!(comment_record(b"TIME:100:5"), CommentRecord::Typed { key_end: 4, value_start: 5 });
    assert_eq!(comment_record(b"no colon"), CommentRecord::Typed { key_end: 8, value_start: 8 });
    assert_eq!(comment_record(b""), CommentRecord::Typed { key_end: 0, value_start: 0 });
    assert_eq!(comment_record(b":v"), CommentRecord::Typed { key_end: 0, value_start: 1 });
}

#[test]
fn metadata_keys() {
    assert_eq!(meta_key(b"FLAVOR"), MetaKey::Flavor);
    assert_eq!(meta_key(b"TIME"), MetaKey::Time);
    assert_eq!(meta_key(b"Filament used"), MetaKey::FilamentUsed);
    assert_eq!(meta_key(b"Layer height"), MetaKey::LayerHeight);
    assert_eq!(meta_key(b"MINX"), MetaKey::MinX);
    assert_eq!(meta_key(b"MINY"), MetaKey::MinY);
    assert_eq!(meta_key(b"MINZ"), MetaKey::MinZ);
    assert_eq!(meta_key(b"MAXX"), MetaKey::MaxX);
    assert_eq!(meta_key(b"MAXY"), MetaKey::MaxY);
    assert_eq!(meta_key(b"MAXZ"), MetaKey::MaxZ);
    assert_eq!(meta_key(b"TARGET_MACHINE.NAME"), MetaKey::TargetMachine);
    assert_eq!(meta_key(b"LAYER_COUNT"), MetaKey::LayerCount);
    assert_eq!(meta_key(b"flavor"), MetaKey::Unknown);
    assert_eq!(meta_key(b"TIME "), MetaKey::Unknown);
    assert_eq!(meta_key(b""), MetaKey::Unknown);
    assert_eq!(meta_key(b"MESH"), MetaKey::Unknown);
}

fn entry(prefix: &str, value: &str, number: Option<f32>) -> tdp_tl::meta::MetaComment {
    tdp_tl::meta::MetaComment {
        prefix: prefix.as_bytes().to_vec(),
        value: value.as_bytes().to_vec(),
        number: number.map(bits),
    }
}

#[test]
fn metadata_from_comments() {
    let comments = vec![
        entry("FLAVOR", "", None),
        entry("FLAVOR", "Marlin", None),
        entry("FLAVOR", "", None),
        entry("TIME", "120", Some(120.0)),
        entry("TIME", "soon", None),
        entry("Filament used", "1.5m", Some(1500.0)),
        entry("Layer height", " 0.2", Some(0.2)),
        entry("MINX", "-10", Some(-10.0)),
        entry("MINY", "-20", Some(-20.0)),
        entry("MINZ", "0", Some(0.0)),
        entry("MAXX", "10", Some(10.0)),
        entry("MAXY", "20", Some(20.0)),
        entry("MAXZ", "x", None),
        entry("TARGET_MACHINE.NAME", "Printer", None),
        entry("TARGET_MACHINE.NAME", "Other", None),
        entry("LAYER_COUNT", "80", None),
        entry("LAYER_COUNT", "many", None),
        entry("MESH", "cube.stl", Some(1.0)),
    ];
    let meta = tdp_tl::GCodeMeta::from_comments(&comments);
    assert_eq!(meta.flavor, Some(b"Marlin".to_vec()));
    assert_eq!(meta.time, Some(bits(120.0)));
    assert_eq!(meta.filament_used, Some(bits(1500.0)));
    assert_eq!(meta.layer_height, Some(bits(0.2)));
    // one bound is missing
    assert_eq!(meta.bounding_box, None);
    assert_eq!(meta.target_machine, Some(b"Other".to_vec()));
    assert_eq!(meta.layer_count, Some(80));

    let mut all = comments;
    all.push(entry("MAXZ", "30", Some(30.0)));
    all.push(entry("MINX", "-11", Some(-11.0)));
    let meta = tdp_tl::GCodeMeta::from_comments(&all);
    assert_eq!(
        meta.bounding_box,
        Some(([bits(-11.0), bits(-20.0), bits(0.0)], [bits(10.0), bits(20.0), bits(30.0)]))
    );
    let none = tdp_tl::GCodeMeta::from_comments(&Vec::new());
    assert!(none.flavor.is_none() && none.time.is_none() && none.layer_count.is_none());
    assert!(none.bounding_box.is_none() && none.target_machine.is_none());
}
