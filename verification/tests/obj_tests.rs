use tetris::obj::{is_whitespace, line_words, parse_i32, parse_obj_vertices, to_chars};

fn words(s: &str) -> Vec<Vec<String>> {
    let chars = to_chars(s);
    line_words(&chars)
        .into_iter()
        .map(|l| l.into_iter().map(|w| w.into_iter().collect()).collect())
        .collect()
}

fn s(w: &Vec<char>) -> String {
    w.iter().collect()
}

#[test]
fn whitespace_matches_std() {
    for u in 0u32..0x3100 {
        if let Some(c) = char::from_u32(u) {
            assert_eq!(is_whitespace(c), c.is_whitespace(), "{:x}", u);
        }
    }
}

#[test]
fn lines_and_words() {
    assert_eq!(words(""), vec![Vec::<String>::new()]);
    assert_eq!(words("v 1 2 3"), vec![vec!["v", "1", "2", "3"]]);
    assert_eq!(
        words("  a\tb \r\n\nc  d\n"),
        vec![vec!["a".to_string(), "b".to_string()], vec![], vec!["c".to_string(), "d".to_string()], vec![]]
    );
}

#[test]
fn line_words_agree_with_std_split() {
    let text = "v 0.1  0.2 0.3\r\nf 0 0 0\n\n# comment\u{a0}here\n  vt 1 2";
    let ours: Vec<Vec<String>> = words(text).into_iter().filter(|l| !l.is_empty()).collect();
    let std: Vec<Vec<String>> = text
        .lines()
        .map(|l| l.split_whitespace().map(|w| w.to_string()).collect::<Vec<String>>())
        .filter(|l| !l.is_empty())
        .collect();
    assert_eq!(ours, std);
}

#[test]
fn parse_i32_like_std() {
    let cases = [
        "0", "7", "-7", "+7", "+", "-", "", "12a", "2147483647", "2147483648", "-2147483648",
        "-2147483649", "0000000000000000000000042", "99999999999999999999", "--1", " 1",
    ];
    for c in cases.iter() {
        let chars: Vec<char> = c.chars().collect();
        assert_eq!(parse_i32(&chars), c.parse::<i32>().ok(), "{:?}", c);
    }
}

#[test]
fn obj_vertices_of_well_formed_text() {
    let text = "# cube\nv 1.0 2.0 3.0\nv -1 -2 -3 extra\nf 0 1 1\nvn 0 0 1\n\nv 4 5 6\nf 2 +0 1\n";
    let vs = parse_obj_vertices(text).expect("well formed");
    assert_eq!(vs.len(), 3);
    assert_eq!((s(&vs[0].x), s(&vs[0].y), s(&vs[0].z)), ("1.0".into(), "2.0".into(), "3.0".into()));
    assert_eq!((s(&vs[1].x), s(&vs[1].y), s(&vs[1].z)), ("-1".into(), "-2".into(), "-3".into()));
    assert_eq!((s(&vs[2].x), s(&vs[2].y), s(&vs[2].z)), ("4".into(), "5".into(), "6".into()));
    assert_eq!(parse_obj_vertices("").map(|v| v.len()), Some(0));
}

#[test]
fn obj_malformed_text() {
    // a vertex line without three coordinates
    assert!(parse_obj_vertices("v 1 2\n").is_none());
    // a face that points past the vertices read so far
    assert!(parse_obj_vertices("v 1 2 3\nf 0 0 1\n").is_none());
    // a face before any vertex
    assert!(parse_obj_vertices("f 0 0 0\nv 1 2 3\n").is_none());
    // a negative face index
    assert!(parse_obj_vertices("v 1 2 3\nf 0 -1 0\n").is_none());
    // a face index that is not a number
    assert!(parse_obj_vertices("v 1 2 3\nf 0 x 0\n").is_none());
    // a face line that is too short
    assert!(parse_obj_vertices("v 1 2 3\nf 0 0\n").is_none());
}

fn coords(text: &str) -> Option<Vec<(String, String, String)>> {
    parse_obj_vertices(text).map(|vs| vs.iter().map(|v| (s(&v.x), s(&v.y), s(&v.z))).collect())
}

#[test]
fn other_lines_change_nothing() {
    let a = "v 1 2 3\n";
    let b = "v 4 5 6\nf 0 1 1\n";
    let x = "\n# comment\nvn 0 0 1\nvt 1 2\no thing\ns off\nV 9 9 9\n";
    assert_eq!(coords(&format!("{}{}{}", a, x, b)), coords(&format!("{}{}", a, b)));
    assert!(coords(&format!("{}{}", a, b)).is_some());
    // malformed stays malformed
    let bad = "f 0 0 5\n";
    assert_eq!(coords(&format!("{}{}{}", a, x, bad)), None);
    assert_eq!(coords(&format!("{}{}", a, bad)), None);
}

#[test]
fn concatenated_texts_concatenate_vertices() {
    let a = "v 1 2 3\nf 0 0 0\n";
    let b = "v 4 5 6\n# no faces\nv 7 8 9";
    let mut joined = coords(a).unwrap();
    joined.extend(coords(b).unwrap());
    assert_eq!(coords(&format!("{}{}", a, b)), Some(joined));
    assert_eq!(coords(&format!("{}{}", a, "v 1 2\n")), None);
}
