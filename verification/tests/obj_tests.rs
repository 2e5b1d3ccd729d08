use robo_sim4::obj::{parse_index, parse_obj, ObjError, ObjErrorKind, ObjFace};
use robo_sim4::text::{split_chars, trim_chars};

fn chars(s: &str) -> Vec<char> {
    s.chars().collect()
}

fn text(v: &[char]) -> String {
    v.iter().collect()
}

fn face(a: usize, b: usize, c: usize) -> ObjFace {
    ObjFace { a, b, c }
}

fn err(line: usize, kind: ObjErrorKind) -> ObjError {
    ObjError { line, kind }
}

#[test]
fn reads_vertices_and_faces_counted_from_one() {
    let d = parse_obj("v 1.0 2.0 3.0\nv -1 0 0.5\nv 0 0 0\nf 1 2 3\nf 3 1 2\n").unwrap();
    assert_eq!(d.vertices.len(), 3);
    assert_eq!(text(&d.vertices[0].x), "1.0");
    assert_eq!(text(&d.vertices[1].x), "-1");
    assert_eq!(text(&d.vertices[1].z), "0.5");
    assert_eq!(d.faces, vec![face(0, 1, 2), face(2, 0, 1)]);
}

#[test]
fn other_lines_are_ignored() {
    let d = parse_obj("# a comment\nvn 0 0 1\n\ns off\nv 0 0 0\nusemtl x\nf 1 1 1").unwrap();
    assert_eq!(d.vertices.len(), 1);
    assert_eq!(d.faces, vec![face(0, 0, 0)]);
}

#[test]
fn empty_text_has_nothing() {
    let d = parse_obj("").unwrap();
    assert!(d.vertices.is_empty() && d.faces.is_empty());
}

#[test]
fn windows_line_ends_and_surrounding_space_are_trimmed() {
    let d = parse_obj("  v 1 2 3\r\n\tv 4 5 6 \r\nf 1 2 2\u{3000}\r\n").unwrap();
    assert_eq!(d.vertices.len(), 2);
    assert_eq!(text(&d.vertices[0].z), "3");
    assert_eq!(text(&d.vertices[1].z), "6");
    assert_eq!(d.faces, vec![face(0, 1, 1)]);
}

#[test]
fn values_after_the_third_are_ignored() {
    let d = parse_obj("v 1 2 3 4\nv 1 1 1\nv 2 2 2\nv 3 3 3\nf 1 2 3 4").unwrap();
    assert_eq!(d.vertices.len(), 4);
    assert_eq!(d.faces, vec![face(0, 1, 2)]);
}

#[test]
fn a_short_vertex_line_is_an_error() {
    assert_eq!(parse_obj("v 1 2 3\nv 1 2").err(), Some(err(1, ObjErrorKind::MissingField)));
    assert_eq!(parse_obj("v").err(), Some(err(0, ObjErrorKind::MissingField)));
}

#[test]
fn a_short_face_line_is_an_error() {
    assert_eq!(parse_obj("v 0 0 0\nf 1 1").err(), Some(err(1, ObjErrorKind::MissingField)));
}

#[test]
fn a_face_value_that_is_no_number_is_an_error() {
    assert_eq!(parse_obj("v 0 0 0\nf 1 x").err(), Some(err(1, ObjErrorKind::NotAnIndex)));
    assert_eq!(parse_obj("v 0 0 0\nf 1/1/1 1 1").err(), Some(err(1, ObjErrorKind::NotAnIndex)));
    assert_eq!(parse_obj("v 0 0 0\nf -1 1 1").err(), Some(err(1, ObjErrorKind::NotAnIndex)));
    assert_eq!(parse_obj("v 0 0 0\nf  1 1 1").err(), Some(err(1, ObjErrorKind::NotAnIndex)));
}

#[test]
fn a_face_value_out_of_range_is_an_error() {
    assert_eq!(parse_obj("v 0 0 0\nf 1 1 0").err(), Some(err(1, ObjErrorKind::IndexOutOfRange)));
    assert_eq!(parse_obj("v 0 0 0\nf 1 2 1").err(), Some(err(1, ObjErrorKind::IndexOutOfRange)));
}

#[test]
fn a_face_may_only_use_vertices_read_before_it() {
    assert_eq!(
        parse_obj("v 0 0 0\nf 1 1 2\nv 1 1 1").err(),
        Some(err(1, ObjErrorKind::IndexOutOfRange))
    );
}

#[test]
fn the_first_bad_line_is_reported() {
    assert_eq!(parse_obj("v 0 0 0\n\nf 1\nv 1").err(), Some(err(2, ObjErrorKind::MissingField)));
}

#[test]
fn index_tokens_read_as_usize_does() {
    for t in ["0", "7", "+12", "0012", "18446744073709551615", "", "+", "-3", "1x", "٣", "18446744073709551616", "99999999999999999999999"] {
        let want = t.parse::<usize>().ok();
        assert_eq!(parse_index(&chars(t)), want, "token {:?}", t);
    }
}

#[test]
fn trimming_matches_str_trim() {
    for t in ["", "  ", " a b ", "\t\n x\u{a0}", "\u{2003}y\u{200b}", "\r\nz\r"] {
        assert_eq!(text(&trim_chars(&chars(t))), t.trim(), "text {:?}", t);
    }
}

#[test]
fn splitting_matches_str_split() {
    for t in ["", " ", "a b", "a  b ", "f 1 2 3"] {
        let got: Vec<String> = split_chars(&chars(t), ' ').iter().map(|p| text(p)).collect();
        let want: Vec<String> = t.split(' ').map(String::from).collect();
        assert_eq!(got, want, "text {:?}", t);
    }
}
