use maxwell::obj::{parse_obj, ObjData, ParseError, Vertex};

fn parsed(src: &str, material: Option<&str>) -> ObjData {
    match parse_obj(src, material) {
        Ok(o) => o,
        Err(e) => panic!("parse failed: {:?}", e),
    }
}

fn position(v: &Vertex) -> Vec<f32> {
    v.position.iter().map(|s| s.parse::<f32>().unwrap()).collect()
}

fn tex(v: &Vertex) -> Vec<f32> {
    match &v.tex_coords {
        Some(t) => t.iter().map(|s| s.parse::<f32>().unwrap()).collect(),
        None => vec![0.0, 0.0],
    }
}

#[test]
fn triangle_without_texture() {
    let o = parsed("v 0 0 0\nv 1 0 0\nv 0 1 0\nf 1 2 3\n", None);
    assert_eq!(o.vertices.len(), 3);
    assert_eq!(position(&o.vertices[0]), vec![0.0, 0.0, 0.0]);
    assert_eq!(position(&o.vertices[1]), vec![1.0, 0.0, 0.0]);
    assert_eq!(position(&o.vertices[2]), vec![0.0, 1.0, 0.0]);
    for v in &o.vertices {
        assert!(v.tex_coords.is_none());
        assert_eq!(tex(v), vec![0.0, 0.0]);
    }
    assert_eq!(o.indices, vec![0, 1, 2]);
}

#[test]
fn corner_takes_texture_coordinates() {
    let o = parsed("v 0 0 0\nvt 0.5 0.5\nf 1/1\n", None);
    assert_eq!(tex(&o.vertices[0]), vec![0.5, 0.5]);
    assert_eq!(o.vertices[0].tex_coords, Some(["0.5".to_string(), "0.5".to_string()]));
    assert_eq!(o.indices, vec![0]);
}

#[test]
fn material_filter_selects_faces() {
    let src = "v 0 0 0\nusemtl A\nf 1\nusemtl B\nf 1\n";
    assert_eq!(parsed(src, Some("A")).indices, vec![0]);
    assert_eq!(parsed(src, Some("B")).indices, vec![0]);
    assert_eq!(parsed(src, None).indices, vec![0, 0]);
    assert_eq!(parsed(src, Some("C")).indices, Vec::<u32>::new());
}

#[test]
fn texture_index_out_of_range_is_ignored() {
    let o = parsed("v 0 0 0\nf 1/99\n", None);
    assert_eq!(o.indices, vec![0]);
    assert!(o.vertices[0].tex_coords.is_none());
    assert_eq!(tex(&o.vertices[0]), vec![0.0, 0.0]);
}

#[test]
fn vertex_with_two_values_is_malformed() {
    assert!(matches!(parse_obj("v 1 2\n", None), Err(ParseError::MalformedDirective)));
}

#[test]
fn vertex_with_four_values_is_malformed() {
    assert!(matches!(parse_obj("v 1 2 3 4\n", None), Err(ParseError::MalformedDirective)));
}

#[test]
fn non_numeric_vertex_is_malformed() {
    assert!(matches!(parse_obj("v 1 x 3\n", None), Err(ParseError::MalformedDirective)));
    assert!(matches!(parse_obj("v 1 . 3\n", None), Err(ParseError::MalformedDirective)));
    assert!(matches!(parse_obj("v 1 1e 3\n", None), Err(ParseError::MalformedDirective)));
}

#[test]
fn texture_line_arity_and_numbers() {
    assert!(matches!(parse_obj("vt 1\n", None), Err(ParseError::MalformedDirective)));
    assert!(matches!(parse_obj("vt 1 2 3\n", None), Err(ParseError::MalformedDirective)));
    assert!(matches!(parse_obj("vt a 2\n", None), Err(ParseError::MalformedDirective)));
}

#[test]
fn float_forms_accepted() {
    let o = parsed("v -1.5 +2. .25\nv 1e3 -2.5E-2 inf\nv NaN Infinity -INF\n", None);
    assert_eq!(position(&o.vertices[0]), vec![-1.5, 2.0, 0.25]);
    assert_eq!(position(&o.vertices[1])[0], 1000.0);
    assert_eq!(position(&o.vertices[1])[1], -0.025);
    assert!(position(&o.vertices[1])[2].is_infinite());
    assert!(position(&o.vertices[2])[0].is_nan());
}

#[test]
fn face_position_must_be_positive_integer() {
    assert!(matches!(parse_obj("v 0 0 0\nf 0\n", None), Err(ParseError::MalformedDirective)));
    assert!(matches!(parse_obj("v 0 0 0\nf x\n", None), Err(ParseError::MalformedDirective)));
    assert!(matches!(parse_obj("v 0 0 0\nf /1\n", None), Err(ParseError::MalformedDirective)));
    assert!(matches!(parse_obj("v 0 0 0\nf -1\n", None), Err(ParseError::MalformedDirective)));
}

#[test]
fn forward_reference_is_dangling() {
    assert!(matches!(parse_obj("f 1\nv 0 0 0\n", None), Err(ParseError::DanglingReference)));
    assert!(matches!(parse_obj("v 0 0 0\nf 1 2\n", None), Err(ParseError::DanglingReference)));
}

#[test]
fn faces_outside_the_filter_are_not_checked() {
    let o = parsed("v 0 0 0\nusemtl B\nf 7 x\nusemtl A\nf 1\n", Some("A"));
    assert_eq!(o.indices, vec![0]);
}

#[test]
fn blank_and_unknown_lines_are_ignored() {
    let o = parsed("\n# comment\nvn 0 0 1\no thing\n  \nv 0 0 0\r\n\tf  1  \n", None);
    assert_eq!(o.vertices.len(), 1);
    assert_eq!(o.indices, vec![0]);
}

#[test]
fn empty_source_gives_empty_mesh() {
    let o = parsed("", None);
    assert!(o.vertices.is_empty());
    assert!(o.indices.is_empty());
}

#[test]
fn corner_with_normal_and_bad_texture_fields() {
    let o = parsed("v 0 0 0\nv 1 1 1\nvt 0.1 0.2\nvt 0.3 0.4\nf 1/2/9 2//1 1/x\n", None);
    assert_eq!(o.indices, vec![0, 1, 0]);
    assert_eq!(tex(&o.vertices[0]), vec![0.3, 0.4]);
    assert!(o.vertices[1].tex_coords.is_none());
}

#[test]
fn later_corner_overwrites_texture() {
    let o = parsed("v 0 0 0\nvt 1 0\nvt 0 1\nf 1/1\nf 1/2\n", None);
    assert_eq!(tex(&o.vertices[0]), vec![0.0, 1.0]);
    assert_eq!(o.indices, vec![0, 0]);
}

#[test]
fn face_arity_is_not_checked() {
    let o = parsed("v 0 0 0\nv 1 0 0\nv 0 1 0\nv 1 1 0\nf 1 2 3 4\nf 2\n", None);
    assert_eq!(o.indices, vec![0, 1, 2, 3, 1]);
}

#[test]
fn empty_filter_selects_faces_before_any_material() {
    let o = parsed("v 0 0 0\nf 1\nusemtl A\nf 1 1\n", Some(""));
    assert_eq!(o.indices, vec![0]);
}

#[test]
fn parsing_twice_gives_the_same_output() {
    let src = "v 0 0 0\nv 1 0 0\nvt 0.5 0.25\nusemtl A\nf 1/1 2\nusemtl B\nf 2 1\n";
    let a = parsed(src, Some("A"));
    let b = parsed(src, Some("A"));
    assert_eq!(a.indices, b.indices);
    assert_eq!(a.vertices.len(), b.vertices.len());
    for (x, y) in a.vertices.iter().zip(b.vertices.iter()) {
        assert_eq!(x.position, y.position);
        assert_eq!(x.tex_coords, y.tex_coords);
    }
}

#[test]
fn unfiltered_indices_interleave_group_indices() {
    let src = "v 0 0 0\nv 1 0 0\nusemtl A\nf 1 2\nusemtl B\nf 2\nusemtl A\nf 2 1\n";
    assert_eq!(parsed(src, None).indices, vec![0, 1, 1, 1, 0]);
    assert_eq!(parsed(src, Some("A")).indices, vec![0, 1, 1, 0]);
    assert_eq!(parsed(src, Some("B")).indices, vec![1]);
}

#[test]
fn index_count_equals_accepted_corner_count() {
    let src = "v 0 0 0\nusemtl A\nf 1 1 1\nusemtl B\nf 1 1\n";
    assert_eq!(parsed(src, None).indices.len(), 5);
    assert_eq!(parsed(src, Some("A")).indices.len(), 3);
    assert_eq!(parsed(src, Some("B")).indices.len(), 2);
}

#[test]
fn large_index_is_malformed() {
    assert!(matches!(
        parse_obj("v 0 0 0\nf 99999999999999999999999\n", None),
        Err(ParseError::MalformedDirective)
    ));
    assert!(matches!(parse_obj("v 0 0 0\nf 4294967296\n", None), Err(ParseError::DanglingReference)));
    let o = parsed("v 0 0 0\nf +1/+1\n", None);
    assert_eq!(o.indices, vec![0]);
}

#[test]
fn every_index_names_a_declared_vertex() {
    let src = "v 0 0 0\nf 1\nv 1 0 0\nv 0 1 0\nf 3 2 1\nusemtl A\nf 2/1 3\n";
    for material in [None, Some("A"), Some("")] {
        let o = parsed(src, material);
        assert!(o.indices.iter().all(|&i| (i as usize) < o.vertices.len()));
    }
    assert_eq!(parsed(src, None).indices, vec![0, 2, 1, 0, 1, 2]);
}
