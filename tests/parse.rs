use objective::{ElementDataType, ErrorKind, Mesh, Model, ObjLoadError, ObjParseError, Statement};

const SQUARE: &str = "v 0 0 0\nv 1 0 0\nv 1 1 0\nv 0 1 0\n";

fn records(mesh: &Mesh) -> Vec<(Vec<u16>, ElementDataType)> {
    let mut it = mesh.iter_elements();
    let mut out = Vec::new();
    while let Some(item) = it.next() {
        let (indices, kind) = item.expect("element buffer decodes");
        out.push((indices.to_vec(), kind));
    }
    out
}

fn floats(tokens: &[String]) -> Vec<f32> {
    tokens.iter().map(|t| t.parse::<f32>().unwrap()).collect()
}

fn parse_err(text: &str) -> ObjParseError {
    Model::parse(text).expect_err("parse fails")
}

#[test]
fn end_to_end_square() {
    let text = format!("{SQUARE}f 1 2 3 4\n");
    let model = Model::parse(&text).unwrap();
    assert_eq!(model.meshes.len(), 1);
    let mesh = &model.meshes[0];
    assert_eq!(
        floats(&mesh.vertices),
        vec![0.0, 0.0, 0.0, 1.0, 0.0, 0.0, 1.0, 1.0, 0.0, 0.0, 1.0, 0.0]
    );
    assert!(mesh.normals.is_empty());
    assert!(mesh.uvs.is_empty());
    assert_eq!(mesh.elements, vec![0, 4, 0, 1, 2, 3]);
    assert_eq!(records(mesh), vec![(vec![0, 1, 2, 3], ElementDataType::VertexOnly)]);
    assert!(model.warnings.is_empty());
}

#[test]
fn negative_indices_match_positive() {
    let text = format!("{SQUARE}f -4 -3 -2 -1\n");
    let model = Model::parse(&text).unwrap();
    assert_eq!(records(&model.meshes[0]), vec![(vec![0, 1, 2, 3], ElementDataType::VertexOnly)]);
}

#[test]
fn negative_index_relative_to_statement() {
    let text = "v 0 0 0\nv 1 0 0\nv 1 1 0\nf -3 -2 -1\nv 0 1 0\nf -1 -2 -3\n";
    let model = Model::parse(text).unwrap();
    assert_eq!(
        records(&model.meshes[0]),
        vec![
            (vec![0, 1, 2], ElementDataType::VertexOnly),
            (vec![3, 2, 1], ElementDataType::VertexOnly),
        ]
    );
}

#[test]
fn degenerate_face() {
    let text = format!("{SQUARE}f 1 2\n");
    let e = parse_err(&text);
    assert_eq!(e.line, 5);
    assert_eq!(e.kind, ErrorKind::DegenerateFace { corners: 2 });
    assert_eq!(e.token, "f");
}

#[test]
fn triangle_is_vertex_only() {
    let text = format!("{SQUARE}f 1 2 3\n");
    let model = Model::parse(&text).unwrap();
    assert_eq!(records(&model.meshes[0]), vec![(vec![0, 1, 2], ElementDataType::VertexOnly)]);
}

#[test]
fn unknown_statement_is_skipped() {
    let text = format!("g groupname\n{SQUARE}s off\nf 1 2 3\n");
    let model = Model::parse(&text).unwrap();
    assert_eq!(model.meshes.len(), 1);
    assert_eq!(model.meshes[0].vertices.len(), 12);
    assert_eq!(records(&model.meshes[0]).len(), 1);
    assert_eq!(model.warnings.len(), 2);
    assert_eq!(model.warnings[0].line, 1);
    assert_eq!(model.warnings[0].tag, "g");
    assert_eq!(model.warnings[1].line, 6);
    assert_eq!(model.warnings[1].tag, "s");
}

#[test]
fn vertex_dimension_two_and_four() {
    let e = parse_err("v 1 2\n");
    assert_eq!(
        e.kind,
        ErrorKind::Dimension { statement: Statement::Vertex, expected: 3, found: 2 }
    );
    assert_eq!(e.token, "v");
    let e = parse_err("v 1 2 3\nv 1 2 3 4\n");
    assert_eq!(e.line, 2);
    assert_eq!(
        e.kind,
        ErrorKind::Dimension { statement: Statement::Vertex, expected: 3, found: 4 }
    );
}

#[test]
fn normal_dimension_two_and_four() {
    let e = parse_err("vn 0 1\n");
    assert_eq!(
        e.kind,
        ErrorKind::Dimension { statement: Statement::Normal, expected: 3, found: 2 }
    );
    let e = parse_err("vn 0 1 0 1\n");
    assert_eq!(
        e.kind,
        ErrorKind::Dimension { statement: Statement::Normal, expected: 3, found: 4 }
    );
}

#[test]
fn texcoord_dimension_one_and_three() {
    let e = parse_err("vt 0.5\n");
    assert_eq!(
        e.kind,
        ErrorKind::Dimension { statement: Statement::TexCoord, expected: 2, found: 1 }
    );
    let e = parse_err("vt 0.5 0.5 0\n");
    assert_eq!(
        e.kind,
        ErrorKind::Dimension { statement: Statement::TexCoord, expected: 2, found: 3 }
    );
    let model = Model::parse("vt 0.5 0.25\n").unwrap();
    assert_eq!(floats(&model.meshes[0].uvs), vec![0.5, 0.25]);
}

#[test]
fn missing_arguments() {
    let e = parse_err("v\n");
    assert_eq!(e.kind, ErrorKind::MissingArguments { statement: Statement::Vertex });
    let e = parse_err("f   \n");
    assert_eq!(e.kind, ErrorKind::MissingArguments { statement: Statement::Face });
    assert_eq!(e.token, "f");
}

#[test]
fn component_number_format() {
    let e = parse_err("# header\nv 1 x 3\n");
    assert_eq!(e.line, 2);
    assert_eq!(e.kind, ErrorKind::NumberFormat);
    assert_eq!(e.token, "x");
    for bad in ["1e", ".", "-", "1.2.3", "e5", "1,5", "na", "infin", "+-inf", "nan1"] {
        let e = parse_err(&format!("v 0 0 {bad}\n"));
        assert_eq!(e.kind, ErrorKind::NumberFormat, "{bad}");
        assert_eq!(e.token, bad);
    }
}

#[test]
fn decimal_forms_accepted() {
    let model = Model::parse("v -1.5 +2. .25\nvn 1e3 -2.5E-2 0\n").unwrap();
    let mesh = &model.meshes[0];
    assert_eq!(floats(&mesh.vertices), vec![-1.5, 2.0, 0.25]);
    assert_eq!(floats(&mesh.normals), vec![1000.0, -0.025, 0.0]);
    assert_eq!(mesh.vertices[1], "+2.");
}

#[test]
fn special_float_tokens_accepted() {
    let model = Model::parse("v inf -INF +Infinity\nvn NaN -nan 0\nvt iNf 1\n").unwrap();
    let mesh = &model.meshes[0];
    let v = floats(&mesh.vertices);
    assert_eq!(v[0], f32::INFINITY);
    assert_eq!(v[1], f32::NEG_INFINITY);
    assert_eq!(v[2], f32::INFINITY);
    assert!(floats(&mesh.normals)[0].is_nan());
    assert_eq!(mesh.uvs.len(), 2);
}

#[test]
fn special_float_tokens_counted_as_components() {
    let e = parse_err("v inf 0\n");
    assert_eq!(
        e.kind,
        ErrorKind::Dimension { statement: Statement::Vertex, expected: 3, found: 2 }
    );
    let e = parse_err("vt inf\n");
    assert_eq!(
        e.kind,
        ErrorKind::Dimension { statement: Statement::TexCoord, expected: 2, found: 1 }
    );
}

#[test]
fn index_reference_not_a_number() {
    let e = parse_err(&format!("{SQUARE}f 1 2 a\n"));
    assert_eq!(e.kind, ErrorKind::NumberFormat);
    assert_eq!(e.token, "a");
    let e = parse_err(&format!("{SQUARE}f 1 2 99999999999999999999\n"));
    assert_eq!(e.kind, ErrorKind::NumberFormat);
}

#[test]
fn zero_index_fails() {
    let e = parse_err(&format!("{SQUARE}f 0 1 2\n"));
    assert_eq!(e.line, 5);
    assert_eq!(e.kind, ErrorKind::Index { reference: 0 });
    assert_eq!(e.token, "0");
}

#[test]
fn out_of_range_indices_fail() {
    let e = parse_err(&format!("{SQUARE}f 1 2 5\n"));
    assert_eq!(e.kind, ErrorKind::Index { reference: 5 });
    let e = parse_err(&format!("{SQUARE}f -5 1 2\n"));
    assert_eq!(e.kind, ErrorKind::Index { reference: -5 });
    let e = parse_err("f 1 2 3\nv 0 0 0\n");
    assert_eq!(e.kind, ErrorKind::Index { reference: 1 });
    assert_eq!(e.line, 1);
}

#[test]
fn normal_and_all_signatures() {
    let text = "v 0 0 0\nv 1 0 0\nv 1 1 0\nvn 0 0 1\nvn 0 1 0\nvt 0 0\nvt 1 0\nvt 1 1\n\
                f 1//1 2//2 3//1\nf 3/3/2 2/2/1 1/1/2\n";
    let model = Model::parse(text).unwrap();
    let mesh = &model.meshes[0];
    assert_eq!(mesh.normals.len(), 6);
    assert_eq!(mesh.uvs.len(), 6);
    assert_eq!(
        records(mesh),
        vec![
            (vec![0, 0, 1, 1, 2, 0], ElementDataType::VertexAndNormal),
            (vec![2, 2, 1, 1, 1, 0, 0, 0, 1], ElementDataType::All),
        ]
    );
    assert_eq!(mesh.elements[0], 1);
    assert_eq!(mesh.elements[1], 3);
    assert_eq!(mesh.elements[8], 2);
    assert_eq!(mesh.elements[9], 3);
}

#[test]
fn trailing_slash_is_vertex_only() {
    let text = format!("{SQUARE}f 1/ 2/ 3/\n");
    let model = Model::parse(&text).unwrap();
    assert_eq!(records(&model.meshes[0]), vec![(vec![0, 1, 2], ElementDataType::VertexOnly)]);
}

#[test]
fn corner_syntax_errors() {
    let base = "v 0 0 0\nv 1 0 0\nv 1 1 0\nvn 0 0 1\nvt 0 0\n";
    let e = parse_err(&format!("{base}f 1/1 2/1 3/1\n"));
    assert_eq!(e.kind, ErrorKind::CornerSyntax);
    assert_eq!(e.token, "1/1");
    let e = parse_err(&format!("{base}f 1//1 2/1/1 3//1\n"));
    assert_eq!(e.kind, ErrorKind::CornerSyntax);
    assert_eq!(e.token, "2/1/1");
    assert_eq!(e.line, 6);
    let e = parse_err(&format!("{base}f 1/1/1/1 2 3\n"));
    assert_eq!(e.kind, ErrorKind::CornerSyntax);
    assert_eq!(e.token, "1/1/1/1");
    let e = parse_err(&format!("{base}f 1 2 3//1\n"));
    assert_eq!(e.kind, ErrorKind::CornerSyntax);
    assert_eq!(e.token, "3//1");
    let e = parse_err(&format!("{base}f 1//2 2//1 3//1\n"));
    assert_eq!(e.kind, ErrorKind::Index { reference: 2 });
}

#[test]
fn short_uv_face_is_degenerate() {
    let base = "v 0 0 0\nv 1 0 0\nvt 0 0\n";
    let e = parse_err(&format!("{base}f 1/1 2/1\n"));
    assert_eq!(e.kind, ErrorKind::DegenerateFace { corners: 2 });
    assert_eq!(e.line, 4);
    let e = parse_err(&format!("{base}f 1/1 2/2\n"));
    assert_eq!(e.kind, ErrorKind::Index { reference: 2 });
    assert_eq!(e.token, "2");
}

#[test]
fn references_checked_before_corner_forms() {
    let base = "v 0 0 0\nv 1 0 0\nv 1 1 0\nvn 0 0 1\nvt 0 0\n";
    let e = parse_err(&format!("{base}f 1//1 2/1/1 5//1\n"));
    assert_eq!(e.kind, ErrorKind::Index { reference: 5 });
    let e = parse_err(&format!("{base}f 1/1 2/1 3/x\n"));
    assert_eq!(e.kind, ErrorKind::NumberFormat);
    assert_eq!(e.token, "x");
}

#[test]
fn face_too_large() {
    let mut text = String::from("v 0 0 0\nf");
    for _ in 0..65536 {
        text.push_str(" 1");
    }
    let e = parse_err(&text);
    assert_eq!(e.kind, ErrorKind::FaceTooLarge { corners: 65536 });
    assert_eq!(e.line, 2);
}

#[test]
fn comments_blank_lines_and_crlf() {
    let text = "# a comment\r\n\r\n   \t\r\nv 0 0 0\r\nv 1 0 0\r\nv 0 1 0\r\nf 1 2 3\r\n";
    let model = Model::parse(text).unwrap();
    let mesh = &model.meshes[0];
    assert_eq!(mesh.vertices.len(), 9);
    assert_eq!(records(mesh), vec![(vec![0, 1, 2], ElementDataType::VertexOnly)]);
    assert!(model.warnings.is_empty());
}

#[test]
fn empty_input_gives_empty_mesh() {
    let model = Model::parse("").unwrap();
    assert_eq!(model.meshes.len(), 1);
    assert!(model.meshes[0].vertices.is_empty());
    assert!(model.meshes[0].elements.is_empty());
    assert_eq!(records(&model.meshes[0]), vec![]);
}

#[test]
fn iteration_restarts() {
    let text = format!("{SQUARE}f 1 2 3\nf 4 3 2 1\n");
    let model = Model::parse(&text).unwrap();
    let mesh = &model.meshes[0];
    let first = records(mesh);
    let second = records(mesh);
    assert_eq!(first, second);
    assert_eq!(first.len(), 2);
    assert_eq!(first[1], (vec![3, 2, 1, 0], ElementDataType::VertexOnly));
}

#[test]
fn corrupt_buffers_are_reported() {
    let cases: Vec<Vec<u16>> = vec![vec![0], vec![0, 5, 1, 2], vec![7, 1, 0], vec![2, 1, 0, 0]];
    for elements in cases {
        let mesh = Mesh { vertices: vec![], normals: vec![], uvs: vec![], elements };
        let mut it = mesh.iter_elements();
        let e = it.next().unwrap().unwrap_err();
        assert_eq!(e.kind, ErrorKind::CorruptElementBuffer);
        assert!(it.next().is_none());
    }
    let mesh = Mesh { vertices: vec![], normals: vec![], uvs: vec![], elements: vec![0, 1, 4, 9] };
    let mut it = mesh.iter_elements();
    assert_eq!(it.next().unwrap().unwrap(), (&[4u16][..], ElementDataType::VertexOnly));
    assert_eq!(it.next().unwrap().unwrap_err().kind, ErrorKind::CorruptElementBuffer);
}

#[test]
fn element_tags() {
    assert_eq!(ElementDataType::VertexOnly.into_element_data(), 0);
    assert_eq!(ElementDataType::VertexAndNormal.into_element_data(), 1);
    assert_eq!(ElementDataType::All.into_element_data(), 2);
    for t in [ElementDataType::VertexOnly, ElementDataType::VertexAndNormal, ElementDataType::All] {
        assert_eq!(ElementDataType::from_element_data(t.into_element_data()), t);
    }
}

#[test]
fn load_passes_read_errors_and_parses_text() {
    let err = std::io::Error::new(std::io::ErrorKind::NotFound, "missing");
    match Model::from_read(Err(err)) {
        Err(ObjLoadError::Io(e)) => assert_eq!(e.kind(), std::io::ErrorKind::NotFound),
        other => panic!("unexpected {other:?}"),
    }
    match Model::from_read(Ok(String::from("v 1 2\n"))) {
        Err(ObjLoadError::Parse(e)) => assert_eq!(e.line, 1),
        other => panic!("unexpected {other:?}"),
    }
    let model = Model::from_read(Ok(format!("{SQUARE}f 1 2 3\n"))).unwrap();
    assert_eq!(model.meshes[0].elements, vec![0, 3, 0, 1, 2]);
}
