use render_rs::parser::ast::{has_word, last_word, RibRequest, RibValue};
use render_rs::parser::binary::{
    decode_to_text, encode_binary, encode_text, looks_binary, push_quoted, put_string,
    read_be_int, read_be_uint, read_string, BinaryError,
};
use render_rs::parser::parser::parse_rib;
use render_rs::parser::{parse_rib_bytes, RibError};

const SAMPLE: &str = r#"
        Format 320 240 1.0
        Projection "perspective" "fov" [45.5]
        WorldBegin
            Color 0.8 0.25 0.125
            Bxdf "PxrSurface" "mat" "diffuseColor" [0.5 0.25 0.75]
            Sphere 1 -1 1 360
            PointsPolygons [4] [0 1 2 3] "P" [-1 0 -1  1 0 -1  1 0 1  -1 0 1]
        WorldEnd
    "#;

fn f(bits: u64) -> f64 {
    f64::from_bits(bits)
}

fn near(a: &[RibRequest], b: &[RibRequest]) {
    assert_eq!(a.len(), b.len());
    for (a, b) in a.iter().zip(b) {
        assert_eq!(a.name, b.name);
        assert_eq!(a.values.len(), b.values.len(), "request {}", a.name);
        for (va, vb) in a.values.iter().zip(&b.values) {
            match (va, vb) {
                (RibValue::Number(x), RibValue::Number(y)) => {
                    assert!((f(*x) - f(*y)).abs() < 1e-6, "{x} vs {y}")
                }
                (RibValue::Numbers(x), RibValue::Numbers(y)) => {
                    assert_eq!(x.len(), y.len());
                    for (m, n) in x.iter().zip(y) {
                        assert!((f(*m) - f(*n)).abs() < 1e-6);
                    }
                }
                (a, b) => assert_eq!(a, b),
            }
        }
    }
}

#[test]
fn binary_round_trip() {
    let parsed = parse_rib(SAMPLE).unwrap();
    let binary = encode_binary(&parsed);
    assert!(looks_binary(&binary));
    let reparsed = parse_rib_bytes(&binary).unwrap();
    near(&parsed, &reparsed);
}

#[test]
fn text_round_trip_and_shrink() {
    let parsed = parse_rib(SAMPLE).unwrap();
    let text = encode_text(&parsed);
    let reparsed = parse_rib(&text).unwrap();
    assert_eq!(parsed.len(), reparsed.len());
    let mut heavy = String::from("PointsPolygons [4] [0 1 2 3] \"P\" [");
    for i in 0..2000 {
        heavy.push_str(&format!("{:.4} ", (i as f64 * 0.7311).sin() * 3.7));
    }
    heavy.push(']');
    let parsed_heavy = parse_rib(&heavy).unwrap();
    let text_heavy = encode_text(&parsed_heavy);
    let binary_heavy = encode_binary(&parsed_heavy);
    assert!(
        (binary_heavy.len() as f64) < text_heavy.len() as f64 * 0.75,
        "{} vs {}",
        binary_heavy.len(),
        text_heavy.len()
    );
}

#[test]
fn string_token_definitions_decode() {
    let mut data = Vec::new();
    data.push(0xCC);
    data.push(0);
    put_string(&mut data, "Option");
    data.push(0xA6);
    data.push(0);
    data.push(0xC8);
    data.push(7);
    put_string(&mut data, "searchpath");
    data.push(0xCD);
    data.push(7);
    data.push(0xCD);
    data.push(7);
    let (text, _) = decode_to_text(&data).unwrap();
    let parsed = parse_rib(text.as_str()).unwrap();
    assert_eq!(parsed[0].name, "Option");
    assert_eq!(parsed[0].string(0), Some("searchpath"));
}

/// The byte decoder and both parsers must never panic on garbage.
#[test]
fn fuzz_no_panic() {
    let mut seed = 0x9e3779b97f4a7c15u64;
    let mut rand = || {
        seed ^= seed << 13;
        seed ^= seed >> 7;
        seed ^= seed << 17;
        seed
    };
    for case in 0..300 {
        let len = (rand() % 512) as usize + 1;
        let mut data = Vec::with_capacity(len);
        for _ in 0..len {
            data.push(if case % 3 == 0 {
                (rand() % 96 + 32) as u8
            } else {
                (rand() % 256) as u8
            });
        }
        let _ = parse_rib_bytes(&data);
    }
    for cut in 0..20 {
        let parsed = parse_rib("Sphere 1 -1 1 360").unwrap();
        let bin = encode_binary(&parsed);
        let _ = parse_rib_bytes(&bin[..bin.len().saturating_sub(cut)]);
    }
}

#[test]
fn test_parse_display() {
    let file = parse_rib(r#"Display "output.ppm" "file" "rgb""#).unwrap();
    assert_eq!(file.len(), 1);
    assert_eq!(file[0].name, "Display");
    assert_eq!(file[0].string(0), Some("output.ppm"));
}

#[test]
fn test_parse_sphere() {
    let file = parse_rib("Sphere 1.0 -1.0 1.0 360").unwrap();
    assert_eq!(file[0].name, "Sphere");
    assert_eq!(file[0].number(3), Some(360.0f64.to_bits()));
}

#[test]
fn test_parse_simple_rib() {
    let input = r#"
            ##RenderMan RIB-Structure 1.1
            version 3.04
            Display "output.ppm" "file" "rgb"
            Format 640 480 1.0
            WorldBegin
                Sphere 1.0 -1.0 1.0 360
            WorldEnd
        "#;
    let file = parse_rib(input).unwrap();
    let names: Vec<&str> = file.iter().map(|r| r.name.as_str()).collect();
    assert_eq!(names, ["version", "Display", "Format", "WorldBegin", "Sphere", "WorldEnd"]);
}

#[test]
fn test_unknown_requests_parse() {
    let input = r#"
            Option "searchpath" "string shader" ["/shaders:@"]
            Attribute "identifier" "name" ["hero"]
            GeometricApproximation "motionfactor" 1.0
            SubdivisionMesh "catmull-clark" [4] [0 1 2 3] ["interpolateboundary"] [0 0] [] []
            ObjectBegin 1
            ObjectEnd
        "#;
    let file = parse_rib(input).unwrap();
    assert_eq!(file.len(), 6);
    assert_eq!(file[3].name, "SubdivisionMesh");
    assert_eq!(file[3].values.last(), Some(&RibValue::Numbers(vec![])));
}

#[test]
fn test_param_list_with_inline_declaration() {
    let file =
        parse_rib(r#"Surface "plastic" "uniform float roughness" [0.25] "Ks" 0.6"#).unwrap();
    let params = file[0].params_from(1);
    assert_eq!(params.get_number("roughness"), Some(0.25f64.to_bits()));
    assert_eq!(params.get_number("Ks"), Some(0.6f64.to_bits()));
    assert_eq!(params.get_number("Kd"), None);
    assert_eq!(params.len(), 2);
    assert_eq!(params.pair(1).0, "Ks");
}

#[test]
fn test_negative_and_scientific_numbers() {
    let file = parse_rib("ConcatTransform [1 0 0 0 0 1 0 0 0 0 1 0 -2.5e-1 0 3 1]").unwrap();
    let m = file[0].values[0].as_numbers().unwrap();
    assert_eq!(m.len(), 16);
    assert!((f(m[12]) + 0.25).abs() < 1e-12);
}

#[test]
fn test_string_array() {
    let file =
        parse_rib(r#"Procedural "DelayedReadArchive" ["big.rib"] [-1 1 -1 1 -1 1]"#).unwrap();
    assert_eq!(file[0].values[1], RibValue::Strings(vec!["big.rib".to_string()]));
}

#[test]
fn values_stand_in_for_arrays_of_one() {
    let n = 2.5f64.to_bits();
    assert_eq!(RibValue::Numbers(vec![n]).as_number(), Some(n));
    assert_eq!(RibValue::Numbers(vec![n, n]).as_number(), None);
    assert_eq!(RibValue::Number(n).as_numbers(), Some(&[n][..]));
    assert_eq!(RibValue::Strings(vec!["a".to_string()]).as_str(), Some("a"));
    assert_eq!(RibValue::Number(n).as_str(), None);
}

#[test]
fn words_of_a_declaration() {
    assert_eq!(last_word("uniform float roughness"), "roughness");
    assert_eq!(last_word("  Ks "), "Ks");
    assert_eq!(last_word(""), "");
    assert!(has_word("reference color diffuseColor", "reference"));
    assert!(!has_word("references color", "reference"));
}

#[test]
fn a_number_alone_is_no_request() {
    let e = parse_rib("Sphere 1 -1 1 360\n  ]oops").unwrap_err();
    assert_eq!(e.near, "]oops");
    let long = format!("{}{}", "]", "x".repeat(100));
    assert_eq!(parse_rib(&long).unwrap_err().near.len(), 60);
    assert!(parse_rib("").unwrap().is_empty());
    assert!(parse_rib("# only a comment").unwrap().is_empty());
}

#[test]
fn strings_end_at_the_next_quote() {
    let file = parse_rib("Display \"a\\b\" \"c d\"").unwrap();
    assert_eq!(file[0].string(0), Some("a\\b"));
    assert_eq!(file[0].string(1), Some("c d"));
    let mut out = String::new();
    push_quoted(&mut out, "a\"b\\c");
    assert_eq!(out, "\"a\\\"b\\\\c\"");
}

#[test]
fn text_of_numbers_is_single_precision() {
    let file = vec![RibRequest {
        name: "Color".to_string(),
        values: vec![
            RibValue::Number(0.8f64.to_bits()),
            RibValue::Number(3.0f64.to_bits()),
            RibValue::Numbers(vec![(-2.5f64).to_bits()]),
        ],
    }];
    let text = encode_text(&file);
    assert_eq!(text, "Color 0.8 3 [-2.5]\n");
    near(&parse_rib(&text).unwrap(), &file);
}

#[test]
fn decoding_gives_back_the_written_text() {
    let parsed = parse_rib(SAMPLE).unwrap();
    let (text, _) = decode_to_text(&encode_binary(&parsed)).unwrap();
    near(&parse_rib(&text).unwrap(), &parsed);
    let names: Vec<String> = parse_rib(&text).unwrap().into_iter().map(|r| r.name).collect();
    assert_eq!(names[6], "PointsPolygons");
}

#[test]
fn bytes_that_look_binary() {
    assert!(looks_binary(&[0x80]));
    assert!(looks_binary(&[b'S', 0xa6]));
    assert!(!looks_binary(b"Sphere 1 -1 1 360"));
    assert!(!looks_binary(&[]));
}

#[test]
fn big_endian_integers() {
    let mut pos = 0;
    assert_eq!(read_be_uint(&[0x01, 0x02, 0x03], &mut pos, 2), Ok(0x0102));
    assert_eq!(pos, 2);
    let mut pos = 0;
    assert_eq!(read_be_int(&[0xff, 0xfe], &mut pos, 2), Ok(-2));
    let mut pos = 0;
    let lowest = [0x80, 0, 0, 0, 0, 0, 0, 0];
    assert_eq!(read_be_int(&lowest, &mut pos, 8), Ok(i64::MIN));
    assert_eq!(pos, 8);
    // Behind the end, or with too little left, nothing is read.
    for (at, n) in [(9, 1), (usize::MAX, 4), (6, 4)] {
        let mut pos = at;
        assert_eq!(read_be_uint(&lowest, &mut pos, n), Err(BinaryError::TruncatedInteger { at }));
        assert_eq!(pos, at);
        assert_eq!(read_be_int(&lowest, &mut pos, n), Err(BinaryError::TruncatedInteger { at }));
        assert_eq!(pos, at);
    }
    let mut pos = 1;
    assert_eq!(
        read_be_uint(&[0x01], &mut pos, 1),
        Err(BinaryError::TruncatedInteger { at: 1 })
    );
}

#[test]
fn short_strings() {
    let mut data = Vec::new();
    put_string(&mut data, "hello");
    let mut pos = 0;
    assert_eq!(read_string(&data, &mut pos).unwrap(), "hello");
    assert_eq!(pos, data.len());
    let mut pos = 0;
    assert!(read_string(&data[..3], &mut pos).is_err());
}

#[test]
fn bytes_that_are_no_text_are_replaced() {
    // 0220 + 1: a string of two bytes, the second of which is no UTF-8.
    let mut data = Vec::new();
    data.push(0xCC);
    data.push(0);
    put_string(&mut data, "Display");
    data.push(0xA6);
    data.push(0);
    data.push(0x92);
    data.push(b'a');
    data.push(0xff);
    let file = parse_rib_bytes(&data).unwrap();
    assert_eq!(file[0].string(0), Some("a\u{fffd}"));
}

#[test]
fn broken_streams_are_refused() {
    match parse_rib_bytes(b"Sphere 1 -1 1 360 ]") {
        Err(RibError::Syntax(e)) => assert_eq!(e.near, "]"),
        other => panic!("{other:?}"),
    }
    let error = |data: &[u8]| decode_to_text(data).unwrap_err();
    assert_eq!(error(&[0x81, 0x01]), BinaryError::TruncatedInteger { at: 1 });
    assert_eq!(error(&[0xcc, 0x00]), BinaryError::TruncatedString);
    assert_eq!(error(&[0xcc, 0x00, 0x41]), BinaryError::ExpectedString { code: 0x41 });
    assert_eq!(error(&[0x92, 0x41]), BinaryError::TruncatedStringBody);
    assert_eq!(error(&[0xa6]), BinaryError::TruncatedRequestCode);
    assert_eq!(error(&[0xa6, 0x05]), BinaryError::UndefinedRequest { code: 5 });
    assert_eq!(error(&[0xcc]), BinaryError::TruncatedRequestDefinition);
    assert_eq!(error(&[0xcd, 0x07]), BinaryError::UndefinedString { token: 7 });
    match parse_rib_bytes(&[0xa6, 0x05]) {
        Err(RibError::Binary(e)) => assert_eq!(e, BinaryError::UndefinedRequest { code: 5 }),
        other => panic!("{other:?}"),
    }
}

#[test]
fn encoded_numbers() {
    // One byte, two bytes, one fraction byte, single precision, double precision.
    let text = |data: &[u8]| decode_to_text(data).unwrap().0.trim().to_string();
    assert_eq!(text(&[0x80, 0xff]), "-1");
    assert_eq!(text(&[0x81, 0x01, 0x00]), "256");
    assert_eq!(text(&[0x88, 0x01, 0x80]), "1.5");
    assert_eq!(text(&[0xa4, 0x3f, 0x4c, 0xcc, 0xcd]), "0.8");
    let mut data = vec![0xa5];
    data.extend_from_slice(&0.1f64.to_bits().to_be_bytes());
    assert_eq!(text(&data), "0.1");
}

#[test]
fn more_names_than_codes() {
    let name = |i: u8| format!("Rq{}{}", (b'a' + i / 20) as char, (b'a' + i % 20) as char);
    let mut names: Vec<String> = (0..=255).map(|i| name(i)).collect();
    names.extend((0..=255).map(|i| name(i) + "_"));
    names.extend((0..=255).step_by(7).map(|i| name(i)));
    let file: Vec<RibRequest> = names
        .iter()
        .map(|n| RibRequest { name: n.clone(), values: vec![RibValue::Number(2.0f64.to_bits())] })
        .collect();
    let back = parse_rib_bytes(&encode_binary(&file)).unwrap();
    assert_eq!(back.len(), file.len());
    for (a, b) in back.iter().zip(&file) {
        assert_eq!((&a.name, &a.values), (&b.name, &b.values));
    }
}

#[test]
fn reserved_codes_are_reported() {
    let data = [b"Sides 2\n" as &[u8], &[0o321, 0o377], b"Sides 1\n"].concat();
    let (text, skipped) = decode_to_text(&data).unwrap();
    assert_eq!(skipped, [0o321, 0o377]);
    let names: Vec<String> = parse_rib(&text).unwrap().into_iter().map(|r| r.name).collect();
    assert_eq!(names, ["Sides", "Sides"]);
}

#[test]
fn text_before_a_stream_is_kept() {
    let head: &[u8] = b"##RenderMan RIB\n# two \x23 marks\nSides 2\n";
    let stream = encode_binary(&parse_rib(SAMPLE).unwrap());
    let (alone, _) = decode_to_text(&stream).unwrap();
    let (both, _) = decode_to_text(&[head, &stream].concat()).unwrap();
    assert_eq!(both, String::from_utf8(head.to_vec()).unwrap() + &alone);
    // What fails alone fails behind the text too.
    assert!(decode_to_text(&[head, &[0o200]].concat()).is_err());
}

#[test]
fn finite_numbers_come_back_from_text() {
    let numbers: [f64; 8] = [0.1, -0.0, 1e300, 5e-324, -123456.789, 1.0 / 3.0, f64::MAX, 2147483647.0];
    let file = vec![RibRequest {
        name: "Color".to_string(),
        values: vec![
            RibValue::Numbers(numbers.iter().map(|x| x.to_bits()).collect()),
            RibValue::String("a b#[".to_string()),
            RibValue::Number(0.2f64.to_bits()),
        ],
    }];
    let back = parse_rib(&encode_text(&file)).unwrap();
    assert_eq!((&back[0].name, &back[0].values), (&file[0].name, &file[0].values));
}

#[test]
fn numbers_come_back_closely_from_binary() {
    let numbers: [f64; 9] = [0.1, -3.7e20, 2.9e38, 1e-40, 1e-46, 16777217.5, 1.0 / 3.0, -2147483648.0, 1e9];
    let file = vec![RibRequest {
        name: "Color".to_string(),
        values: vec![RibValue::Numbers(numbers.iter().map(|x| x.to_bits()).collect())],
    }];
    let back = parse_rib_bytes(&encode_binary(&file)).unwrap();
    let RibValue::Numbers(read) = &back[0].values[0] else { panic!() };
    assert_eq!(read.len(), numbers.len());
    for (x, y) in numbers.iter().zip(read) {
        assert!((x - f(*y)).abs() <= 1e-6 * x.abs().max(1.0), "{x} {}", f(*y));
    }
    // Nothing comes back of nothing.
    assert!(parse_rib_bytes(&encode_binary(&Vec::new())).unwrap().is_empty());
    // A number without a finite single is no number in binary.
    let large = vec![RibRequest {
        name: "Color".to_string(),
        values: vec![RibValue::Number(1e39f64.to_bits())],
    }];
    let back = parse_rib_bytes(&encode_binary(&large));
    assert!(back.map_or(true, |q| q[0].values != large[0].values));
    // Small integers come back as themselves.
    let whole = parse_rib("Sphere 1 -1 1 360 \"name\" [2147483646 -5]").unwrap();
    let back = parse_rib_bytes(&encode_binary(&whole)).unwrap();
    assert_eq!(back[0].values, whole[0].values);
}
