use nanotracer::float_bits::Vec3;
use nanotracer::ply::{read_header, read_ply, write_f32, write_header, write_ply, Gaussian, PlyError, PlyErrorKind};
use nanotracer::text::{chars_of, decode_range, parse_count, trim_range, CountError};

fn v(x: f32, y: f32, z: f32) -> Vec3 {
    Vec3::new(x.to_bits(), y.to_bits(), z.to_bits())
}

fn bits3(a: [f32; 3]) -> [u32; 3] {
    [a[0].to_bits(), a[1].to_bits(), a[2].to_bits()]
}

fn bits4(a: [f32; 4]) -> [u32; 4] {
    [a[0].to_bits(), a[1].to_bits(), a[2].to_bits(), a[3].to_bits()]
}

fn sample(seed: f32, rest: usize) -> Gaussian {
    Gaussian {
        pos: v(1.0 + seed, 2.0, 3.0),
        normal: v(0.0, 1.0, 0.0),
        sh_dc: bits3([0.4, 0.5, 0.6]),
        sh_rest: (0..rest).map(|i| (i as f32 * 0.1 + seed).to_bits()).collect(),
        opacity: 2.7f32.to_bits(),
        scale: bits3([-0.5, -0.6, -0.7]),
        rotation: bits4([1.0, 0.0, 0.0, 0.0]),
    }
}

const NAMES: [&str; 14] = [
    "x", "y", "z", "f_dc_0", "f_dc_1", "f_dc_2", "opacity", "scale_0", "scale_1", "scale_2", "rot_0",
    "rot_1", "rot_2", "rot_3",
];

fn file(header: &str, words: &[f32]) -> Vec<u8> {
    let mut out = header.as_bytes().to_vec();
    for w in words {
        write_f32(&mut out, w.to_bits());
    }
    out
}

fn header_with(names: &[&str], count: &str) -> String {
    let mut h = String::from("ply\nformat binary_little_endian 1.0\n");
    h.push_str(&format!("element vertex {}\n", count));
    for n in names {
        h.push_str(&format!("property float {}\n", n));
    }
    h.push_str("end_header\n");
    h
}

#[test]
fn write_then_read_roundtrip() {
    let g = sample(0.0, 45);
    let bytes = write_ply(&[sample(0.0, 45)]);
    let back = match read_ply(&bytes) {
        Ok(gs) => gs,
        Err(_) => panic!("a written file reads back"),
    };
    assert_eq!(back.len(), 1);
    assert_eq!(back[0].pos, g.pos);
    assert_eq!(back[0].sh_dc, g.sh_dc);
    assert_eq!(back[0].opacity, g.opacity);
    assert_eq!(back[0].scale, g.scale);
    assert_eq!(back[0].rotation, g.rotation);
    assert_eq!(back[0].sh_rest.len(), 45);
    for (i, w) in back[0].sh_rest.iter().enumerate() {
        assert!((f32::from_bits(*w) - i as f32 * 0.1).abs() < 1e-5);
    }
}

#[test]
fn many_splats_read_back_in_order() {
    let gs: Vec<Gaussian> = (0..5).map(|i| sample(i as f32, 45)).collect();
    let bytes = write_ply(&gs);
    let back = read_ply(&bytes).ok().unwrap();
    assert_eq!(back.len(), 5);
    for i in 0..5 {
        assert_eq!(back[i].pos, gs[i].pos);
        assert_eq!(back[i].sh_rest, gs[i].sh_rest);
    }
}

#[test]
fn higher_coefficients_are_cut_or_padded() {
    let bytes = write_ply(&[sample(7.0, 3), sample(7.0, 60)]);
    let back = read_ply(&bytes).ok().unwrap();
    assert_eq!(back[0].sh_rest.len(), 45);
    assert_eq!(back[0].sh_rest[2], (0.2f32 + 7.0).to_bits());
    assert_eq!(back[0].sh_rest[3], 0);
    assert_eq!(back[1].sh_rest.len(), 45);
    assert_eq!(back[1].sh_rest[44], (44.0f32 * 0.1 + 7.0).to_bits());
}

#[test]
fn empty_file_has_a_header_only() {
    let bytes = write_ply(&[]);
    let mut header = Vec::new();
    write_header(&mut header, 0);
    assert_eq!(bytes, header);
    assert_eq!(read_ply(&bytes).ok().unwrap().len(), 0);
}

#[test]
fn written_header_declares_the_schema() {
    let mut out = Vec::new();
    write_header(&mut out, 1203);
    let text = String::from_utf8(out).unwrap();
    let lines: Vec<&str> = text.lines().collect();
    assert_eq!(lines.len(), 66);
    assert_eq!(lines[0], "ply");
    assert_eq!(lines[1], "format binary_little_endian 1.0");
    assert_eq!(lines[2], "element vertex 1203");
    assert_eq!(lines[3], "property float x");
    assert_eq!(lines[12], "property float f_rest_0");
    assert_eq!(lines[56], "property float f_rest_44");
    assert_eq!(lines[57], "property float opacity");
    assert_eq!(lines[64], "property float rot_3");
    assert_eq!(lines[65], "end_header");
}

#[test]
fn header_is_read_with_its_length() {
    let text = header_with(&["x", "y"], "12");
    let mut bytes = text.as_bytes().to_vec();
    bytes.extend_from_slice(&[1, 2, 3]);
    let (h, start) = read_header(&bytes).ok().unwrap();
    assert!(h.binary_le);
    assert_eq!(h.vertex_count, 12);
    assert_eq!(h.properties.len(), 2);
    assert_eq!(h.offset("x"), Some(0));
    assert_eq!(h.offset("y"), Some(4));
    assert_eq!(h.offset("z"), None);
    assert_eq!(start, text.len());
}

#[test]
fn comments_and_blank_lines_are_skipped() {
    let text = "ply\ncomment hello\n\n  format binary_little_endian 1.0  \nelement vertex 3\nend_header\n";
    let (h, start) = read_header(text.as_bytes()).ok().unwrap();
    assert!(h.binary_le);
    assert_eq!(h.vertex_count, 3);
    assert_eq!(start, text.len());
}

#[test]
fn carriage_returns_and_idle_lines_change_nothing() {
    let text = header_with(&["x", "y"], "12");
    let (plain, _) = read_header(text.as_bytes()).ok().unwrap();
    let crlf = text.replace('\n', "\r\n");
    let busy = text.replace("element", "comment end_header\n \t\nelement");
    for other in [crlf, busy] {
        let (h, start) = read_header(other.as_bytes()).ok().unwrap();
        assert_eq!(h.binary_le, plain.binary_le);
        assert_eq!(h.vertex_count, plain.vertex_count);
        assert_eq!(h.properties, plain.properties);
        assert_eq!(start, other.len());
    }
}

#[test]
fn property_order_and_unknown_properties_do_not_matter() {
    let mut names: Vec<&str> = NAMES.to_vec();
    let words: Vec<f32> = (0..14).map(|i| i as f32).collect();
    let plain = read_ply(&file(&header_with(&names, "1"), &words)).ok().unwrap();

    names.reverse();
    let mut reversed: Vec<f32> = words.clone();
    reversed.reverse();
    names.insert(5, "confidence");
    reversed.insert(5, 99.0);
    let shuffled = read_ply(&file(&header_with(&names, "1"), &reversed)).ok().unwrap();

    assert_eq!(plain[0].pos, v(0.0, 1.0, 2.0));
    assert_eq!(plain[0].pos, shuffled[0].pos);
    assert_eq!(plain[0].sh_dc, shuffled[0].sh_dc);
    assert_eq!(plain[0].opacity, shuffled[0].opacity);
    assert_eq!(plain[0].scale, shuffled[0].scale);
    assert_eq!(plain[0].rotation, shuffled[0].rotation);
    assert_eq!(shuffled[0].rotation, bits4([10.0, 11.0, 12.0, 13.0]));
    // Without normals and higher coefficients: Y up and zeros.
    assert_eq!(shuffled[0].normal, v(0.0, 1.0, 0.0));
    assert_eq!(shuffled[0].sh_rest, vec![0u32; 45]);
}

#[test]
fn missing_magic_is_refused() {
    assert!(matches!(read_ply(b"plx\n"), Err(PlyError::MissingMagic)));
    assert!(matches!(read_ply(b""), Err(PlyError::MissingMagic)));
}

#[test]
fn invalid_utf8_is_refused() {
    assert!(matches!(read_ply(b"ply\n\xff\xfe\n"), Err(PlyError::InvalidUtf8)));
}

#[test]
fn unterminated_header_is_refused() {
    assert!(matches!(
        read_ply(b"ply\nformat binary_little_endian 1.0\n"),
        Err(PlyError::UnterminatedHeader)
    ));
}

#[test]
fn bad_vertex_counts_are_refused() {
    let digits = header_with(&[], "12x");
    assert!(matches!(
        read_ply(digits.as_bytes()),
        Err(PlyError::VertexCount(CountError::InvalidDigit))
    ));
    let huge = header_with(&[], "99999999999999999999999");
    assert!(matches!(
        read_ply(huge.as_bytes()),
        Err(PlyError::VertexCount(CountError::Overflow))
    ));
}

#[test]
fn other_property_types_are_refused() {
    let text = "ply\nformat binary_little_endian 1.0\nelement vertex 1\nproperty uchar red\nend_header\n";
    match read_ply(text.as_bytes()) {
        Err(PlyError::UnsupportedProperty(line)) => {
            assert!(line.contains("uchar red"));
        }
        _ => panic!("a property that is no float is refused"),
    }
}

#[test]
fn other_formats_are_refused() {
    assert!(matches!(
        read_ply(b"ply\nformat ascii 1.0\nelement vertex 0\nend_header\n"),
        Err(PlyError::NotLittleEndian)
    ));
}

#[test]
fn truncated_data_is_refused() {
    let mut bytes = write_ply(&[sample(0.0, 45), sample(1.0, 45)]);
    bytes.pop();
    assert!(matches!(read_ply(&bytes), Err(PlyError::TruncatedRecord)));
}

#[test]
fn missing_properties_are_named() {
    let names: Vec<&str> = NAMES.iter().filter(|n| **n != "opacity").copied().collect();
    let words = [0.0f32; 13];
    match read_ply(&file(&header_with(&names, "1"), &words)) {
        Err(PlyError::MissingProperty(name)) => {
            assert_eq!(name, "opacity");
        }
        _ => panic!("a missing property is named"),
    }
}

#[test]
fn text_decodes_only_where_it_is_utf8() {
    let bytes = "a\u{e9}b".as_bytes().to_vec();
    assert_eq!(decode_range(&bytes, 0, 4), Some(String::from("a\u{e9}b")));
    assert_eq!(decode_range(&bytes, 0, 2), None);
    assert_eq!(decode_range(&bytes, 1, 3), Some(String::from("\u{e9}")));
}

#[test]
fn counts_parse_like_decimal_numbers() {
    let parse = |s: &str| {
        let c = chars_of(s);
        let n = c.len();
        parse_count(&c, 0, n)
    };
    assert_eq!(parse("0"), Ok(0));
    assert_eq!(parse("0042"), Ok(42));
    assert_eq!(parse("+7"), Ok(7));
    assert_eq!(parse(""), Err(CountError::Empty));
    assert_eq!(parse("+"), Err(CountError::InvalidDigit));
    assert_eq!(parse("-1"), Err(CountError::InvalidDigit));
    assert_eq!(parse(&format!("{}", usize::MAX)), Ok(usize::MAX));
    assert_eq!(parse(&format!("{}0", usize::MAX)), Err(CountError::Overflow));
}

#[test]
fn trimming_takes_white_space_off_both_ends() {
    let c = chars_of(" \t ab c\r\n");
    assert_eq!(trim_range(&c, 0, c.len()), (3, 7));
    let blank = chars_of("  ");
    let (lo, hi) = trim_range(&blank, 0, 2);
    assert_eq!(lo, hi);
}

#[test]
fn refusals_say_what_is_wrong() {
    let invalid = |e: PlyError, text: &str| {
        assert_eq!(e.kind(), PlyErrorKind::InvalidData);
        assert_eq!(e.message(), text);
    };
    let early = |e: PlyError, text: &str| {
        assert_eq!(e.kind(), PlyErrorKind::UnexpectedEof);
        assert_eq!(e.message(), text);
    };
    invalid(PlyError::InvalidUtf8, "stream did not contain valid UTF-8");
    invalid(PlyError::MissingMagic, "missing 'ply' magic line");
    early(PlyError::UnterminatedHeader, "unterminated PLY header");
    invalid(
        PlyError::VertexCount(CountError::Empty),
        "element vertex: cannot parse integer from empty string",
    );
    invalid(
        PlyError::VertexCount(CountError::InvalidDigit),
        "element vertex: invalid digit found in string",
    );
    invalid(
        PlyError::VertexCount(CountError::Overflow),
        "element vertex: number too large to fit in target type",
    );
    invalid(
        PlyError::UnsupportedProperty(String::from("property uchar red")),
        "only `property float ...` supported, got: property uchar red",
    );
    invalid(PlyError::NotLittleEndian, "only binary_little_endian PLY is supported");
    early(PlyError::TruncatedRecord, "failed to fill whole buffer");
    invalid(
        PlyError::MissingProperty(String::from("opacity")),
        "PLY missing required property: opacity",
    );
    for bad in ["x", "99999999999999999999999"] {
        let said = bad.parse::<usize>().unwrap_err();
        let file = format!("ply\nelement vertex {bad}\nend_header\n");
        match read_ply(file.as_bytes()) {
            Err(e) => assert_eq!(e.message(), format!("element vertex: {said}")),
            Ok(_) => panic!("a bad count is refused"),
        }
    }
}
