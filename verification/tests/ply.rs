use gaussian_splats::ply::{
    read_ply_layout, find_header_end, load_ply_from_bytes, locate_header_end,
    parse_vertex_count, read_vertex_count, PlyError,
};

fn record(first: f32) -> Vec<u8> {
    let mut bytes = Vec::new();
    for k in 0..62 {
        bytes.extend_from_slice(&(first + k as f32).to_le_bytes());
    }
    bytes
}

fn cloud(header: &str, records: &[f32]) -> Vec<u8> {
    let mut data = header.as_bytes().to_vec();
    for first in records {
        data.extend_from_slice(&record(*first));
    }
    data
}

const HEADER: &str = "ply\nformat binary_little_endian 1.0\nelement vertex 2\nproperty float x\nend_header\n";

#[test]
fn header_end_is_found_after_a_line_feed() {
    let data = b"ply\nend_header\nBODY";
    assert_eq!(find_header_end(data), (4, 1));
    assert_eq!(locate_header_end(data), Some((4, 1)));
    assert_eq!(find_header_end(b"end_header\n"), (0, 1));
}

#[test]
fn header_end_is_found_after_a_carriage_return_and_line_feed() {
    let data = b"ply\r\nend_header\r\nBODY";
    assert_eq!(find_header_end(data), (5, 2));
    assert_eq!(locate_header_end(data), Some((5, 2)));
    assert_eq!(find_header_end(b"end_header\r\n"), (0, 2));
}

#[test]
fn header_ends_at_the_first_terminator_of_either_form() {
    assert_eq!(find_header_end(b"end_header\nend_header\r\n"), (0, 1));
    assert_eq!(find_header_end(b"end_header\r\nend_header\n"), (0, 2));
    assert_eq!(find_header_end(b"a\nend_header\nxx end_header\r\n"), (2, 1));
    assert_eq!(find_header_end(b"end_header\nend_header\n"), (0, 1));
    assert_eq!(find_header_end(b"end_header end_header\r\n"), (11, 2));
}

#[test]
fn header_end_is_missing() {
    assert_eq!(locate_header_end(b""), None);
    assert_eq!(locate_header_end(b"end_header"), None);
    assert_eq!(locate_header_end(b"end_header\r"), None);
    assert_eq!(locate_header_end(b"ply\nend_heade\n"), None);
    assert_eq!(locate_header_end(b"end_header\r\r\n"), None);
}

#[test]
fn vertex_count_is_read_from_its_line() {
    assert_eq!(parse_vertex_count(b"ply\nelement vertex 42\nproperty float x\n"), 42);
    assert_eq!(read_vertex_count(b"ply\nelement vertex 42\nproperty float x\n"), Ok(42));
    assert_eq!(parse_vertex_count(b"element vertex 0"), 0);
    assert_eq!(parse_vertex_count(b"element vertex 007\n"), 7);
    assert_eq!(parse_vertex_count(b"ply\r\nelement vertex 1234567\r\n"), 1234567);
}

#[test]
fn vertex_count_line_is_trimmed() {
    assert_eq!(parse_vertex_count(b"  \t element vertex    12  \t\r\n"), 12);
    assert_eq!(parse_vertex_count(b"\x0b\x0celement vertex +5\n"), 5);
}

#[test]
fn first_vertex_line_decides() {
    assert_eq!(parse_vertex_count(b"element vertex 3\nelement vertex 9\n"), 3);
    assert_eq!(
        read_vertex_count(b"element vertex abc\nelement vertex 7\n"),
        Err(PlyError::InvalidVertexCount)
    );
    assert_eq!(parse_vertex_count(b"element face 3\nelement vertex 9\n"), 9);
}

#[test]
fn vertex_count_is_missing() {
    for text in [
        &b""[..],
        b"ply\nformat ascii 1.0\n",
        b"ply\nelement face 3\n",
        b"element vertex",
        b"element vertex \n",
        b"element  vertex 4\n",
        b"xelement vertex 4\n",
    ] {
        assert_eq!(read_vertex_count(text), Err(PlyError::MissingVertexCount));
    }
}

#[test]
fn vertex_count_is_not_a_number() {
    for text in [
        &b"element vertex four\n"[..],
        b"element vertex -1\n",
        b"element vertex 1 2\n",
        b"element vertex 12a\n",
        b"element vertex +\n",
        b"element vertex ++1\n",
        b"element vertex 1.0\n",
        b"element vertex 0x10\n",
    ] {
        assert_eq!(read_vertex_count(text), Err(PlyError::InvalidVertexCount));
    }
}

#[test]
fn vertex_count_must_fit() {
    let max = format!("element vertex {}\n", usize::MAX);
    assert_eq!(parse_vertex_count(max.as_bytes()), usize::MAX);
    let over = format!("element vertex {}0\n", usize::MAX);
    assert_eq!(read_vertex_count(over.as_bytes()), Err(PlyError::InvalidVertexCount));
    let next = format!("element vertex {}\n", usize::MAX as u128 + 1);
    assert_eq!(read_vertex_count(next.as_bytes()), Err(PlyError::InvalidVertexCount));
    assert_eq!(
        read_vertex_count(b"element vertex 99999999999999999999999999999999999999999x\n"),
        Err(PlyError::InvalidVertexCount)
    );
}

#[test]
fn cloud_with_two_vertices_loads() {
    let data = cloud(HEADER, &[1.0, 100.0]);
    assert_eq!(read_ply_layout(&data), Ok((2, HEADER.len())));
    let loaded = load_ply_from_bytes(&data);
    assert_eq!(loaded.len(), 2);
    assert_eq!(loaded[0].position, [1.0f32.to_bits(), 2.0f32.to_bits(), 3.0f32.to_bits()]);
    assert_eq!(loaded[0].opacity, 55.0f32.to_bits());
    assert_eq!(loaded[0].rotation[3], 62.0f32.to_bits());
    assert_eq!(loaded[1].position[0], 100.0f32.to_bits());
    assert_eq!(loaded[1].sh_rest[44], 153.0f32.to_bits());
    assert_eq!(loaded[1].scale, [155.0f32.to_bits(), 156.0f32.to_bits(), 157.0f32.to_bits()]);
    assert_eq!(f32::from_bits(loaded[1].rotation[0]), 158.0);
}

#[test]
fn cloud_with_windows_line_endings_loads() {
    let header = "ply\r\nelement vertex 1\r\nend_header\r\n";
    let data = cloud(header, &[5.0]);
    assert_eq!(read_ply_layout(&data), Ok((1, header.len())));
    let loaded = load_ply_from_bytes(&data);
    assert_eq!(loaded.len(), 1);
    assert_eq!(loaded[0].position[0], 5.0f32.to_bits());
    assert_eq!(loaded[0].rotation[3], 66.0f32.to_bits());
}

#[test]
fn record_that_holds_a_terminator_loads() {
    let header = "ply\nelement vertex 1\nend_header\n";
    let mut data = header.as_bytes().to_vec();
    let mut body = b"end_header\r\n".to_vec();
    body.resize(248, 7);
    data.extend_from_slice(&body);
    assert_eq!(find_header_end(&data), (21, 1));
    assert_eq!(read_ply_layout(&data), Ok((1, header.len())));
    let loaded = load_ply_from_bytes(&data);
    assert_eq!(loaded.len(), 1);
    assert_eq!(loaded[0].position[0], u32::from_le_bytes(*b"end_"));
    assert_eq!(loaded[0].position[1], u32::from_le_bytes(*b"head"));
    assert_eq!(loaded[0].position[2], u32::from_le_bytes(*b"er\r\n"));
    assert_eq!(loaded[0].rotation[3], 0x0707_0707);
}

#[test]
fn cloud_without_vertices_loads_empty() {
    let loaded = load_ply_from_bytes(b"element vertex 0\nend_header\n");
    assert!(loaded.is_empty());
}

#[test]
fn body_must_hold_exactly_the_declared_records() {
    let mut long = cloud(HEADER, &[1.0, 2.0]);
    long.push(0);
    assert_eq!(read_ply_layout(&long), Err(PlyError::BodyTooLarge));
    assert_eq!(read_ply_layout(&cloud(HEADER, &[1.0, 2.0, 3.0])), Err(PlyError::BodyTooLarge));
    let mut one_over = b"element vertex 1\nend_header\n".to_vec();
    one_over.extend_from_slice(&[0u8; 249]);
    assert_eq!(read_ply_layout(&one_over), Err(PlyError::BodyTooLarge));
    let mut short = cloud(HEADER, &[1.0, 2.0]);
    short.pop();
    assert_eq!(read_ply_layout(&short), Err(PlyError::BodyTooSmall));
    let mut one_under = b"element vertex 1\nend_header\n".to_vec();
    one_under.extend_from_slice(&[0u8; 247]);
    assert_eq!(read_ply_layout(&one_under), Err(PlyError::BodyTooSmall));
    let huge = format!("element vertex {}\nend_header\n", usize::MAX);
    assert_eq!(read_ply_layout(huge.as_bytes()), Err(PlyError::BodyTooSmall));
    assert_eq!(
        read_ply_layout(b"element vertex 0\nend_header\nx"),
        Err(PlyError::BodyTooLarge)
    );
}

#[test]
fn cloud_errors_name_what_is_wrong() {
    assert_eq!(read_ply_layout(b"ply\nelement vertex 1\n"), Err(PlyError::MissingEndHeader));
    assert_eq!(
        read_ply_layout("ply\ncomment caf\u{e9}\nelement vertex 0\nend_header\n".as_bytes()),
        Err(PlyError::HeaderNotAscii)
    );
    assert_eq!(read_ply_layout(b"ply\nend_header\n"), Err(PlyError::MissingVertexCount));
    assert_eq!(
        read_ply_layout(b"element vertex many\nend_header\n"),
        Err(PlyError::InvalidVertexCount)
    );
}

#[test]
fn bytes_in_the_body_need_not_be_ascii() {
    let mut data = b"element vertex 1\nend_header\n".to_vec();
    data.extend_from_slice(&[0xFFu8; 248]);
    let loaded = load_ply_from_bytes(&data);
    assert_eq!(loaded[0].opacity, 0xFFFF_FFFF);
}
