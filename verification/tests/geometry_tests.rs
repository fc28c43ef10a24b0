use awc_client::geometry::parse_geometry;

#[test]
fn test_parse_geometry() {
    let result = parse_geometry(&b"0,0 100x200".to_vec());
    assert_eq!(result, Some((0, 0, 100, 200)));
}

#[test]
fn geometry_accepts_a_trailing_newline() {
    assert_eq!(
        parse_geometry(&b"10,20 300x400".to_vec()),
        Some((10, 20, 300, 400))
    );
    assert_eq!(
        parse_geometry(&b"10,20 300x400\n".to_vec()),
        Some((10, 20, 300, 400))
    );
}

#[test]
fn geometry_rejects_anything_else() {
    assert_eq!(parse_geometry(&b"bad".to_vec()), None);
    assert_eq!(parse_geometry(&b"".to_vec()), None);
    assert_eq!(parse_geometry(&b"10,20 300x".to_vec()), None);
    assert_eq!(parse_geometry(&b"10,20300x400".to_vec()), None);
    assert_eq!(parse_geometry(&b"10, 20 300x400".to_vec()), None);
    assert_eq!(parse_geometry(&b"-10,20 300x400".to_vec()), None);
    assert_eq!(parse_geometry(&b"10,20 300x400\n\n".to_vec()), None);
    assert_eq!(parse_geometry(&b"10,20 300x400 ".to_vec()), None);
}

#[test]
fn geometry_numbers_must_fit() {
    assert_eq!(
        parse_geometry(&b"2147483647,0 1x1".to_vec()),
        Some((2147483647, 0, 1, 1))
    );
    assert_eq!(parse_geometry(&b"2147483648,0 1x1".to_vec()), None);
    assert_eq!(parse_geometry(&b"0,0 99999999999x1".to_vec()), None);
    // leading zeros are digits like any others
    assert_eq!(parse_geometry(&b"007,08 009x010".to_vec()), Some((7, 8, 9, 10)));
}
