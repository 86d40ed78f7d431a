use er_planet::terrain_response::{parse_terrain_response, parse_terrain_response_with_climate, ResponseError};

fn response(header: &str, body: Vec<u8>) -> Vec<u8> {
    header.to_string().into_bytes().into_iter().chain(body).collect::<Vec<_>>()
}

#[test]
fn parses_strict_little_endian_terrain_payload() {
    let mut body = Vec::new();
    for elevation in [100_i16, -200, 300, -400] {
        body.extend_from_slice(&elevation.to_le_bytes());
    }
    for climate in [1.0_f32; 16] {
        body.extend_from_slice(&climate.to_le_bytes());
    }
    let response = response("HTTP/1.1 200 OK\r\nX-Height: 2\r\nX-Width: 2\r\n\r\n", body);

    let (height, width, elevation) = parse_terrain_response(&response).unwrap();
    assert_eq!((height, width), (2, 2));
    assert_eq!(elevation, vec![100, -200, 300, -400]);
}

#[test]
fn rejects_payload_without_all_climate_channels() {
    let response = b"HTTP/1.1 200 OK\r\nX-Height: 1\r\nX-Width: 1\r\n\r\n\x00\x00";
    assert!(parse_terrain_response(response).is_err());
    assert!(matches!(
        parse_terrain_response(response),
        Err(ResponseError::PayloadSize { actual: 2, expected: 18 })
    ));
}

#[test]
fn climate_retaining_parser_returns_four_channels() {
    let mut body = Vec::new();
    let elevations = [100_i16, -200, 300, -400];
    for e in &elevations {
        body.extend_from_slice(&e.to_le_bytes());
    }
    let climate_values: Vec<f32> = (0..16).map(|i| i as f32 * 0.5).collect();
    for c in &climate_values {
        body.extend_from_slice(&c.to_le_bytes());
    }
    let response = response("HTTP/1.1 200 OK\r\nX-Height: 2\r\nX-Width: 2\r\n\r\n", body);

    let (height, width, elevation, climate) = parse_terrain_response_with_climate(&response).unwrap();
    assert_eq!((height, width), (2, 2));
    assert_eq!(elevation, vec![100, -200, 300, -400]);
    assert_eq!(climate.len(), 16);
    let climate: Vec<f32> = climate.into_iter().map(f32::from_bits).collect();
    assert_eq!(climate, climate_values);
}

#[test]
fn climate_retaining_parser_rejects_non_finite() {
    let mut body = Vec::new();
    body.extend_from_slice(&0_i16.to_le_bytes());
    body.extend_from_slice(&f32::NAN.to_le_bytes());
    body.extend_from_slice(&[0_u8; 12]);
    let response = response("HTTP/1.1 200 OK\r\nX-Height: 1\r\nX-Width: 1\r\n\r\n", body);
    assert!(parse_terrain_response_with_climate(&response).is_err());
    assert!(matches!(parse_terrain_response_with_climate(&response), Err(ResponseError::NonFiniteClimate)));
}

#[test]
fn infinite_climate_is_rejected_and_finite_extremes_pass() {
    let mut body = Vec::new();
    body.extend_from_slice(&7_i16.to_le_bytes());
    for c in [f32::MAX, f32::MIN_POSITIVE, -0.0, f32::INFINITY] {
        body.extend_from_slice(&c.to_le_bytes());
    }
    let bad = response("HTTP/1.1 200 OK\r\nX-Height: 1\r\nX-Width: 1\r\n\r\n", body.clone());
    assert!(matches!(parse_terrain_response(&bad), Err(ResponseError::NonFiniteClimate)));

    body.truncate(14);
    body.extend_from_slice(&f32::MIN.to_le_bytes());
    let good = response("HTTP/1.1 200 OK\r\nX-Height: 1\r\nX-Width: 1\r\n\r\n", body);
    let (_, _, elevation, climate) = parse_terrain_response_with_climate(&good).unwrap();
    assert_eq!(elevation, vec![7]);
    assert_eq!(climate[3], f32::MIN.to_bits());
}

#[test]
fn header_errors_are_reported_in_order() {
    assert!(matches!(
        parse_terrain_response(b"HTTP/1.1 200 OK\r\nX-Height: 1\r\n"),
        Err(ResponseError::MissingHeaderTerminator)
    ));
    assert!(matches!(
        parse_terrain_response(b"HTTP/1.1 200 \xff\r\n\r\n"),
        Err(ResponseError::HeadersNotUtf8)
    ));
    match parse_terrain_response(b"HTTP/1.1 503 Busy\r\nX-Height: 1\r\n\r\n") {
        Err(ResponseError::BadStatus(status)) => assert_eq!(status, "HTTP/1.1 503 Busy"),
        _ => panic!("expected a bad status"),
    }
    match parse_terrain_response(b"\r\n\r\n") {
        Err(ResponseError::BadStatus(status)) => assert_eq!(status, ""),
        _ => panic!("expected a bad status"),
    }
    assert!(matches!(
        parse_terrain_response(b"HTTP/1.1 200 OK\r\nX-Width: 1\r\n\r\n"),
        Err(ResponseError::MissingHeight)
    ));
    assert!(matches!(
        parse_terrain_response(b"HTTP/1.1 200 OK\r\nX-Height: 1\r\n\r\n"),
        Err(ResponseError::MissingWidth)
    ));
}

#[test]
fn header_names_ignore_case_and_the_last_value_counts() {
    let body = vec![1, 0, 0, 0, 0, 0, 0, 0, 0, 0, 0, 0, 0, 0, 0, 0, 0, 0];
    let reply = response("HTTP/1.1 200 OK\nx-HEIGHT:\t 9 \nX-Height: +1\r\nX-WIDTH:1\r\n\r\n", body);
    let (h, w, elevation) = parse_terrain_response(&reply).unwrap();
    assert_eq!((h, w, elevation), (1, 1, vec![1]));

    let unparsable_last = response("HTTP/1.1 200 OK\r\nX-Height: 1\r\nX-Height: one\r\nX-Width: 1\r\n\r\n", vec![0; 18]);
    assert!(matches!(parse_terrain_response(&unparsable_last), Err(ResponseError::MissingHeight)));

    let too_large = response("HTTP/1.1 200 OK\r\nX-Height: 65536\r\nX-Width: 1\r\n\r\n", vec![]);
    assert!(matches!(parse_terrain_response(&too_large), Err(ResponseError::MissingHeight)));

    let spaced_name = response("HTTP/1.1 200 OK\r\n X-Height: 1\r\nX-Width: 1\r\n\r\n", vec![0; 18]);
    assert!(matches!(parse_terrain_response(&spaced_name), Err(ResponseError::MissingHeight)));
}

#[test]
fn negative_elevations_decode_from_twos_complement() {
    let mut body = vec![0x00, 0x80, 0xff, 0xff];
    body.extend_from_slice(&[0; 32]);
    let reply = response("HTTP/1.1 200 OK\r\nX-Height: 1\r\nX-Width: 2\r\n\r\n", body);
    let (_, _, elevation) = parse_terrain_response(&reply).unwrap();
    assert_eq!(elevation, vec![i16::MIN, -1]);
}
