use pixel_canvas::grains::PixelGrainDto;
use pixel_canvas::text::color_to_hex;
use pixel_canvas::wire::parse_batch_exec;
use pixel_canvas::wire::parse_pixel_response_exec;
use pixel_canvas::wire::pixel_edit_body;
use pixel_canvas::wire::region_query;
use pixel_canvas::PixelGrain;
use pixel_canvas::PixelRectangle;

fn region(tlx: i64, tly: i64, brx: i64, bry: i64) -> PixelRectangle {
    PixelRectangle {
        top_left: PixelGrain::new(tlx, tly),
        bottom_right: PixelGrain::new(brx, bry),
    }
}

#[test]
fn color_to_hex_is_lowercase_with_hash() {
    assert_eq!(color_to_hex(&[0, 255, 0]), b"#00ff00".to_vec());
    assert_eq!(color_to_hex(&[255, 255, 255]), b"#ffffff".to_vec());
    assert_eq!(color_to_hex(&[1, 2, 3]), b"#010203".to_vec());
    assert_eq!(color_to_hex(&[0xab, 0xcd, 0xef]), b"#abcdef".to_vec());
}

#[test]
fn pixel_edit_body_is_exact_json() {
    let body = pixel_edit_body(3, -2, &[0, 255, 0]);
    assert_eq!(body, b"{\"x\":3,\"y\":-2,\"color\":\"#00ff00\"}".to_vec());
    let body = pixel_edit_body(0, 0, &[255, 0, 0]);
    assert_eq!(body, b"{\"x\":0,\"y\":0,\"color\":\"#ff0000\"}".to_vec());
}

#[test]
fn region_query_encodes_all_four_corners() {
    let q = region_query(&region(-50, 50, 50, -50));
    assert_eq!(
        q,
        b"/api/canvas?topLeftX=-50&topLeftY=50&bottomRightX=50&bottomRightY=-50".to_vec()
    );
    let q = region_query(&region(0, 0, 0, 0));
    assert_eq!(
        q,
        b"/api/canvas?topLeftX=0&topLeftY=0&bottomRightX=0&bottomRightY=0".to_vec()
    );
}

#[test]
fn parse_batch_accepts_single_record() {
    let v = parse_batch_exec(b"[{\"x\":0,\"y\":0,\"color\":\"#ff0000\"}]").unwrap();
    assert_eq!(v.len(), 1);
    assert_eq!(v[0].x, 0);
    assert_eq!(v[0].y, 0);
    assert_eq!(v[0].color, b"#ff0000".to_vec());
}

#[test]
fn parse_batch_accepts_empty_array_and_whitespace() {
    assert_eq!(parse_batch_exec(b"[]").unwrap().len(), 0);
    assert_eq!(parse_batch_exec(b" [ ] ").unwrap().len(), 0);
    let v = parse_batch_exec(
        b" [ { \"x\" : -3 , \"y\" : 17 , \"color\" : \"#010203\" } ,\n {\"x\":4,\"y\":5,\"color\":\"abc\"} ] ",
    )
    .unwrap();
    assert_eq!(v.len(), 2);
    assert_eq!((v[0].x, v[0].y), (-3, 17));
    assert_eq!((v[1].x, v[1].y), (4, 5));
    assert_eq!(v[1].color, b"abc".to_vec());
}

#[test]
fn parse_batch_rejects_malformed_bodies() {
    assert!(parse_batch_exec(b"").is_none());
    assert!(parse_batch_exec(b"500 Internal Server Error").is_none());
    assert!(parse_batch_exec(b"[{\"x\":0,\"y\":0,\"color\":\"#ff0000\"}").is_none());
    assert!(parse_batch_exec(b"[{\"x\":0,\"y\":0}]").is_none());
    assert!(parse_batch_exec(b"[{\"y\":0,\"x\":0,\"color\":\"#ff0000\"}]").is_none());
    assert!(parse_batch_exec(b"[{\"x\":0,\"y\":0,\"color\":\"#ff0000\"},]").is_none());
    assert!(parse_batch_exec(b"[] trailing").is_none());
    assert!(parse_batch_exec(b"{\"x\":0,\"y\":0,\"color\":\"#ff0000\"}").is_none());
}

#[test]
fn parse_batch_integer_edges() {
    let v = parse_batch_exec(
        b"[{\"x\":9223372036854775807,\"y\":-9223372036854775808,\"color\":\"c\"}]",
    )
    .unwrap();
    assert_eq!(v[0].x, i64::MAX);
    assert_eq!(v[0].y, i64::MIN);
    // One past either end of i64 poisons the whole batch.
    assert!(
        parse_batch_exec(b"[{\"x\":9223372036854775808,\"y\":0,\"color\":\"c\"}]").is_none()
    );
    assert!(
        parse_batch_exec(b"[{\"x\":0,\"y\":-9223372036854775809,\"color\":\"c\"}]").is_none()
    );
    // JSON forbids leading zeros and empty digit runs.
    assert!(parse_batch_exec(b"[{\"x\":01,\"y\":0,\"color\":\"c\"}]").is_none());
    assert!(parse_batch_exec(b"[{\"x\":-,\"y\":0,\"color\":\"c\"}]").is_none());
    assert!(parse_batch_exec(b"[{\"x\":-0,\"y\":00,\"color\":\"c\"}]").is_none());
    let v = parse_batch_exec(b"[{\"x\":-0,\"y\":0,\"color\":\"c\"}]").unwrap();
    assert_eq!((v[0].x, v[0].y), (0, 0));
}

#[test]
fn parse_pixel_response_reads_one_echoed_record() {
    let dto = parse_pixel_response_exec(b"{\"x\":3,\"y\":-2,\"color\":\"#00ff00\"}").unwrap();
    assert_eq!((dto.x, dto.y), (3, -2));
    assert_eq!(dto.color, b"#00ff00".to_vec());
    assert!(parse_pixel_response_exec(b"[]").is_none());
    assert!(parse_pixel_response_exec(b"{\"x\":3,\"y\":-2,\"color\":\"#00ff00\"} x").is_none());
}

#[test]
fn edit_body_round_trips_through_the_parser() {
    let body = pixel_edit_body(-123, 456, &[0x12, 0x34, 0x56]);
    let echo: PixelGrainDto = parse_pixel_response_exec(&body).unwrap();
    assert_eq!((echo.x, echo.y), (-123, 456));
    assert_eq!(echo.color, b"#123456".to_vec());
}
