use pixel_canvas::fetch::schedule_fetch;
use pixel_canvas::fetch::settle_pixel_edit;
use pixel_canvas::fetch::settle_region_fetch;
use pixel_canvas::geometry::screen_to_grain;
use pixel_canvas::geometry::viewport_to_region;
use pixel_canvas::grains::parse_color;
use pixel_canvas::grains::GrainSet;
use pixel_canvas::grains::PixelGrainDto;
use pixel_canvas::grains::Rgb;
use pixel_canvas::wire::pixel_edit_body;
use pixel_canvas::wire::region_query;
use pixel_canvas::PixelGrain;
use pixel_canvas::PixelRectangle;
use pixel_canvas::PixelRectRequestStatus;
use pixel_canvas::OVERSCAN_CELLS;
use pixel_canvas::PIXEL_SIZE;

fn region(tlx: i64, tly: i64, brx: i64, bry: i64) -> PixelRectangle {
    PixelRectangle {
        top_left: PixelGrain::new(tlx, tly),
        bottom_right: PixelGrain::new(brx, bry),
    }
}

fn dto(x: i64, y: i64, color: &[u8]) -> PixelGrainDto {
    PixelGrainDto {
        x,
        y,
        color: color.to_vec(),
    }
}

#[test]
fn parse_color_decodes_hex_with_neutral_fallback() {
    assert_eq!(parse_color(b"#ff0000"), Rgb { r: 255, g: 0, b: 0 });
    assert_eq!(parse_color(b"00ff00"), Rgb { r: 0, g: 255, b: 0 });
    assert_eq!(parse_color(b"#FF00AA"), Rgb { r: 255, g: 0, b: 170 });
    let neutral = Rgb {
        r: 128,
        g: 128,
        b: 128,
    };
    assert_eq!(parse_color(b"red"), neutral);
    assert_eq!(parse_color(b"#ff000"), neutral);
    assert_eq!(parse_color(b"#ff00001"), neutral);
    assert_eq!(parse_color(b""), neutral);
    assert_eq!(parse_color(b"#gg0000"), neutral);
}

#[test]
fn apply_batch_upserts_by_coordinate() {
    let mut set = GrainSet::new();
    set.apply_batch(&vec![dto(0, 0, b"#ff0000"), dto(1, 2, b"#00ff00")]);
    assert_eq!(set.len(), 2);
    assert_eq!(set.get(0, 0), Some(Rgb { r: 255, g: 0, b: 0 }));
    assert_eq!(set.get(1, 2), Some(Rgb { r: 0, g: 255, b: 0 }));
    // Re-sighting a coordinate replaces the color, never duplicates.
    set.apply_batch(&vec![dto(0, 0, b"#0000ff")]);
    assert_eq!(set.len(), 2);
    assert_eq!(set.get(0, 0), Some(Rgb { r: 0, g: 0, b: 255 }));
}

#[test]
fn apply_batch_twice_equals_once() {
    let batch = vec![
        dto(0, 0, b"#ff0000"),
        dto(5, -7, b"#00ff00"),
        dto(0, 0, b"#123456"),
    ];
    let mut once = GrainSet::new();
    once.apply_batch(&batch);
    let mut twice = GrainSet::new();
    twice.apply_batch(&batch);
    twice.apply_batch(&batch);
    assert_eq!(once.len(), twice.len());
    for e in once.as_entries() {
        assert_eq!(twice.get(e.grain.x, e.grain.y), Some(e.color));
    }
    // Within one batch the later record wins.
    assert_eq!(
        once.get(0, 0),
        Some(Rgb {
            r: 0x12,
            g: 0x34,
            b: 0x56
        })
    );
}

#[test]
fn malformed_color_falls_back_without_poisoning_the_batch() {
    let mut set = GrainSet::new();
    set.apply_batch(&vec![dto(0, 0, b"nonsense"), dto(1, 1, b"#ffffff")]);
    assert_eq!(
        set.get(0, 0),
        Some(Rgb {
            r: 128,
            g: 128,
            b: 128
        })
    );
    assert_eq!(
        set.get(1, 1),
        Some(Rgb {
            r: 255,
            g: 255,
            b: 255
        })
    );
}

#[test]
fn prune_keeps_only_grains_inside_the_region() {
    let mut set = GrainSet::new();
    set.apply_batch(&vec![
        dto(0, 0, b"#ff0000"),
        dto(53, -53, b"#00ff00"),
        dto(54, 0, b"#0000ff"),
        dto(0, 54, b"#0000ff"),
        dto(-54, 0, b"#0000ff"),
    ]);
    set.prune(&region(-53, 53, 53, -53));
    assert_eq!(set.len(), 2);
    assert!(set.get(0, 0).is_some());
    assert!(set.get(53, -53).is_some());
    assert!(set.get(54, 0).is_none());
    assert!(set.get(0, 54).is_none());
    assert!(set.get(-54, 0).is_none());
}

#[test]
fn first_fetch_scenario_settles_success_and_stops_refetching() {
    // Initial status Failed; region R0 computed; the tick issues a GET.
    let r0 = region(-50, 50, 50, -50);
    let mut status = PixelRectRequestStatus::initial();
    let issue = schedule_fetch(&mut status, &r0);
    assert!(issue);
    assert_eq!(
        region_query(&r0),
        b"/api/canvas?topLeftX=-50&topLeftY=50&bottomRightX=50&bottomRightY=-50".to_vec()
    );
    // The GET succeeds with one red pixel at the origin.
    let (settled, batch) =
        settle_region_fetch(&r0, true, b"[{\"x\":0,\"y\":0,\"color\":\"#ff0000\"}]");
    assert_eq!(settled, PixelRectRequestStatus::Success(r0));
    let batch = batch.unwrap();
    let mut set = GrainSet::new();
    set.apply_batch(&batch);
    assert_eq!(set.len(), 1);
    assert_eq!(set.get(0, 0), Some(Rgb { r: 255, g: 0, b: 0 }));
    // The completion message lands in the slot; the next tick with the
    // same region issues nothing.
    status = settled;
    let issue = schedule_fetch(&mut status, &r0);
    assert!(!issue);
    assert_eq!(status, PixelRectRequestStatus::Success(r0));
}

#[test]
fn failed_fetch_scenario_retries_next_tick() {
    // A GET that comes back as HTTP 500 settles the slot to Failed.
    let r0 = region(-50, 50, 50, -50);
    let (settled, batch) = settle_region_fetch(&r0, false, b"Internal Server Error");
    assert_eq!(settled, PixelRectRequestStatus::Failed);
    assert!(batch.is_none());
    // The next tick with the same region re-issues the GET.
    let mut status = settled;
    let issue = schedule_fetch(&mut status, &r0);
    assert!(issue);
    assert_eq!(status, PixelRectRequestStatus::InProgress);
}

#[test]
fn undecodable_body_scenario_settles_failed() {
    let r0 = region(-50, 50, 50, -50);
    let (settled, batch) = settle_region_fetch(&r0, true, b"<html>oops</html>");
    assert_eq!(settled, PixelRectRequestStatus::Failed);
    assert!(batch.is_none());
}

#[test]
fn click_to_paint_scenario_paints_without_touching_the_slot() {
    // A click whose world point floors/ceils to grain (3, -2), with the
    // picked color green.
    let grain = screen_to_grain(35, -20, PIXEL_SIZE);
    assert_eq!((grain.x, grain.y), (3, -2));
    let body = pixel_edit_body(grain.x, grain.y, &[0, 255, 0]);
    assert_eq!(body, b"{\"x\":3,\"y\":-2,\"color\":\"#00ff00\"}".to_vec());
    // The service echoes the stored pixel; the echo merges into the set.
    let echo = settle_pixel_edit(true, b"{\"x\":3,\"y\":-2,\"color\":\"#00ff00\"}");
    let echo = echo.unwrap();
    let mut set = GrainSet::new();
    set.apply_batch(&vec![dto(3, -2, b"#ff0000")]);
    set.apply_batch(&echo);
    assert_eq!(set.get(3, -2), Some(Rgb { r: 0, g: 255, b: 0 }));
    // The edit neither settles nor schedules a region fetch.
    let r0 = region(-50, 50, 50, -50);
    let mut status = PixelRectRequestStatus::Success(r0);
    let issue = schedule_fetch(&mut status, &r0);
    assert!(!issue);
    // A failed edit is dropped silently: nothing to merge.
    assert!(settle_pixel_edit(false, b"{\"x\":3,\"y\":-2,\"color\":\"#00ff00\"}").is_none());
    assert!(settle_pixel_edit(true, b"oops").is_none());
}

#[test]
fn panning_away_scenario_prunes_the_grain() {
    // Grain (3, -2) is live; the camera pans so far right that the new
    // visible region no longer holds it; the next prune removes it even
    // though no fetch happened.
    let mut set = GrainSet::new();
    set.apply_batch(&vec![dto(3, -2, b"#00ff00")]);
    let new_region = viewport_to_region(500, 500, 1500, -500, PIXEL_SIZE, OVERSCAN_CELLS);
    assert!(new_region.top_left.x > 3);
    set.prune(&new_region);
    assert_eq!(set.get(3, -2), None);
    assert_eq!(set.len(), 0);
}
