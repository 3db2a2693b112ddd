use pixel_canvas::fetch::apply_status_messages;
use pixel_canvas::fetch::schedule_fetch;
use pixel_canvas::fetch::settle_status;
use pixel_canvas::fetch::should_fetch;
use pixel_canvas::PixelGrain;
use pixel_canvas::PixelRectangle;
use pixel_canvas::PixelRectRequestStatus;

fn region(tlx: i64, tly: i64, brx: i64, bry: i64) -> PixelRectangle {
    PixelRectangle {
        top_left: PixelGrain::new(tlx, tly),
        bottom_right: PixelGrain::new(brx, bry),
    }
}

#[test]
fn should_fetch_in_progress_never_fetches() {
    let r = region(-50, 50, 50, -50);
    assert!(!should_fetch(&PixelRectRequestStatus::InProgress, &r));
    let r2 = region(0, 0, 0, 0);
    assert!(!should_fetch(&PixelRectRequestStatus::InProgress, &r2));
}

#[test]
fn should_fetch_failed_always_fetches() {
    let r = region(-50, 50, 50, -50);
    assert!(should_fetch(&PixelRectRequestStatus::Failed, &r));
}

#[test]
fn should_fetch_same_region_is_idempotent() {
    let r = region(-50, 50, 50, -50);
    assert!(!should_fetch(&PixelRectRequestStatus::Success(r), &r));
}

#[test]
fn should_fetch_changed_region_refetches() {
    let r1 = region(-50, 50, 50, -50);
    let r2 = region(-49, 50, 51, -50);
    assert!(should_fetch(&PixelRectRequestStatus::Success(r1), &r2));
    let r3 = region(-50, 50, 50, -51);
    assert!(should_fetch(&PixelRectRequestStatus::Success(r1), &r3));
}

#[test]
fn schedule_fetch_moves_to_in_progress_before_issuing() {
    let r = region(-50, 50, 50, -50);
    let mut status = PixelRectRequestStatus::initial();
    assert_eq!(status, PixelRectRequestStatus::Failed);
    let issue = schedule_fetch(&mut status, &r);
    assert!(issue);
    assert_eq!(status, PixelRectRequestStatus::InProgress);
    // A second tick sees InProgress and does not double-fetch.
    let issue = schedule_fetch(&mut status, &r);
    assert!(!issue);
    assert_eq!(status, PixelRectRequestStatus::InProgress);
}

#[test]
fn schedule_fetch_leaves_settled_slot_alone() {
    let r = region(-50, 50, 50, -50);
    let mut status = PixelRectRequestStatus::Success(r);
    let issue = schedule_fetch(&mut status, &r);
    assert!(!issue);
    assert_eq!(status, PixelRectRequestStatus::Success(r));
}

#[test]
fn tick_issues_the_exact_query_or_nothing() {
    let r = region(-50, 50, 50, -50);
    let mut status = PixelRectRequestStatus::Failed;
    let path = pixel_canvas::fetch::tick_region_fetch(&mut status, &r).unwrap();
    assert_eq!(
        path,
        b"/api/canvas?topLeftX=-50&topLeftY=50&bottomRightX=50&bottomRightY=-50".to_vec()
    );
    assert_eq!(status, PixelRectRequestStatus::InProgress);
    assert!(pixel_canvas::fetch::tick_region_fetch(&mut status, &r).is_none());
    assert_eq!(status, PixelRectRequestStatus::InProgress);
    let mut settled = PixelRectRequestStatus::Success(r);
    assert!(pixel_canvas::fetch::tick_region_fetch(&mut settled, &r).is_none());
    assert_eq!(settled, PixelRectRequestStatus::Success(r));
}

#[test]
fn settle_status_records_region_or_failure() {
    let r = region(-50, 50, 50, -50);
    assert_eq!(
        settle_status(&r, true),
        PixelRectRequestStatus::Success(r)
    );
    assert_eq!(settle_status(&r, false), PixelRectRequestStatus::Failed);
}

#[test]
fn status_messages_apply_in_order_last_wins() {
    let r = region(-50, 50, 50, -50);
    let mut status = PixelRectRequestStatus::InProgress;
    let n = apply_status_messages(&mut status, vec![]);
    assert_eq!(n, 0);
    assert_eq!(status, PixelRectRequestStatus::InProgress);
    let n = apply_status_messages(
        &mut status,
        vec![
            PixelRectRequestStatus::Failed,
            PixelRectRequestStatus::Success(r),
        ],
    );
    assert_eq!(n, 2);
    assert_eq!(status, PixelRectRequestStatus::Success(r));
}
