use crustgraver::device::DeviceState;
use crustgraver::protocol::{move_xy, stop_carving, DeviceMessage, UploadEvent, MAX_HEIGHT, MAX_WIDTH};

fn at(x: u16, y: u16) -> DeviceState {
    DeviceState { position: [x, y], ..DeviceState::connected() }
}

#[test]
fn connected_state_has_no_job() {
    let s = DeviceState::connected();
    assert_eq!(s.progress, 100);
    assert_eq!(s.temperature, None);
    assert_eq!(s.position, [0, 0]);
    assert!(!s.burning);
    assert!(s.is_complete());
    let d = DeviceState::default();
    assert_eq!(d.progress, 0);
    assert!(!d.is_complete());
}

#[test]
fn replies_update_the_state() {
    let mut s = DeviceState::connected();
    s.apply(&DeviceMessage::Status { temperature: 31 });
    assert_eq!(s.temperature, Some(31));
    s.start_burn();
    assert_eq!((s.progress, s.burning), (0, true));
    assert!(!s.is_complete());
    s.apply(&DeviceMessage::CarvingProgress { percent: 40, x: 12, y: 600 });
    assert_eq!((s.progress, s.position, s.burning), (40, [12, 600], true));
    s.apply(&DeviceMessage::CarvingProgress { percent: 100, x: 1, y: 2 });
    assert_eq!((s.progress, s.position, s.burning), (100, [1, 2], false));
    assert!(s.is_complete());
    let before = s;
    s.apply(&DeviceMessage::Online);
    s.apply(&DeviceMessage::UploadInfo(UploadEvent::UploadPercent(3)));
    s.apply(&DeviceMessage::Unknown(vec![1, 2]));
    s.apply(&DeviceMessage::AfterUpload { x: 1, y: 1, w: 1, h: 1 });
    assert_eq!(s, before);
}

#[test]
fn move_to_clips_to_the_work_area() {
    let mut s = DeviceState::connected();
    assert_eq!(s.move_to(100, 200), move_xy(100, 200));
    assert_eq!(s.position, [100, 200]);
    assert_eq!(s.move_to(1000, 491), move_xy(MAX_WIDTH, MAX_HEIGHT));
    assert_eq!(s.position, [490, 490]);
}

#[test]
fn arrows_step_by_four_within_bounds() {
    let mut s = at(2, 2);
    assert_eq!(s.move_up(), move_xy(2, 0));
    assert_eq!(s.move_left(), move_xy(0, 0));
    let mut s = at(488, 489);
    assert_eq!(s.move_down(), move_xy(488, 490));
    assert_eq!(s.move_right(), move_xy(490, 490));
    let mut s = at(100, 100);
    s.move_down();
    s.move_right();
    assert_eq!(s.position, [104, 104]);
    // a position reported outside the area is brought back in
    let mut s = at(1000, 1000);
    assert_eq!(s.move_up(), move_xy(490, 490));
}

#[test]
fn arrows_equal_jogs() {
    for (x, y) in [(0, 0), (3, 487), (250, 250), (490, 490), (700, 2)] {
        let (mut a, mut b) = (at(x, y), at(x, y));
        assert_eq!(a.move_up(), b.jog(0, -4));
        assert_eq!(a, b);
        let (mut a, mut b) = (at(x, y), at(x, y));
        assert_eq!(a.move_down(), b.jog(0, 4));
        assert_eq!(a, b);
        let (mut a, mut b) = (at(x, y), at(x, y));
        assert_eq!(a.move_left(), b.jog(-4, 0));
        assert_eq!(a, b);
        let (mut a, mut b) = (at(x, y), at(x, y));
        assert_eq!(a.move_right(), b.jog(4, 0));
        assert_eq!(a, b);
    }
}

#[test]
fn jog_clamps_both_ways() {
    let mut s = at(10, 10);
    assert_eq!(s.jog(-100, 1000), move_xy(0, 490));
    assert_eq!(s.jog(5, -5), move_xy(5, 485));
    assert_eq!(s.position, [5, 485]);
    let mut s = at(u16::MAX, 0);
    assert_eq!(s.jog(i32::MIN + 65535, 0), move_xy(0, 0));
}

#[test]
fn stop_ends_the_job() {
    let mut s = DeviceState::connected();
    s.start_burn();
    assert_eq!(s.stop(), stop_carving());
    assert!(!s.burning);
    assert_eq!(s.progress, 0);
}
