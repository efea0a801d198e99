use crustgraver::protocol::{
    image_info, init_hello, init_ping, move_xy, parse_packet, pause_carving, set_power,
    show_window, stop_carving, stop_window, DeviceMessage, UploadEvent, FOOTER, HEADER,
};

#[test]
fn init_packets_are_exact() {
    assert_eq!(init_ping(), vec![0xFF, 0x09, 0x5A, 0xA5]);
    assert_eq!(init_hello(), vec![0xFF, 0xAA, 0x08, 0x01, 0x01, 0x5A, 0xA5, 0x55]);
}

#[test]
fn move_xy_is_big_endian() {
    assert_eq!(
        move_xy(0x0102, 0x01F0),
        vec![
            0xFF, 0xAA, 0x10, 0x05, 0x01, 0x50, 0x01, 0x01, 0x02, 0x01, 0xF0, 0x00, 0x00, 0x00,
            0x00, 0x55
        ]
    );
    assert_eq!(move_xy(0, 0)[7..11], [0, 0, 0, 0]);
    assert_eq!(move_xy(u16::MAX, 245)[7..11], [0xFF, 0xFF, 0x00, 0xF5]);
}

#[test]
fn show_and_stop_window() {
    assert_eq!(
        show_window(10, 300, 490, 256),
        vec![
            0xFF, 0xAA, 0x10, 0x05, 0x01, 0x50, 0x02, 0x00, 0x0A, 0x01, 0x2C, 0x01, 0xEA, 0x01,
            0x00, 0x55
        ]
    );
    assert_eq!(
        stop_window(),
        vec![
            0xFF, 0xAA, 0x10, 0x05, 0x01, 0x50, 0x00, 0x00, 0x00, 0x00, 0x00, 0x00, 0x00, 0x00,
            0x00, 0x55
        ]
    );
}

#[test]
fn power_and_carving_control() {
    assert_eq!(
        set_power(80, 10),
        vec![0xFF, 0xAA, 0x0B, 0x03, 0x01, 0x0F, 80, 10, 0x00, 0x00, 0x55]
    );
    assert_eq!(stop_carving(), vec![0xFF, 0xAA, 0x08, 0x02, 0x01, 0x01, 0x02, 0x55]);
    assert_eq!(pause_carving(), vec![0xFF, 0xAA, 0x08, 0x02, 0x01, 0x01, 0x00, 0x55]);
}

#[test]
fn image_info_header() {
    // width 100 rounds up to 104; 104 * 50 / 8 = 650 = 0x00028A raster bytes
    assert_eq!(
        image_info(10, 20, 100, 50),
        vec![
            0xFF, 0xAA, 0x16, 0x04, 0x02, 0x01, 0x50, 0x00, 0x0A, 0x00, 0x14, 0x00, 0x68, 0x00,
            0x32, 0x00, 0x00, 0x02, 0x8A, 0x00, 0x64, 0x55
        ]
    );
    // the full work area: 496 * 490 / 8 = 30380 = 0x76AC
    let p = image_info(0, 0, 490, 490);
    assert_eq!(p[11..15], [0x01, 0xF0, 0x01, 0xEA]);
    assert_eq!(p[15..19], [0x00, 0x00, 0x76, 0xAC]);
    assert_eq!(p[19..21], [0x01, 0xEA]);
}

#[test]
fn image_info_keeps_three_length_bytes() {
    // 65528 * 65535 / 8 = 0x1FFEE001: only the low three bytes are carried
    let p = image_info(0, 0, 65528, 65535);
    assert_eq!(p[11..13], [0xFF, 0xF8]);
    assert_eq!(p[15..19], [0x00, 0xFE, 0xE0, 0x01]);
    assert_eq!(p.len(), 22);
}

#[test]
fn image_info_exact_multiple_of_eight() {
    let p = image_info(0, 0, 8, 1);
    assert_eq!(p[11..13], [0x00, 0x08]);
    assert_eq!(p[15..19], [0x00, 0x00, 0x00, 0x01]);
    let p = image_info(0, 0, 1, 1);
    assert_eq!(p[11..13], [0x00, 0x08]);
    assert_eq!(p[19..21], [0x00, 0x01]);
}

#[test]
fn every_packet_is_framed() {
    let packets = vec![
        init_hello(),
        move_xy(1, 2),
        show_window(1, 2, 3, 4),
        stop_window(),
        set_power(1, 2),
        stop_carving(),
        pause_carving(),
        image_info(1, 2, 3, 4),
    ];
    for p in packets {
        assert_eq!(p[0], HEADER);
        assert_eq!(*p.last().unwrap(), FOOTER);
    }
    assert_eq!(init_ping()[0], HEADER);
}

#[test]
fn parse_short_and_foreign_packets() {
    assert_eq!(parse_packet(&[]), None);
    assert_eq!(parse_packet(&[0xFF]), None);
    assert_eq!(parse_packet(&[0xFF, 0xAA]), None);
    assert_eq!(parse_packet(&[0x00, 0xAA, 0x0B, 0, 0, 30]), None);
    assert_eq!(parse_packet(&[0xFF, 0xAB, 0x0B]), Some(DeviceMessage::Unknown(vec![0xFF, 0xAB, 0x0B])));
    assert_eq!(parse_packet(&[0x12, 0x34]), None);
}

#[test]
fn parse_old_style_packets() {
    assert_eq!(parse_packet(&[0xFF, 0x00]), Some(DeviceMessage::Online));
    assert_eq!(parse_packet(&[0xFF, 0x02, 0x77]), Some(DeviceMessage::ConnectionOk));
    assert_eq!(parse_packet(&[0xFF, 0x05]), Some(DeviceMessage::Unknown(vec![0xFF, 0x05])));
}

#[test]
fn parse_upload_events() {
    let ev = |e: u8, p: u8| parse_packet(&[0xFF, 0xAA, 0x08, 0x04, 0x01, e, p]);
    assert_eq!(ev(0x02, 0), Some(DeviceMessage::UploadInfo(UploadEvent::ImageInfoReceived)));
    assert_eq!(ev(0x03, 0), Some(DeviceMessage::UploadInfo(UploadEvent::WaitingForImage)));
    assert_eq!(ev(0x03, 42), Some(DeviceMessage::UploadInfo(UploadEvent::UploadPercent(42))));
    assert_eq!(ev(0x04, 9), Some(DeviceMessage::UploadInfo(UploadEvent::UploadFinished)));
    assert_eq!(
        ev(0x07, 1),
        Some(DeviceMessage::Unknown(vec![0xFF, 0xAA, 0x08, 0x04, 0x01, 0x07, 0x01]))
    );
    // too short, or another sub-command: unknown
    assert_eq!(
        parse_packet(&[0xFF, 0xAA, 0x08, 0x04, 0x01, 0x02]),
        Some(DeviceMessage::Unknown(vec![0xFF, 0xAA, 0x08, 0x04, 0x01, 0x02]))
    );
    assert!(matches!(
        parse_packet(&[0xFF, 0xAA, 0x08, 0x02, 0x01, 0x02, 0x00]),
        Some(DeviceMessage::Unknown(_))
    ));
}

#[test]
fn parse_status_packet() {
    // FF AA 0B 0B 02 1E FF FF FF 00 means 0x1E = 30 °C
    assert_eq!(
        parse_packet(&[0xFF, 0xAA, 0x0B, 0x0B, 0x02, 0x1E, 0xFF, 0xFF, 0xFF, 0x00]),
        Some(DeviceMessage::Status { temperature: 30 })
    );
    assert!(matches!(parse_packet(&[0xFF, 0xAA, 0x0B, 0x0B, 0x02]), Some(DeviceMessage::Unknown(_))));
}

#[test]
fn parse_progress_and_area() {
    assert_eq!(
        parse_packet(&[0xFF, 0xAA, 0x0E, 0, 0, 0, 57, 0x01, 0x02, 0x00, 0xF0]),
        Some(DeviceMessage::CarvingProgress { percent: 57, x: 0x0102, y: 0xF0 })
    );
    assert!(matches!(parse_packet(&[0xFF, 0xAA, 0x0E, 0, 0, 0, 57, 1, 2, 0]), Some(DeviceMessage::Unknown(_))));
    assert_eq!(
        parse_packet(&[0xFF, 0xAA, 0x10, 0, 0, 0, 0, 0, 1, 0, 2, 0x01, 0xEA, 0x00, 0x10]),
        Some(DeviceMessage::AfterUpload { x: 1, y: 2, w: 490, h: 16 })
    );
    assert!(matches!(parse_packet(&[0xFF, 0xAA, 0x10, 0, 0, 0, 0, 0, 1, 0, 2, 0x01, 0xEA, 0x00]), Some(DeviceMessage::Unknown(_))));
    assert!(matches!(parse_packet(&[0xFF, 0xAA, 0x99]), Some(DeviceMessage::Unknown(_))));
}

#[test]
fn area_packet_reads_back_the_preview_rectangle() {
    for (x, y, w, h) in [(0, 0, 0, 0), (1, 2, 3, 4), (490, 300, 65535, 256)] {
        let p = show_window(x, y, w, h);
        assert_eq!(parse_packet(&p[..p.len() - 1]), Some(DeviceMessage::AfterUpload { x, y, w, h }));
    }
}
