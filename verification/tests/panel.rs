use crustgraver::panel::{append_log_line, temperature_level, TempLevel, LOG_CAPACITY};

#[test]
fn temperature_bands() {
    assert_eq!(temperature_level(0), TempLevel::Normal);
    assert_eq!(temperature_level(40), TempLevel::Normal);
    assert_eq!(temperature_level(41), TempLevel::Warm);
    assert_eq!(temperature_level(55), TempLevel::Warm);
    assert_eq!(temperature_level(56), TempLevel::Hot);
    assert_eq!(temperature_level(255), TempLevel::Hot);
}

#[test]
fn log_keeps_the_newest_lines() {
    let mut log = Vec::new();
    for i in 0..LOG_CAPACITY {
        append_log_line(&mut log, format!("line {i}"));
    }
    assert_eq!(log.len(), 200);
    assert_eq!(log[0], "line 0");
    append_log_line(&mut log, String::from("newest"));
    assert_eq!(log.len(), 200);
    assert_eq!(log[0], "line 1");
    assert_eq!(log[199], "newest");
}
