use danmaku_renderer::danmaku::{DanmakuColor, DanmakuTime};
use std::time::Duration;

#[test]
fn time_round_trips_through_millis() {
    let time = DanmakuTime::from_millis(83_679);
    assert_eq!(time.as_millis(), 83_679);
    assert_eq!(time.seconds(), 83);
    assert_eq!(time.millis(), 679);
}

#[test]
fn time_zero_and_last() {
    assert_eq!(DanmakuTime::from_millis(0).seconds(), 0);
    assert_eq!(DanmakuTime::from_millis(0).millis(), 0);
    assert_eq!(DanmakuTime::from_millis(u32::MAX).seconds(), 4_294_967);
    assert_eq!(DanmakuTime::from_millis(u32::MAX).millis(), 295);
}

#[test]
fn abs_diff_is_symmetric() {
    let early = DanmakuTime::from_millis(1_000);
    let late = DanmakuTime::from_millis(3_500);
    assert_eq!(early.abs_diff(&late), Duration::from_millis(2_500));
    assert_eq!(late.abs_diff(&early), Duration::from_millis(2_500));
    assert_eq!(late.abs_diff(&late), Duration::from_millis(0));
}

#[test]
fn difference_of_times_is_a_duration() {
    let early = DanmakuTime::from_millis(12_139);
    let late = DanmakuTime::from_millis(83_679);
    assert_eq!(late - early, Duration::from_millis(71_540));
    assert_eq!(late - late, Duration::from_millis(0));
    assert_eq!(&late - &early, Duration::from_millis(71_540));
}

#[test]
fn times_are_ordered_by_their_millis() {
    assert!(DanmakuTime::from_millis(1) < DanmakuTime::from_millis(2));
    assert!(DanmakuTime::from_millis(2) >= DanmakuTime::from_millis(2));
    assert_eq!(DanmakuTime::from_millis(7), DanmakuTime::from_millis(7));
    assert_ne!(DanmakuTime::from_millis(7), DanmakuTime::from_millis(8));
}

#[test]
fn time_reads_as_minutes_seconds_millis() {
    assert_eq!(DanmakuTime::from_millis(83_679).format(), "01:23.679");
    assert_eq!(DanmakuTime::from_millis(0).format(), "00:00.000");
    assert_eq!(DanmakuTime::from_millis(12_139).format(), "00:12.139");
    assert_eq!(DanmakuTime::from_millis(6_000_005).format(), "100:00.005");
}

#[test]
fn color_channels() {
    let color = DanmakuColor::from_rgb(0x12, 0x34, 0x56);
    assert_eq!(color.code(), 0x123456);
    assert_eq!(color.r(), 0x12);
    assert_eq!(color.g(), 0x34);
    assert_eq!(color.b(), 0x56);
}

#[test]
fn color_from_code_keeps_the_code() {
    let white = DanmakuColor::from_code(0xFFFFFF);
    assert_eq!(white.code(), 0xFFFFFF);
    assert_eq!(white, DanmakuColor::from_rgb(255, 255, 255));
    assert_eq!(DanmakuColor::from_code(0).code(), 0);
}

#[test]
fn color_from_code_cast_drops_the_high_byte() {
    assert_eq!(DanmakuColor::from_code_cast(0xFF123456).code(), 0x123456);
    assert_eq!(DanmakuColor::from_code_cast(0x00ABCDEF).code(), 0xABCDEF);
    assert_eq!(DanmakuColor::from_code_cast(u32::MAX), DanmakuColor::from_code(0xFFFFFF));
}

#[test]
fn color_reads_as_hex() {
    assert_eq!(DanmakuColor::from_rgb(0x12, 0xAB, 0x0F).format(), "#12AB0F");
    assert_eq!(DanmakuColor::from_code(0).format(), "#000000");
}

#[test]
fn colours_with_the_same_code_are_equal() {
    assert_eq!(DanmakuColor::from_code_cast(0xFF123456), DanmakuColor::from_rgb(0x12, 0x34, 0x56));
    let colour = DanmakuColor::from_rgb(0xAB, 0x00, 0xFF);
    assert_eq!(colour.code(), 0xAB00FF);
    assert_eq!(DanmakuColor::from_code(colour.code()), colour);
    assert_ne!(DanmakuColor::from_rgb(1, 2, 3), DanmakuColor::from_rgb(3, 2, 1));
}
