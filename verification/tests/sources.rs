use danmaku_renderer::danmaku::{Danmaku, DanmakuColor, DanmakuSize, DanmakuTime, DanmakuType};
use danmaku_renderer::filter::{DanmakuFilter, MergeFilter, RegexFilter, SimpleFilter};
use danmaku_renderer::sources::filtered::FilteredDanmakuSource;
use danmaku_renderer::sources::{DanmakuSource, VecDanmakuSource};

fn comment(millis: u32, content: &str) -> Danmaku {
    Danmaku {
        time: DanmakuTime::from_millis(millis),
        kind: DanmakuType::Scroll,
        size: DanmakuSize::Regular,
        color: DanmakuColor::from_code(0xFFFFFF),
        content: content.to_string(),
    }
}

fn texts(found: &[&Danmaku]) -> Vec<String> {
    found.iter().map(|item| item.content.clone()).collect()
}

#[test]
fn vec_source_sorts_by_time() {
    let source = VecDanmakuSource::new(vec![
        comment(300, "c"),
        comment(100, "a"),
        comment(200, "b"),
    ]);
    assert_eq!(texts(&source.get_all()), vec!["a", "b", "c"]);
}

#[test]
fn vec_source_keeps_the_order_of_equal_times() {
    let source = VecDanmakuSource::new(vec![
        comment(5, "first"),
        comment(1, "zero"),
        comment(5, "second"),
        comment(5, "third"),
    ]);
    assert_eq!(texts(&source.get_all()), vec!["zero", "first", "second", "third"]);
}

#[test]
fn range_is_half_open() {
    let source = VecDanmakuSource::new(vec![
        comment(0, "a"),
        comment(999, "b"),
        comment(1000, "c"),
        comment(1999, "d"),
        comment(2000, "e"),
    ]);
    let found = source.get_range(DanmakuTime::from_millis(1000), DanmakuTime::from_millis(2000));
    assert_eq!(texts(&found), vec!["c", "d"]);
    let found = source.get_range(DanmakuTime::from_millis(0), DanmakuTime::from_millis(1000));
    assert_eq!(texts(&found), vec!["a", "b"]);
}

#[test]
fn range_starts_at_the_first_of_equal_times() {
    let source = VecDanmakuSource::new(vec![
        comment(5, "a"),
        comment(5, "b"),
        comment(5, "c"),
        comment(5, "d"),
        comment(5, "e"),
        comment(6, "f"),
    ]);
    let found = source.get_range(DanmakuTime::from_millis(5), DanmakuTime::from_millis(6));
    assert_eq!(texts(&found), vec!["a", "b", "c", "d", "e"]);
}

#[test]
fn range_past_the_end_is_empty() {
    let source = VecDanmakuSource::new(vec![comment(10, "a"), comment(20, "b")]);
    assert!(source
        .get_range(DanmakuTime::from_millis(21), DanmakuTime::from_millis(100))
        .is_empty());
    assert!(source
        .get_range(DanmakuTime::from_millis(15), DanmakuTime::from_millis(15))
        .is_empty());
    assert!(source
        .get_range(DanmakuTime::from_millis(30), DanmakuTime::from_millis(10))
        .is_empty());
    let found = source.get_range(DanmakuTime::from_millis(20), DanmakuTime::from_millis(u32::MAX));
    assert_eq!(texts(&found), vec!["b"]);
}

#[test]
fn empty_source_yields_nothing() {
    let source = VecDanmakuSource::new(Vec::new());
    assert!(source.get_all().is_empty());
    assert!(source
        .get_range(DanmakuTime::from_millis(0), DanmakuTime::from_millis(u32::MAX))
        .is_empty());
    assert!(source.into_all().is_empty());
}

#[test]
fn into_all_hands_the_comments_over() {
    let source = VecDanmakuSource::new(vec![comment(2, "b"), comment(1, "a")]);
    let all = source.into_all();
    assert_eq!(all.len(), 2);
    assert_eq!(all[0].content, "a");
    assert_eq!(all[1].content, "b");
    assert_eq!(all[1].time, DanmakuTime::from_millis(2));
}

#[test]
fn simple_filter_matches_substrings() {
    let filter = SimpleFilter::new("kk".to_string());
    assert!(filter.is_filtered("kksk"));
    assert!(filter.is_filtered("skk"));
    assert!(!filter.is_filtered("ksk"));
    assert!(!filter.is_filtered(""));
    assert!(SimpleFilter::new(String::new()).is_filtered("anything"));
    assert!(SimpleFilter::new("吉他".to_string()).is_filtered("喜欢这段的吉他"));
}

#[test]
fn merge_filter_is_a_disjunction() {
    let filter = MergeFilter::new(vec![
        Box::new(SimpleFilter::new("spam".to_string())),
        Box::new(SimpleFilter::new("ad".to_string())),
    ]);
    assert!(filter.is_filtered("this is spam"));
    assert!(filter.is_filtered("bad"));
    assert!(!filter.is_filtered("fine"));
    assert!(!MergeFilter::new(Vec::new()).is_filtered("fine"));
}

#[test]
fn regex_filter_matches_anywhere() {
    let filter = RegexFilter::new(regex::Regex::new("^2{3,}$").unwrap());
    assert!(filter.is_filtered("2222"));
    assert!(!filter.is_filtered("22"));
    assert!(!filter.is_filtered("a222"));
    let anywhere = RegexFilter::new(regex::Regex::new("h+a").unwrap());
    assert!(anywhere.is_filtered("ahhha!"));
}

#[test]
fn filtered_source_drops_what_the_filter_keeps_out() {
    let source = VecDanmakuSource::new(vec![
        comment(1, "keep one"),
        comment(2, "drop this"),
        comment(3, "keep two"),
        comment(4, "drop that"),
    ]);
    let filtered = FilteredDanmakuSource::new(source, SimpleFilter::new("drop".to_string()));
    assert_eq!(texts(&filtered.get_all()), vec!["keep one", "keep two"]);
    let found = filtered.get_range(DanmakuTime::from_millis(2), DanmakuTime::from_millis(4));
    assert_eq!(texts(&found), vec!["keep two"]);
    let all = filtered.into_all();
    assert_eq!(all.len(), 2);
    assert_eq!(all[0].content, "keep one");
    assert_eq!(all[1].content, "keep two");
}

#[test]
fn filtered_source_with_nothing_left() {
    let source = VecDanmakuSource::new(vec![comment(1, "x"), comment(2, "xx")]);
    let filtered = FilteredDanmakuSource::new(source, SimpleFilter::new("x".to_string()));
    assert!(filtered.get_all().is_empty());
    assert!(filtered.into_all().is_empty());
}
