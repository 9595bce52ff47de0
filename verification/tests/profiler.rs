use codeball::profiler::Profiler;
use std::time::{Duration, Instant};

#[test]
fn test_profiler_stages() {
    let start = Instant::now();
    let mut profiler = Profiler::new(start);
    assert!(profiler.stages().is_empty());
    let first = start + Duration::from_millis(3);
    profiler.stage("plan", first);
    profiler.stage("act", first + Duration::from_millis(2));
    assert_eq!(profiler.stages().len(), 2);
    assert_eq!(profiler.stages()[0].name(), "plan");
    assert_eq!(*profiler.stages()[0].finish(), first);
    assert_eq!(profiler.stages()[1].name(), "act");
    assert_eq!(*profiler.start(), start);
    let later = first + Duration::from_millis(10);
    profiler.reset(later);
    assert!(profiler.stages().is_empty());
    assert_eq!(*profiler.start(), later);
}
