use terra_store::history::{History, InstallRecord, MAX_HISTORY_ENTRIES};
use terra_store::package::PackageSource;

#[test]
fn test_install_record() {
    let record = InstallRecord::success("neofetch", PackageSource::Official);
    assert!(record.success);
    assert!(record.error.is_none());
}

#[test]
fn test_history_add() {
    let mut history = History::default();
    history.add(InstallRecord::success("neofetch", PackageSource::Official));
    history.add(InstallRecord::success("htop", PackageSource::Official));
    assert_eq!(history.records.len(), 2);
    assert_eq!(history.records[0].name, "htop");
}

#[test]
fn history_is_bounded() {
    let mut history = History::default();
    for i in 0..MAX_HISTORY_ENTRIES + 3 {
        history.add(InstallRecord::success(&format!("p{}", i), PackageSource::Aur));
    }
    assert_eq!(history.records.len(), MAX_HISTORY_ENTRIES);
    assert_eq!(history.records[0].name, format!("p{}", MAX_HISTORY_ENTRIES + 2));
}

#[test]
fn history_counts_and_recent() {
    let mut history = History::default();
    history.record_success("a", PackageSource::Official);
    history.record_failure("b", PackageSource::Aur, "exit 1");
    history.record_success("c", PackageSource::Official);
    assert_eq!(history.success_count(), 2);
    assert_eq!(history.failure_count(), 1);
    assert_eq!(history.recent(2).len(), 2);
    assert_eq!(history.recent(10).len(), 3);
    assert_eq!(history.last().unwrap().name, "c");
    assert_eq!(history.records[1].error.as_deref(), Some("exit 1"));
    history.clear();
    assert!(history.last().is_none());
}

#[test]
fn record_times() {
    let mut r = InstallRecord::success("x", PackageSource::Official);
    assert!(r.timestamp > 1_600_000_000);
    assert_eq!(r.formatted_time(), "just now");
    r.timestamp = 1000;
    assert_eq!(r.formatted_time_at(1030), "just now");
    assert_eq!(r.formatted_time_at(1000 + 125), "2 min ago");
    assert_eq!(r.formatted_time_at(1000 + 7200), "2 hours ago");
    assert_eq!(r.formatted_time_at(1000 + 3 * 86400), "3 days ago");
    assert_eq!(r.formatted_time_at(10), "just now");
}
