use terra_store::database::{CatalogStep, PackageDatabase, PackageView};
use terra_store::package::PackageSource;

fn catalog(names: &[&str]) -> PackageDatabase {
    let mut db = PackageDatabase::new();
    for name in names {
        db.append(name, PackageSource::Official);
    }
    db
}

#[test]
fn test_package_view() {
    let arena = "neofetch\nhtop\nfirefox\n";
    let view = PackageView {
        name_start: 0,
        name_end: 8,
        source: PackageSource::Official,
    };
    assert_eq!(view.name(arena), "neofetch");
}

#[test]
fn test_search() {
    let db = catalog(&["neofetch", "htop", "firefox", "neomutt", "neovim"]);
    let results = db.search("neo", None, 10);
    assert_eq!(results.len(), 3);
}

#[test]
fn search_neo_scenario() {
    let db = PackageDatabase::build_fresh(Some("htop\nneofetch\nneomutt\nneovim\nfirefox\n"), None);
    let hits = db.search("neo", None, 10);
    assert_eq!(hits, vec![1, 2, 3]);
    assert_eq!(db.get_name(1), Some("neofetch"));
    assert_eq!(db.get_name(2), Some("neomutt"));
    assert_eq!(db.get_name(3), Some("neovim"));
    assert_eq!(db.search("neo", Some(PackageSource::Aur), 10), Vec::<usize>::new());
}

#[test]
fn search_limit_keeps_first_matches() {
    let db = catalog(&["neofetch", "htop", "neomutt", "neovim"]);
    assert_eq!(db.search("neo", None, 2), vec![0, 2]);
    assert_eq!(db.search("neo", None, 0), Vec::<usize>::new());
}

#[test]
fn empty_query_finds_nothing() {
    let db = catalog(&["neofetch", "htop"]);
    assert!(db.search("", None, 10).is_empty());
}

#[test]
fn search_ignores_case() {
    let db = catalog(&["NeoVim", "htop"]);
    assert_eq!(db.search("nEO", None, 10), vec![0]);
    assert_eq!(db.search_folded("neo", None, 10), vec![0]);
}

#[test]
fn search_filters_by_source() {
    let db = PackageDatabase::build_fresh(Some("vim\nneovim\n"), Some("neovim-git\nvim-plug\n"));
    assert_eq!(db.search("vim", Some(PackageSource::Aur), 10), vec![2, 3]);
    assert_eq!(db.search("vim", Some(PackageSource::Official), 10), vec![0, 1]);
    assert_eq!(db.get_source(2), Some(PackageSource::Aur));
    assert_eq!(db.get_source(9), None);
    assert_eq!(db.get_name(9), None);
}

#[test]
fn build_counts_and_lines() {
    let db = PackageDatabase::build_fresh(Some("a\r\n\nb\nc"), Some("d\n"));
    assert_eq!(db.len(), 4);
    assert_eq!(db.stats.official_count, 3);
    assert_eq!(db.stats.aur_count, 1);
    assert_eq!(db.stats.arena_bytes, 8);
    assert!(!db.stats.was_cached);
    assert_eq!(db.arena(), "a\nb\nc\nd\n");
    assert_eq!(db.get_name(0), Some("a"));
    assert_eq!(db.get_name(2), Some("c"));
    assert_eq!(db.packages()[3].source, PackageSource::Aur);
}

#[test]
fn build_without_sources_is_empty() {
    let db = PackageDatabase::build_fresh(None, None);
    assert!(db.is_empty());
    assert_eq!(db.stats.official_count, 0);
    assert_eq!(db.stats.aur_count, 0);
}

#[test]
fn rebuild_with_fewer_names_drops_old_ones() {
    let before = PackageDatabase::build_fresh(Some("htop\nneofetch\nneomutt\nneovim\nfirefox\n"), None);
    let after = PackageDatabase::build_fresh(Some("htop\nfirefox\n"), None);
    assert!(after.len() < before.len());
    assert_eq!(after.arena(), "htop\nfirefox\n");
    assert!(after.search("neo", None, 10).is_empty());
}

#[test]
fn snapshot_round_trip() {
    let db = PackageDatabase::build_fresh(Some("htop\nneovim\n"), Some("yay-bin\n"));
    let bytes = db.to_snapshot(1_700_000_000);
    let back = PackageDatabase::from_snapshot(&bytes).expect("snapshot reads back");
    assert_eq!(back.stats.official_count, 2);
    assert_eq!(back.stats.aur_count, 1);
    assert!(back.stats.was_cached);
    assert_eq!(back.arena(), db.arena());
    assert_eq!(back.len(), 3);
    for i in 0..3 {
        assert_eq!(back.get_name(i), db.get_name(i));
        assert_eq!(back.get_source(i), db.get_source(i));
    }
}

#[test]
fn snapshot_layout_matches_bincode() {
    let db = PackageDatabase::build_fresh(Some("htop\n"), Some("paru\n"));
    let bytes = db.to_snapshot(42);
    let mut expected = bincode::serialize(&(1u32, 1u64, 1u64, 10u64, 42u64)).unwrap();
    expected.extend(bincode::serialize(&b"htop\nparu\n".to_vec()).unwrap());
    expected.extend(bincode::serialize(&vec![(0u64, 4u64, 0u32), (5u64, 9u64, 1u32)]).unwrap());
    assert_eq!(bytes, expected);
}

#[test]
fn snapshot_of_other_version_is_a_miss() {
    let db = PackageDatabase::build_fresh(Some("htop\n"), None);
    let mut bytes = db.to_snapshot(7);
    bytes[0] = 2;
    assert!(PackageDatabase::from_snapshot(&bytes).is_none());
    let mut short = vec![9u8, 0, 0, 0];
    short.extend([0xffu8; 3]);
    assert!(PackageDatabase::from_snapshot(&short).is_none());
}

#[test]
fn malformed_snapshots_are_misses() {
    let db = PackageDatabase::build_fresh(Some("htop\nvim\n"), None);
    let bytes = db.to_snapshot(7);
    assert!(PackageDatabase::from_snapshot(&bytes[..bytes.len() - 1]).is_none());
    assert!(PackageDatabase::from_snapshot(&[]).is_none());
    let mut bad_view = bytes.clone();
    let n = bad_view.len();
    bad_view[n - 12] = 200;
    assert!(PackageDatabase::from_snapshot(&bad_view).is_none());
    let mut spans_delimiter = bytes.clone();
    spans_delimiter[n - 32] = 6;
    assert!(PackageDatabase::from_snapshot(&spans_delimiter).is_none());
    let mut bad_utf8 = bytes.clone();
    bad_utf8[44] = 0xff;
    assert!(PackageDatabase::from_snapshot(&bad_utf8).is_none());
    let mut bad_tag = bytes;
    bad_tag[n - 4] = 5;
    assert!(PackageDatabase::from_snapshot(&bad_tag).is_none());
}

#[test]
fn load_or_build_decides() {
    let db = PackageDatabase::build_fresh(Some("htop\n"), None);
    let bytes = db.to_snapshot(3);
    assert!(matches!(PackageDatabase::load_or_build(None), CatalogStep::Rebuild));
    assert!(matches!(PackageDatabase::load_or_build(Some(&bytes[..10])), CatalogStep::Rebuild));
    match PackageDatabase::load_or_build(Some(&bytes)) {
        CatalogStep::Ready(back) => assert_eq!(back.get_name(0), Some("htop")),
        CatalogStep::Rebuild => panic!("a valid snapshot must load"),
    }
}

#[test]
fn append_records_offsets() {
    let mut db = PackageDatabase::default();
    db.append("héllo", PackageSource::Official);
    db.append("x", PackageSource::Aur);
    let v = db.packages()[1];
    assert_eq!((db.packages()[0].name_start, db.packages()[0].name_end), (0, 6));
    assert_eq!((v.name_start, v.name_end), (7, 8));
    assert_eq!(db.get_name(0), Some("héllo"));
}
