use terra_store::package::PackageSource;
use terra_store::ui::SourceFilter;

#[test]
fn source_filter_cycle() {
    assert_eq!(SourceFilter::All.next(), SourceFilter::Official);
    assert_eq!(SourceFilter::Official.next(), SourceFilter::Aur);
    assert_eq!(SourceFilter::Aur.next(), SourceFilter::All);
    assert_eq!(SourceFilter::Official.label(), "OFFICIAL");
    assert_eq!(SourceFilter::All.to_package_source(), None);
    assert_eq!(SourceFilter::Aur.to_package_source(), Some(PackageSource::Aur));
}
