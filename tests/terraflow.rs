use terra_store::package::PackageSource;
use terra_store::terraflow::{installed_names, PackageEntry, TerraFlow};

#[test]
fn test_detect_source() {
    assert_eq!(TerraFlow::detect_source("aur.txt"), PackageSource::Aur);
    assert_eq!(TerraFlow::detect_source("pacman_system.txt"), PackageSource::Official);
}

#[test]
fn detect_source_uses_file_stem() {
    assert_eq!(TerraFlow::detect_source("/home/u/aurlists/base.txt"), PackageSource::Official);
    assert_eq!(TerraFlow::detect_source("/home/u/lists/my_aur.pkgs.txt"), PackageSource::Aur);
}

#[test]
fn config_entries_and_audit() {
    let tf = TerraFlow::new("/tmp/packages");
    assert_eq!(tf.packages_dir(), "/tmp/packages");
    let entries = TerraFlow::config_entries("aur.txt", "# comment\n  yay-bin  \n.\n\nparu\n");
    assert_eq!(entries.len(), 2);
    assert_eq!(entries[0].name, "yay-bin");
    assert_eq!(entries[1].source, PackageSource::Aur);
    assert_eq!(entries[1].file, "aur.txt");
    let mut config = entries;
    config.push(PackageEntry { name: "vim".into(), source: PackageSource::Official, file: "base.txt".into() });
    let installed = installed_names("vim\nhtop\nvim\nparu\n");
    assert_eq!(installed, vec!["vim".to_string(), "htop".to_string(), "paru".to_string()]);
    let result = tf.audit(&config, &installed);
    assert_eq!(result.config_count, 3);
    assert_eq!(result.installed_count, 3);
    assert_eq!(result.missing.len(), 1);
    assert_eq!(result.missing[0].name, "yay-bin");
    assert_eq!(result.extra, vec!["htop".to_string()]);
}
