use terra_store::package::{format_size, parse_size, scaled_bytes, size_multiplier, Package, PackageInfo, PackageSource};

#[test]
fn test_parse_size() {
    assert_eq!(parse_size("1.5 MiB"), 1572864);
    assert_eq!(parse_size("100 KiB"), 102400);
    assert_eq!(parse_size("1 GiB"), 1073741824);
}

#[test]
fn test_format_size() {
    assert_eq!(format_size(1572864), "1.50 MiB");
    assert_eq!(format_size(102400), "100.00 KiB");
}

#[test]
fn parse_size_edges() {
    assert_eq!(parse_size("12 B"), 12);
    assert_eq!(parse_size("2 kib"), 2048);
    assert_eq!(parse_size("3 parsecs"), 3);
    assert_eq!(parse_size("1.5"), 0);
    assert_eq!(parse_size("abc MiB"), 0);
    assert_eq!(parse_size("-2 KiB"), 0);
    assert_eq!(parse_size("0.5 KB"), 512);
    assert_eq!(parse_size("99999999999999999999 GiB"), u64::MAX);
    assert_eq!(size_multiplier("MB"), 1048576);
    assert_eq!(scaled_bytes("2.25", 1024), 2304);
}

#[test]
fn format_size_edges() {
    assert_eq!(format_size(0), "0 B");
    assert_eq!(format_size(1023), "1023 B");
    assert_eq!(format_size(1152), "1.12 KiB");
    assert_eq!(format_size(3 * 1073741824), "3.00 GiB");
}

#[test]
fn package_constructors() {
    let p = Package::new("htop", PackageSource::Aur);
    assert_eq!(p.name, "htop");
    assert!(p.version.is_empty());
    let q = Package::with_details("vim", "9.1", "editor", PackageSource::Official);
    assert_eq!((q.version.as_str(), q.description.as_str()), ("9.1", "editor"));
    assert_eq!(PackageSource::Aur.to_string(), "AUR");
    assert_eq!(PackageSource::default(), PackageSource::Official);
}

const INFO: &str = "Repository      : extra
Name            : neofetch
Version         : 7.1.0-2
Description     : A CLI system information tool
URL             : https://github.com/dylanaraps/neofetch
Licenses        : MIT
Depends On      : bash
Optional Deps   : catimg  chafa
Download Size   : 84.51 KiB
Installed Size  : 326.14 KiB
Packager        : Someone <someone@example.org>
Build Date      : Mon 01 Jan 2024
";

#[test]
fn info_parses_fields() {
    let info = PackageInfo::from_pacman_output(INFO, PackageSource::Official).unwrap();
    assert_eq!(info.name, "neofetch");
    assert_eq!(info.version, "7.1.0-2");
    assert_eq!(info.url, "https://github.com/dylanaraps/neofetch");
    assert_eq!(info.licenses, vec!["MIT".to_string()]);
    assert_eq!(info.optional_deps, vec!["catimg".to_string(), "chafa".to_string()]);
    assert_eq!(info.download_size, 86538);
    assert_eq!(info.packager, "Someone <someone@example.org>");
    assert!(info.install_reason.is_none());
}

#[test]
fn info_without_name_is_none() {
    assert!(PackageInfo::from_pacman_output("Version : 1.0\n", PackageSource::Aur).is_none());
}

#[test]
fn info_display_text() {
    let info = PackageInfo::from_pacman_output(INFO, PackageSource::Official).unwrap();
    let text = info.to_display_string();
    assert!(text.starts_with("📦 neofetch 7.1.0-2\n   A CLI system information tool\n\n"));
    assert!(text.contains("📜 License: MIT\n"));
    assert!(text.contains("💾 Download: 84.51 KiB | Installed: 326.14 KiB\n"));
    assert!(text.contains("\n📋 Dependencies (1):\n   • bash\n"));
    assert!(text.ends_with("\n📋 Optional Dependencies (2):\n   • catimg\n   • chafa\n"));
}
