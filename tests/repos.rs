use terra_store::package::PackageSource;
use terra_store::repos::{
    aur_helper, combine_answers, info_answer, install_answer, listing_answer, parse_pacman_search_output,
    search_answer, CommandOutput, RepoError,
};

#[test]
fn test_parse_search_output() {
    let output = "extra/neofetch 7.1.0-2
    A CLI system information tool
core/coreutils 9.4-3
    The basic file, shell and text manipulation utilities";

    let packages = parse_pacman_search_output(output, PackageSource::Official);
    assert_eq!(packages.len(), 2);
    assert_eq!(packages[0].name, "neofetch");
    assert_eq!(packages[1].name, "coreutils");
}

#[test]
fn search_output_details() {
    let output = "aur/yay-bin 12.3.5-1 [installed]\n    Yet another yogurt\nlonely\n\nplain 1.0\n\n    stray\n";
    let packages = parse_pacman_search_output(output, PackageSource::Aur);
    assert_eq!(packages.len(), 2);
    assert_eq!(packages[0].version, "12.3.5-1");
    assert_eq!(packages[0].description, "Yet another yogurt");
    assert_eq!(packages[1].name, "plain");
    assert_eq!(packages[1].description, "");
    assert_eq!(packages[1].source, PackageSource::Aur);
}

#[test]
fn helper_preference() {
    assert_eq!(aur_helper(true, true), Some("paru"));
    assert_eq!(aur_helper(false, true), Some("yay"));
    assert_eq!(aur_helper(false, false), None);
}

#[test]
fn answers_combine() {
    let both = combine_answers(Ok(vec![1, 2]), Some(Ok(vec![3])));
    assert_eq!(both.unwrap(), vec![1, 2, 3]);
    let second_failed = combine_answers(Ok(vec![1]), Some(Err(RepoError::ParseError)));
    assert_eq!(second_failed.unwrap(), vec![1]);
    let first_failed: Result<Vec<u8>, RepoError> =
        combine_answers(Err(RepoError::AurHelperNotFound), Some(Ok(vec![3])));
    assert!(matches!(first_failed, Err(RepoError::AurHelperNotFound)));
}

#[test]
fn command_outcomes() {
    let out = |success: bool, text: &str| CommandOutput { success, code: Some(1), stdout: text.to_string() };
    assert_eq!(listing_answer(out(true, "a\nb\n"), "down").unwrap(), vec!["a".to_string(), "b".to_string()]);
    assert!(matches!(listing_answer(out(false, "a\n"), "down"), Err(RepoError::Unavailable(m)) if m == "down"));
    assert!(matches!(info_answer(out(false, ""), "vim", PackageSource::Official), Err(RepoError::PackageNotFound(n)) if n == "vim"));
    assert!(matches!(info_answer(out(true, "Version : 1\n"), "vim", PackageSource::Official), Err(RepoError::ParseError)));
    assert_eq!(info_answer(out(true, "Name : vim\n"), "vim", PackageSource::Aur).unwrap().name, "vim");
    assert!(install_answer(true, None).is_ok());
    assert!(matches!(install_answer(false, None), Err(RepoError::InstallFailed(-1))));
    assert!(matches!(install_answer(false, Some(3)), Err(RepoError::InstallFailed(3))));
    assert!(search_answer(out(false, "core/a 1\n"), PackageSource::Official).unwrap().is_empty());
    assert_eq!(search_answer(out(true, "core/a 1\n"), PackageSource::Official).unwrap()[0].name, "a");
}
