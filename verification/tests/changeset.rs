//! Bump targets and changeset template content.

use artisan_tools::changeset;
use artisan_tools::template::BumpTarget;
use artisan_tools::template;

#[test]
fn test_bump_target_from_str() {
    assert_eq!(BumpTarget::from_str("major"), Some(BumpTarget::Major));
    assert_eq!(BumpTarget::from_str("MINOR"), Some(BumpTarget::Minor));
    assert_eq!(BumpTarget::from_str("patch"), Some(BumpTarget::Patch));
    assert_eq!(BumpTarget::from_str("unreleased"), Some(BumpTarget::Unreleased));
    assert_eq!(BumpTarget::from_str("invalid"), None);
}

#[test]
fn changeset_bump_target_as_str() {
    assert_eq!(changeset::BumpTarget::Major.as_str(), "MAJOR");
    assert_eq!(changeset::BumpTarget::Minor.as_str(), "MINOR");
    assert_eq!(changeset::BumpTarget::Patch.as_str(), "PATCH");
    assert_eq!(changeset::BumpTarget::Unreleased.as_str(), "UNRELEASED");
}

#[test]
fn changeset_bump_target_defaults_to_patch() {
    assert_eq!(changeset::BumpTarget::default(), changeset::BumpTarget::Patch);
}

#[test]
fn template_bump_target_as_str() {
    assert_eq!(template::BumpTarget::Major.as_str(), "MAJOR");
    assert_eq!(template::BumpTarget::Unreleased.as_str(), "UNRELEASED");
}

#[test]
fn changeset_template_substitutes_every_target() {
    let targets = [
        changeset::BumpTarget::Major,
        changeset::BumpTarget::Minor,
        changeset::BumpTarget::Patch,
        changeset::BumpTarget::Unreleased,
    ];
    for target in targets {
        let content = changeset::get_template_content(target);
        let line = format!("target: {}", target.as_str());
        assert!(content.contains(&line), "missing {line:?} in {content}");
        assert!(content.contains("changes:"), "template keeps its changes section");
    }
}

#[test]
fn plain_template_substitutes_target() {
    let content = template::template_content(template::BumpTarget::Minor);
    assert!(content.contains("TARGET: MINOR"));
    assert!(content.contains("CHANGELOG:"));
    assert!(content.contains("### Added"));
}
