use exile_harness::archive::{
    archive_url, contained, entry_target, percent_safe, plan_fetch, provenance, repo,
    strip_top_level,
};
use exile_harness::toolkit::Game;

#[test]
fn repos_are_per_game() {
    assert_eq!(repo(Game::Poe1), "PathOfBuilding");
    assert_eq!(repo(Game::Poe2), "PathOfBuilding-PoE2");
}

#[test]
fn top_level_directory_is_stripped() {
    assert_eq!(
        strip_top_level("PathOfBuilding-dev/src/Launch.lua"),
        Some("src/Launch.lua".to_owned())
    );
    assert_eq!(strip_top_level("PathOfBuilding-dev/"), None);
    assert_eq!(strip_top_level("PathOfBuilding-dev"), None);
}

#[test]
fn traversal_paths_are_rejected() {
    assert!(contained("src/Launch.lua"));
    assert!(!contained("../evil"));
    assert!(!contained("src/../../evil"));
    assert!(!contained("/absolute/evil"));
}

#[test]
fn refs_are_url_safe_but_keep_slashes() {
    assert_eq!(percent_safe("dev"), "dev");
    assert_eq!(percent_safe("refs/heads/dev"), "refs/heads/dev");
    assert_eq!(percent_safe("a b?c"), "a%20b%3Fc");
}

#[test]
fn literal_escapes_in_refs_stay_escaped() {
    assert_eq!(percent_safe("a%2Fb"), "a%252Fb");
}

#[test]
fn entries_go_below_the_target_or_nowhere() {
    assert_eq!(entry_target("repo-dev/"), Ok(None));
    assert_eq!(entry_target(""), Ok(None));
    assert_eq!(
        entry_target("repo-dev//src/./x.lua"),
        Ok(Some("src/x.lua".to_owned()))
    );
    assert_eq!(
        entry_target("repo-dev/../x"),
        Err("archive entry escapes the target directory: repo-dev/../x".to_owned())
    );
    // An absolute path loses its root as the top-level part.
    assert_eq!(entry_target("/etc/x"), Ok(Some("etc/x".to_owned())));
    assert_eq!(entry_target("./a/b"), Ok(Some("a/b".to_owned())));
    assert!(!contained("./a"));
    assert!(contained("a/./b"));
    assert!(contained("...")); // a plain name
}

#[test]
fn existing_checkouts_are_protected() {
    assert_eq!(plan_fetch("t", false, false), Ok(false));
    assert_eq!(plan_fetch("t", true, true), Ok(true));
    assert_eq!(
        plan_fetch("vendor/pob/poe1", true, false),
        Err("vendor/pob/poe1 already exists — pass --force to replace it".to_owned())
    );
}

#[test]
fn snapshots_tell_where_they_came_from() {
    assert_eq!(
        archive_url(Game::Poe2, "v1/x y"),
        "https://codeload.github.com/PathOfBuildingCommunity/PathOfBuilding-PoE2/tar.gz/v1/x%20y"
    );
    assert_eq!(
        provenance(Game::Poe1, "dev", "now"),
        r#"{"fetched_at":"now","ref":"dev","repo":"PathOfBuildingCommunity/PathOfBuilding"}"#
    );
}
