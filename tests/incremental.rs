use anansi::incremental::{
    args_path, cache_dir, needs_regeneration, search_root, view_path, walk_step, Build, Level, Step,
    Verdict,
};

#[test]
fn fresh_artifact_is_left_alone() {
    assert!(!needs_regeneration(false, 10, 20, Some(30)));
}

#[test]
fn missing_artifact_is_stale() {
    assert!(needs_regeneration(false, 10, 20, None));
}

#[test]
fn touched_template_is_regenerated_once() {
    // The template is touched after its artifact was written.
    assert!(needs_regeneration(false, 10, 40, Some(30)));
    // Regenerated at time 50, it is fresh on the next build.
    assert!(!needs_regeneration(false, 10, 40, Some(50)));
}

#[test]
fn equal_times_are_fresh() {
    assert!(!needs_regeneration(false, 30, 30, Some(30)));
}

#[test]
fn force_always_regenerates() {
    assert!(needs_regeneration(true, 10, 20, Some(30)));
}

#[test]
fn newer_compiler_invalidates_artifacts() {
    assert!(needs_regeneration(false, 40, 20, Some(30)));
}

#[test]
fn newer_compiler_forces_the_rest_of_the_build() {
    let mut build = Build::new(false);
    assert_eq!(build.check_template(true, 10, 20, Some(30)), Verdict::Fresh);
    assert!(!build.force);
    assert_eq!(build.check_template(true, 40, 20, Some(30)), Verdict::Regenerate);
    assert!(build.force);
    assert_eq!(build.check_template(true, 10, 20, Some(30)), Verdict::Regenerate);
}

#[test]
fn touched_template_does_not_force_the_build() {
    let mut build = Build::new(false);
    assert_eq!(build.check_template(true, 10, 40, Some(30)), Verdict::Regenerate);
    assert!(!build.force);
    assert_eq!(build.check_template(true, 10, 20, Some(30)), Verdict::Fresh);
}

#[test]
fn missing_cache_directory_skips_the_template() {
    let mut build = Build::new(true);
    assert_eq!(build.check_template(false, 40, 20, Some(30)), Verdict::NoCache);
    assert!(build.force);
}

#[test]
fn walk_finds_templates_roots() {
    assert_eq!(walk_step(Level::Project, "templates", true), Step::EnterRoot);
    assert_eq!(walk_step(Level::Project, "views", true), Step::Search);
    assert_eq!(walk_step(Level::Project, "main.rs", false), Step::Ignore);
}

#[test]
fn walk_in_a_root() {
    assert_eq!(walk_step(Level::Root, "index.rs.html", false), Step::Template);
    assert_eq!(walk_step(Level::Root, "admin", true), Step::EnterNested);
    assert_eq!(walk_step(Level::Root, ".parsed", true), Step::Ignore);
    assert_eq!(walk_step(Level::Root, "notes.txt", false), Step::Ignore);
}

#[test]
fn walk_stops_one_level_below_a_root() {
    assert_eq!(walk_step(Level::Nested, "edit.rs.html", false), Step::Template);
    assert_eq!(walk_step(Level::Nested, "deeper", true), Step::Ignore);
}

#[test]
fn artifact_paths() {
    assert_eq!(cache_dir("/p/templates"), "/p/templates/.parsed");
    assert_eq!(view_path("/p/templates", "index.rs.html"), "/p/templates/.parsed/index.in");
    assert_eq!(args_path("/p/templates", "base.rs.html"), "/p/templates/.parsed/base_args.in");
}

#[test]
fn search_root_cuts_after_the_last_src() {
    assert_eq!(search_root("/home/u/proj/src/app"), "/home/u/proj/src");
    assert_eq!(search_root("/a/src/b/src/c"), "/a/src/b/src");
    assert_eq!(search_root("/home/x"), "/home/x");
    assert_eq!(search_root("/src"), "/src");
    assert_eq!(search_root("ab"), "ab");
}
