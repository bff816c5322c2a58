use usage_dashboard::paths::extract_project_name;

#[test]
fn project_name_after_marker() {
    assert_eq!(extract_project_name("/home/me/Github/widget-app/src/main"), "widget-app");
    assert_eq!(extract_project_name("/Users/a/code/tool"), "tool");
}

#[test]
fn project_name_skips_boring_tail() {
    assert_eq!(extract_project_name("/tmp/scripts"), "tmp");
    assert_eq!(extract_project_name("/srv/app/target/build"), "app");
}

#[test]
fn project_name_fallbacks() {
    assert_eq!(extract_project_name(""), "Unknown");
    assert_eq!(extract_project_name("///"), "Unknown");
    assert_eq!(extract_project_name("/src/bin"), "bin");
    assert_eq!(extract_project_name("/a/projects"), "projects");
    assert_eq!(extract_project_name("Unknown Project"), "Unknown Project");
}
