use bengal::error::BengalError;
use bengal::package::{check_module_visit, choose_module_file, root_search_step, ModulePath, RootSearchStep};

#[test]
fn to_file_path_root() {
    let path = ModulePath::root();
    assert_eq!(
        std::path::PathBuf::from(path.to_file_path("bengalmod")),
        std::path::PathBuf::from("root.bengalmod")
    );
}

#[test]
fn to_file_path_single() {
    let path = ModulePath(vec!["math".to_string()]);
    assert_eq!(
        std::path::PathBuf::from(path.to_file_path("bengalmod")),
        std::path::PathBuf::from("math.bengalmod")
    );
}

#[test]
fn to_file_path_nested() {
    let path = ModulePath(vec!["utils".to_string(), "string".to_string()]);
    assert_eq!(
        std::path::PathBuf::from(path.to_file_path("bengalmod")),
        std::path::PathBuf::from("utils/string.bengalmod")
    );
}

#[test]
fn module_path_child_and_parent() {
    let root = ModulePath::root();
    assert!(root.is_root());
    assert_eq!(root.parent(), None);
    let a = root.child("a");
    let ab = a.child("b");
    assert_eq!(ab, ModulePath(vec!["a".to_string(), "b".to_string()]));
    assert!(!ab.is_root());
    assert_eq!(ab.parent(), Some(a.clone()));
    assert_eq!(a.parent(), Some(ModulePath::root()));
}

#[test]
fn module_path_display() {
    assert_eq!(ModulePath::root().to_string(), "<root>");
    assert_eq!(ModulePath(vec!["math".to_string()]).to_string(), "math");
    assert_eq!(
        ModulePath(vec!["a".to_string(), "b".to_string(), "c".to_string()]).to_string(),
        "a::b::c"
    );
}

#[test]
fn to_file_path_deep_text() {
    let path = ModulePath(vec!["a".to_string(), "b".to_string(), "c".to_string()]);
    assert_eq!(path.to_file_path("bengal"), "a/b/c.bengal");
}

fn package_message(r: Result<(), BengalError>) -> String {
    match r {
        Err(BengalError::PackageError { message }) => message,
        other => panic!("expected a package error, got {:?}", other),
    }
}

#[test]
fn module_visit_of_file_on_stack_is_circular() {
    let visiting = vec!["/p/a.bengal".to_string(), "/p/b.bengal".to_string()];
    let finished: Vec<String> = vec![];
    let msg = package_message(check_module_visit(&visiting, &finished, "/p/a.bengal", "a.bengal"));
    assert_eq!(
        msg,
        "circular module dependency detected: /p/a.bengal -> /p/b.bengal -> /p/a.bengal"
    );
    assert!(msg.contains("circular"));
}

#[test]
fn module_visit_of_finished_file_is_claimed_twice() {
    let visiting = vec!["/p/main.bengal".to_string()];
    let finished = vec!["/p/util.bengal".to_string()];
    let msg = package_message(check_module_visit(&visiting, &finished, "/p/util.bengal", "./util.bengal"));
    assert_eq!(msg, "file './util.bengal' is claimed by multiple modules");
}

#[test]
fn module_visit_of_new_file_is_allowed() {
    let visiting = vec!["/p/main.bengal".to_string()];
    let finished = vec!["/p/util.bengal".to_string()];
    assert!(check_module_visit(&visiting, &finished, "/p/other.bengal", "other.bengal").is_ok());
    assert!(check_module_visit(&vec![], &vec![], "/p/main.bengal", "main.bengal").is_ok());
}

#[test]
fn module_visit_prefers_circular_over_claimed() {
    let visiting = vec!["/p/a.bengal".to_string()];
    let finished = vec!["/p/a.bengal".to_string()];
    let msg = package_message(check_module_visit(&visiting, &finished, "/p/a.bengal", "a.bengal"));
    assert_eq!(msg, "circular module dependency detected: /p/a.bengal -> /p/a.bengal");
}

#[test]
fn module_file_prefers_flat_file() {
    assert_eq!(choose_module_file("math", true, true).unwrap(), "math.bengal");
    assert_eq!(choose_module_file("math", true, false).unwrap(), "math.bengal");
}

#[test]
fn module_file_falls_back_to_directory_module() {
    assert_eq!(choose_module_file("graphics", false, true).unwrap(), "graphics/module.bengal");
}

#[test]
fn module_file_missing_is_not_found() {
    match choose_module_file("nonexistent", false, false) {
        Err(BengalError::PackageError { message }) => {
            assert_eq!(
                message,
                "module 'nonexistent' not found: expected 'nonexistent.bengal' or 'nonexistent/module.bengal'"
            );
            assert!(message.contains("not found"));
        }
        other => panic!("expected a package error, got {:?}", other),
    }
}

#[test]
fn root_search_steps() {
    assert_eq!(root_search_step(true, true), RootSearchStep::Found);
    assert_eq!(root_search_step(true, false), RootSearchStep::Found);
    assert_eq!(root_search_step(false, true), RootSearchStep::Parent);
    assert_eq!(root_search_step(false, false), RootSearchStep::NotFound);
}

fn pathbuf_file(parts: &[&str], ext: &str) -> String {
    let mut path = std::path::PathBuf::new();
    for (i, segment) in parts.iter().enumerate() {
        if i == parts.len() - 1 {
            path.push(format!("{}.{}", segment, ext));
        } else {
            path.push(segment);
        }
    }
    path.to_str().unwrap().to_string()
}

#[test]
fn to_file_path_follows_pathbuf_push() {
    for parts in [
        vec!["a", "b", "c"],
        vec!["a", "/abs", "c"],
        vec!["", "x"],
        vec!["a", ""],
        vec!["a/", "b"],
        vec!["/root", "b"],
    ] {
        let path = ModulePath(parts.iter().map(|s| s.to_string()).collect());
        assert_eq!(path.to_file_path("bengalmod"), pathbuf_file(&parts, "bengalmod"), "{:?}", parts);
    }
}
