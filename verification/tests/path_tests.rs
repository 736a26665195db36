use rustposix::path::{convpath, normpath, paths_equal, Component, PathBuf};

fn names(p: &PathBuf) -> Vec<String> {
    p.components
        .iter()
        .map(|c| match c {
            Component::RootDir => "/".to_string(),
            Component::CurDir => ".".to_string(),
            Component::ParentDir => "..".to_string(),
            Component::Normal(n) => format!("N:{}", n),
        })
        .collect()
}

#[test]
fn convpath_absolute() {
    let p = convpath("/a/b/../c");
    assert_eq!(names(&p), vec!["/", "N:a", "N:b", "..", "N:c"]);
}

#[test]
fn convpath_skips_empty_and_dot_pieces() {
    assert_eq!(names(&convpath("a//b/./c/")), vec!["N:a", "N:b", "N:c"]);
    assert_eq!(names(&convpath("//x")), vec!["/", "N:x"]);
    assert_eq!(names(&convpath("/")), vec!["/"]);
    assert!(convpath("").components.is_empty());
}

#[test]
fn convpath_leading_current_dir() {
    assert_eq!(names(&convpath("./x")), vec![".", "N:x"]);
    assert_eq!(names(&convpath(".")), vec!["."]);
    assert_eq!(names(&convpath(".x")), vec!["N:.x"]);
    assert_eq!(names(&convpath("..")), vec![".."]);
    assert_eq!(names(&convpath("x/.")), vec!["N:x"]);
}

#[test]
fn convpath_matches_std_components() {
    for s in ["/a/b", "a/./b/", "./a/../b", "..", ".", "", "/./x", "a//b", "x/.y/..z"] {
        let ours = names(&convpath(s));
        let std_names: Vec<String> = std::path::Path::new(s)
            .components()
            .map(|c| match c {
                std::path::Component::RootDir => "/".to_string(),
                std::path::Component::CurDir => ".".to_string(),
                std::path::Component::ParentDir => "..".to_string(),
                std::path::Component::Normal(n) => format!("N:{}", n.to_str().unwrap()),
                std::path::Component::Prefix(_) => "prefix".to_string(),
            })
            .collect();
        assert_eq!(ours, std_names, "path {:?}", s);
    }
}

#[test]
fn normpath_relative_against_cwd() {
    let cwd = convpath("/home/user");
    let p = normpath(convpath("a/../b/./c"), &cwd);
    assert_eq!(names(&p), vec!["/", "N:home", "N:user", "N:b", "N:c"]);
}

#[test]
fn normpath_absolute_ignores_cwd_and_stops_at_root() {
    let cwd = convpath("/home");
    let p = normpath(convpath("/../../x/y/.."), &cwd);
    assert_eq!(names(&p), vec!["/", "N:x"]);
}

#[test]
fn normpath_twice_is_normpath_once() {
    let cwd = convpath("/w");
    let once = normpath(convpath("../a/./b/../c"), &cwd);
    let again = normpath(once.copy_path(), &convpath("/elsewhere"));
    assert!(paths_equal(&once, &again));
    assert_eq!(names(&once), vec!["/", "N:a", "N:c"]);
}

#[test]
fn paths_compare_by_components() {
    assert!(paths_equal(&convpath("/a/b/"), &convpath("/a//b")));
    assert!(!paths_equal(&convpath("/a/b"), &convpath("/a/c")));
    assert!(!paths_equal(&convpath("/a"), &convpath("a")));
}

#[test]
fn pop_and_file_name() {
    let mut p = convpath("/a/b");
    assert_eq!(p.file_name().map(|s| s.as_str()), Some("b"));
    assert!(p.pop());
    assert!(p.pop());
    assert!(!p.pop());
    assert_eq!(names(&p), vec!["/"]);
    assert_eq!(convpath("/a/..").file_name(), None);
    assert!(convpath("a").is_relative());
    assert!(!convpath("/a").is_relative());
}
