use pipsqueak::project::{folder_name, git_root, is_scratch, resolve, same_place, worktree_owner, Marker};

#[test]
fn a_plain_directory_is_its_own_project() {
    let project = resolve("C:\\Users\\me\\Desktop\\prokitchens-project", None, None);
    assert_eq!(project.name, "prokitchens-project");
    assert!(project.workspace.is_empty());
    assert!(!project.scratch);
}

#[test]
fn temp_rooted_sessions_are_marked_scratch() {
    assert!(is_scratch(
        "C:\\Users\\me\\AppData\\Local\\Temp\\harness-ablation\\runs\\design-quality__r3"
    ));
    assert!(is_scratch("/tmp/scratch/run-4"));
    assert!(!is_scratch("C:\\Users\\me\\Documents\\real-project"));
}

#[test]
fn a_worktree_resolves_to_the_repository_that_owns_it() {
    let tree = "/home/me/pipsqueak-wt/feature-x".to_string();
    let pointer = "gitdir: /home/me/pipsqueak-wt/my-repo/.git/worktrees/feature-x\n".to_string();
    let found = git_root(&vec![
        (tree, Marker::File(pointer)),
        ("/home/me/pipsqueak-wt".to_string(), Marker::Missing),
    ])
    .expect("worktree should resolve");
    assert_eq!(found, "/home/me/pipsqueak-wt/my-repo");
}

#[test]
fn a_repository_is_found_above_the_folder() {
    let dirs = vec![
        ("/r/src/deep".to_string(), Marker::Missing),
        ("/r/src".to_string(), Marker::Missing),
        ("/r".to_string(), Marker::Directory),
        ("/".to_string(), Marker::Directory),
    ];
    assert_eq!(git_root(&dirs).as_deref(), Some("/r"));
    assert_eq!(git_root(&vec![("/x".to_string(), Marker::Missing)]), None);
}

#[test]
fn a_session_below_the_root_names_its_workspace() {
    let project = resolve("/r/site/tools", Some("/r/site".to_string()), None);
    assert_eq!(project.name, "site");
    assert_eq!(project.root, "/r/site");
    assert_eq!(project.workspace, "tools");
}

#[test]
fn a_pointer_that_names_no_repository_is_none() {
    assert_eq!(worktree_owner("nothing here"), None);
    assert_eq!(
        worktree_owner("gitdir: /r/.git/worktrees/x").as_deref(),
        Some("/r")
    );
    assert!(same_place("/a/b/", "/a/b"));
    assert!(!same_place("/a/b", "/a/c"));
}

#[test]
fn a_path_that_begins_with_a_dot_is_another_place() {
    assert!(!same_place("./a", "a"));
    assert!(same_place("./a/.", "./a/"));
    assert!(same_place("/a/./b", "/a/b"));
    let project = resolve("./a", Some("a".to_string()), None);
    assert_eq!(project.workspace, "a");
    let dot = std::path::Path::new("./a");
    assert_eq!(dot == std::path::Path::new("a"), same_place("./a", "a"));
}

#[test]
fn the_start_of_a_path_is_no_name() {
    assert_eq!(folder_name("C:\\"), "C:\\");
    assert_eq!(folder_name("C:"), "C:");
    assert_eq!(folder_name("C:\\x\\"), "x");
    assert_eq!(folder_name("\\\\server\\share\\"), "\\\\server\\share\\");
    assert_eq!(folder_name("\\\\server\\share\\x"), "x");
    assert_eq!(folder_name("\\\\server"), "server");
    assert_eq!(folder_name("/"), "/");
    assert_eq!(folder_name("/a/.."), "/a/..");
    assert_eq!(folder_name("/a/./"), "a");
    assert!(same_place("c:\\x", "C:/x"));
    assert!(!same_place("C:x", "C:\\x"));
    assert!(same_place("\\\\server\\share", "\\\\server\\share\\"));
}
