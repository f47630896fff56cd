use wux::commands::docker::{dockerrun_args, dockersafe_args, to_docker_path};

#[test]
fn docker_paths() {
    assert_eq!(to_docker_path("C:\\Users\\foo\\bar", true), "/c/Users/foo/bar");
    assert_eq!(to_docker_path("d:/work", true), "/d/work");
    assert_eq!(to_docker_path("/home/me", true), "/home/me");
    assert_eq!(to_docker_path("C:\\Users\\foo", false), "C:/Users/foo");
    assert_eq!(to_docker_path("\\\\server\\share", true), "//server/share");
    assert_eq!(to_docker_path("\\\\server\\share", false), "//server/share");
    assert_eq!(to_docker_path("/home/me", false), "/home/me");
    // a two-byte drive letter: the rest starts at its second byte
    assert_eq!(to_docker_path("\u{C9}:\\x", true), "/\u{E9}:/x");
}

#[test]
fn sandbox_arguments() {
    assert_eq!(
        dockersafe_args("/c/work"),
        vec![
            "run", "-it", "--rm", "--network", "none", "--cap-drop", "ALL", "--security-opt",
            "no-new-privileges", "-v", "/c/work:/workspace:ro", "ubuntu:24.04", "bash"
        ]
    );
    assert_eq!(
        dockerrun_args("/c/work"),
        vec![
            "run", "-it", "--rm", "--cap-drop", "ALL", "--security-opt", "no-new-privileges", "-v",
            "/c/work:/workspace:rw", "wux-sandbox", "bash"
        ]
    );
}
