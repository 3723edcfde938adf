//! Tests of the lexical path cleaner.

use httprouter::clean;

// path, result
fn clean_tests() -> Vec<(&'static str, &'static str)> {
    vec![
        // Already clean
        ("/", "/"),
        ("/abc", "/abc"),
        ("/a/b/c", "/a/b/c"),
        ("/abc/", "/abc/"),
        ("/a/b/c/", "/a/b/c/"),
        // missing root
        ("", "/"),
        ("a/", "/a/"),
        ("abc", "/abc"),
        ("abc/def", "/abc/def"),
        ("a/b/c", "/a/b/c"),
        // Remove doubled slash
        ("//", "/"),
        ("/abc//", "/abc/"),
        ("/abc/def//", "/abc/def/"),
        ("/a/b/c//", "/a/b/c/"),
        ("/abc//def//ghi", "/abc/def/ghi"),
        ("//abc", "/abc"),
        ("///abc", "/abc"),
        ("//abc//", "/abc/"),
        // Remove . elements
        (".", "/"),
        ("./", "/"),
        ("/abc/./def", "/abc/def"),
        ("/./abc/def", "/abc/def"),
        ("/abc/.", "/abc/"),
        // Remove .. elements
        ("..", "/"),
        ("../", "/"),
        ("../../", "/"),
        ("../..", "/"),
        ("../../abc", "/abc"),
        ("/abc/def/ghi/../jkl", "/abc/def/jkl"),
        ("/abc/def/../ghi/../jkl", "/abc/jkl"),
        ("/abc/def/..", "/abc"),
        ("/abc/def/../..", "/"),
        ("/abc/def/../../..", "/"),
        ("/abc/def/../../..", "/"),
        ("/abc/def/../../../ghi/jkl/../../../mno", "/mno"),
        // Combinations
        ("abc/./../def", "/def"),
        ("abc//./../def", "/def"),
        ("abc/../../././../def", "/def"),
    ]
}

#[test]
fn test_path_clean() {
    let tests = clean_tests();
    for test in tests {
        let s = clean(test.0);
        assert_eq!(test.1, s);

        let s = clean(test.1);
        assert_eq!(test.1, s);
    }
}

#[test]
fn test_path_clean_long() {
    let mut test_paths: Vec<(String, String)> = Vec::new();
    for i in 1..1234 {
        let ss = "a".repeat(i);

        let correct_path = format!("{}{}", "/", ss);
        test_paths.push((correct_path.clone(), correct_path.clone()));
        test_paths.push((ss.clone(), correct_path.clone()));
        test_paths.push((format!("{}{}", "//", ss), correct_path.clone()));
        test_paths.push((format!("{}{}{}", "//", ss, "/b/.."), correct_path.clone()));
    }

    for test in test_paths {
        let s = clean(&test.0);
        assert_eq!(test.1, s);

        let s = clean(&test.1);
        assert_eq!(test.1, s);
    }
}

#[test]
fn test_clean_scenarios() {
    assert_eq!(clean("/abc/def/../ghi/../jkl"), "/abc/jkl");
    assert_eq!(clean(""), "/");
    assert_eq!(clean("."), "/");
    assert_eq!(clean("//abc//"), "/abc/");
}

#[test]
fn test_clean_idempotent_samples() {
    let inputs = [
        "",
        ".",
        "..",
        "a/",
        "/a/../../b",
        "/abc//def//ghi",
        "/FOO/../bar.baz/",
        "/..//../a/./b/..",
        "no/root/here/..",
    ];
    for p in inputs {
        let once = clean(p);
        let twice = clean(&once);
        assert_eq!(once, twice);
    }
}

#[test]
fn test_clean_rooted_and_no_escape() {
    let inputs = ["", "x", "../../..", "a/../../../b", "/./..", "////", "..a/b"];
    for p in inputs {
        let c = clean(p);
        assert!(c.starts_with('/'));
        assert!(!c.is_empty());
        for seg in c.split('/') {
            assert_ne!(seg, "..");
        }
    }
}

#[test]
fn test_clean_keeps_verbatim_dot_segments() {
    // Segments that merely begin with dots are ordinary segments.
    assert_eq!(clean("/.a/b"), "/.a/b");
    assert_eq!(clean("/..a/b"), "/..a/b");
    assert_eq!(clean("/a./b."), "/a./b.");
}
