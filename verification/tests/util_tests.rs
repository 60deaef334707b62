use dirload::util;
use dirload::Error;

#[test]
fn test_get_dirpath() {
    let path_list = [
        ("/root", "/"),
        ("/root/", "/"),
        ("/root/../dev", "/"),
        ("/does/not/exist", "/does/not"),
        ("/does/not/./exist", "/does/not"),
        ("/does/not/../NOT/exist", "/does/NOT"),
    ];
    for x in &path_list {
        match util::get_dirpath(x.0) {
            Ok(v) => assert_eq!(v, x.1),
            Err(e) => panic!("{e:?} {x:?}"),
        }
    }
}

#[test]
fn test_get_basename() {
    let path_list = [
        ("/root", "root"),
        ("/root/", "root"),
        ("/root/../dev", "dev"),
        ("/does/not/exist", "exist"),
        ("/does/not/./exist", "exist"),
        ("/does/not/../NOT/exist", "exist"),
    ];
    for x in &path_list {
        match util::get_basename(x.0) {
            Ok(v) => assert_eq!(v, x.1),
            Err(e) => panic!("{e:?} {x:?}"),
        }
    }
}

#[test]
fn test_is_abspath() {
    let path_list = [
        ("/", true),
        ("/////", true),
        ("/..", true),
        ("/../", true),
        ("/root", true),
        ("/root/", true),
        ("/root/..", true),
        ("/root/../dev", true),
        ("/does/not/exist", true),
        ("/does/not/../NOT/exist", true),
        ("xxx", false),
        ("does/not/exist", false),
    ];
    for x in &path_list {
        assert_eq!(util::is_abspath(x.0), x.1, "{x:?}");
    }
}

#[test]
fn test_get_path_separator() {
    assert_eq!(util::get_path_separator(), '/');
}

#[test]
fn test_get_file_type_is_xxx() {
    assert!(util::FileType::Dir.is_dir());
    assert!(util::FileType::Reg.is_reg());
    assert!(util::FileType::Device.is_device());
    assert!(util::FileType::Symlink.is_symlink());
    assert!(util::FileType::Unsupported.is_unsupported());
}

#[test]
fn test_path_exists() {
    let dir_list = [".", "..", "/", "/dev"];
    for f in &dir_list {
        assert!(util::path_exists(f), "{f}");
    }
    let invalid_list = ["", "516e7cb4-6ecf-11d6-8ff8-00022d09712b"];
    for f in &invalid_list {
        assert!(!util::path_exists(f), "{f}");
    }
}

#[test]
fn test_is_dot_path() {
    let dot_list = [
        ".git",
        "..git",
        "/path/to/.",
        "/path/to/.git/xxx",
        "/path/to/.git/.xxx",
        "/path/to/..git/xxx",
        "/path/to/..git/.xxx",
    ];
    for (i, f) in dot_list.iter().enumerate() {
        assert!(util::is_dot_path(f), "{i} {f}");
    }

    let non_dot_list = [
        "/",
        "xxx",
        "xxx.",
        "xxx..",
        "/path/to/xxx",
        "/path/to/xxx.",
        "/path/to/x.xxx.",
        "/path/to/git./xxx",
        "/path/to/git./xxx.",
        "/path/to/git./x.xxx.",
    ];
    for (i, f) in non_dot_list.iter().enumerate() {
        assert!(!util::is_dot_path(f), "{i} {f}");
    }
}

#[test]
fn test_remove_dup_string() {
    let uniq_ll = [
        vec![String::new()],
        vec!["/path/to/xxx".to_string()],
        vec!["/path/to/xxx".to_string(), "/path/to/yyy".to_string()],
        vec!["xxx1".to_string(), "xxx2".to_string()],
        vec!["xxx1".to_string(), "xxx2".to_string(), "xxx3".to_string()],
        vec![
            "xxx1".to_string(),
            "xxx2".to_string(),
            "xxx3".to_string(),
            "xxx4".to_string(),
        ],
        vec![
            "xxx1".to_string(),
            "xxx2".to_string(),
            "xxx3".to_string(),
            String::new(),
        ],
        vec![
            "a".to_string(),
            "b".to_string(),
            "c".to_string(),
            "d".to_string(),
            "e".to_string(),
            "f".to_string(),
        ],
    ];
    for l in &uniq_ll {
        let x = util::remove_dup_string(l);
        for (i, a) in x.iter().enumerate() {
            for (j, b) in x.iter().enumerate() {
                assert!(!(i != j && a == b), "{l:?}: {i} {a} vs {j} {b}");
            }
        }
        assert_eq!(l.len(), x.len(), "{:?}: {} != {}", l, l.len(), x.len());
        for i in 0..x.len() {
            assert_eq!(x[i], l[i], "{:?}: {} {} != {}", l, i, x[i], l[i]);
        }
    }

    let dup_ll = [
        vec![String::new(), String::new()],
        vec![String::new(), String::new(), String::new()],
        vec!["/path/to/xxx".to_string(), "/path/to/xxx".to_string()],
        vec!["xxx1".to_string(), "xxx2".to_string(), "xxx1".to_string()],
        vec![
            "xxx1".to_string(),
            "xxx2".to_string(),
            "xxx1".to_string(),
            "xxx1".to_string(),
        ],
        vec![
            "xxx1".to_string(),
            "xxx1".to_string(),
            "xxx2".to_string(),
            "xxx1".to_string(),
        ],
        vec![
            "xxx1".to_string(),
            "xxx2".to_string(),
            "xxx1".to_string(),
            "xxx2".to_string(),
        ],
        vec![
            "a".to_string(),
            "b".to_string(),
            "c".to_string(),
            "d".to_string(),
            "e".to_string(),
            "f".to_string(),
            "a".to_string(),
            "b".to_string(),
            "c".to_string(),
            "d".to_string(),
            "e".to_string(),
            "f".to_string(),
        ],
    ];
    for l in &dup_ll {
        let x = util::remove_dup_string(l);
        for (i, a) in x.iter().enumerate() {
            for (j, b) in x.iter().enumerate() {
                assert!(!(i != j && a == b), "{l:?}: {i} {a} vs {j} {b}");
            }
        }
        assert!(l.len() > x.len(), "{:?}: {} <= {}", l, l.len(), x.len());
        let mut v = vec![];
        for s in &x {
            v.push(s.to_string());
        }
        let xx = util::remove_dup_string(&v);
        assert_eq!(x.len(), xx.len(), "{:?}: {} != {}", l, x.len(), xx.len());
        for i in 0..x.len() {
            assert_eq!(x[i], xx[i], "{:?}: {} {} != {}", l, i, x[i], xx[i]);
        }
    }
}

#[test]
fn test_get_dirpath_root_error() {
    for f in ["/", "/..", "/../.."] {
        match util::get_dirpath(f) {
            Ok(v) => panic!("{v}"),
            Err(e) => assert_eq!(e, Error::NotFound),
        }
    }
}

#[test]
fn test_get_basename_root_error() {
    for f in ["/", "/.."] {
        match util::get_basename(f) {
            Ok(v) => panic!("{v}"),
            Err(e) => assert_eq!(e, Error::NotFound),
        }
    }
}

#[test]
fn test_join_path() {
    assert_eq!(util::join_path("/a", "b"), "/a/b");
    assert_eq!(util::join_path("/a/", "b"), "/a/b");
    assert_eq!(util::join_path("/a", "/b"), "/b");
    assert_eq!(util::join_path("", "b"), "b");
}

#[test]
fn test_push_dec() {
    let mut s = String::new();
    util::push_dec(&mut s, 0);
    assert_eq!(s, "0");
    let mut s = String::new();
    util::push_dec(&mut s, 10);
    assert_eq!(s, "10");
    let mut s = String::new();
    util::push_dec(&mut s, 90217);
    assert_eq!(s, "90217");
}

#[test]
fn test_get_version_string() {
    assert_eq!(dirload::get_version_string(), "0.1.4");
}

#[test]
fn test_get_time_string_has_no_underscore() {
    let s = util::get_time_string();
    assert!(!s.is_empty());
    assert!(!s.contains('_'), "{s}");
    assert!(s.chars().all(|c| c.is_ascii_digit()), "{s}");
}

#[test]
fn test_sort_strings() {
    let mut l = vec![
        "/b".to_string(),
        "/a/c".to_string(),
        "/a".to_string(),
        "/a/b".to_string(),
    ];
    util::sort_strings(&mut l);
    assert_eq!(l, vec!["/a", "/a/b", "/a/c", "/b"]);
}

#[test]
fn test_timer_zero_duration_never_fires() {
    let mut t = util::Timer::new(0, 0);
    assert!(!t.elapsed());
    assert!(!t.elapsed());
    t.reset();
    assert!(!t.elapsed());
}

#[test]
fn test_timer_frequency_throttle() {
    // with a 1000-call frequency the clock is not even consulted early on
    let mut t = util::Timer::new(1, 1000);
    for _ in 0..999 {
        assert!(!t.elapsed());
    }
}
