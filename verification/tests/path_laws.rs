use lib::{
    build_abs_path, build_absolute_path, build_rel_path, build_relative_path,
    build_rooted_abs_path, build_rooted_absolute_path, build_tmp_path_from_seeds,
    build_tmp_path_of, get_basename, get_parent, normalize_path, normalize_root, postfix_char_of,
    validate_path, EntryMode, RANDOM_TMP_PATH_POSTFIX_LENGTH,
};

const SAMPLES: [&str; 14] = [
    "", "/", "///", ".", "./", "abc", "abc/", "/abc/def", "a/./b/", "./a//b/./",
    " a/b ", "dir/é/ü", "x/./../y/", "a/.b/..c",
];

#[test]
fn normalize_path_is_idempotent() {
    for s in SAMPLES {
        let once = normalize_path(s);
        assert_eq!(normalize_path(&once), once, "{s}");
    }
}

#[test]
fn normalize_root_is_idempotent() {
    for s in SAMPLES {
        let once = normalize_root(s);
        assert_eq!(normalize_root(&once), once, "{s}");
        assert!(once.starts_with('/') && once.ends_with('/'), "{s}");
    }
}

#[test]
fn normalized_path_is_root_or_relative() {
    for s in SAMPLES {
        let p = normalize_path(s);
        assert!(p == "/" || !p.starts_with('/'), "{s}");
    }
}

#[test]
fn normalize_root_of_normalized_path_is_normalize_root() {
    for s in SAMPLES {
        assert_eq!(normalize_root(&normalize_path(s)), normalize_root(s), "{s}");
    }
}

#[test]
fn normalize_keeps_dot_dot_and_hidden_names() {
    assert_eq!(normalize_path("x/./../y/"), "x/../y/");
    assert_eq!(normalize_path("a/.b/..c"), "a/.b/..c");
    assert_eq!(normalize_path("dir/é/ü"), "dir/é/ü");
    assert_eq!(normalize_root("a/."), "/a/");
    assert_eq!(normalize_path("/./"), "/");
}

#[test]
fn parent_then_basename_gives_the_path() {
    for s in ["foo/bar/baz.txt", "bar/baz/", "/foo/bar/", "/abc", "abc", "abc/", "", "//", "é/ü/"] {
        let parent = get_parent(s);
        let base = get_basename(s);
        let joined = format!("{parent}{base}");
        assert!(joined == s || (parent == "/" && base == s), "{s}");
        assert!(parent.ends_with('/'), "{s}");
        assert!(validate_path(parent, EntryMode::DIR), "{s}");
    }
}

#[test]
fn basename_and_parent_edge_cases() {
    assert_eq!(get_basename("abc"), "abc");
    assert_eq!(get_parent("abc"), "/");
    assert_eq!(get_basename("abc/"), "abc/");
    assert_eq!(get_parent("abc/"), "/");
    assert_eq!(get_basename("/abc"), "abc");
    assert_eq!(get_parent("/abc"), "/");
    assert_eq!(get_basename(""), "");
    assert_eq!(get_parent(""), "/");
}

#[test]
fn relative_undoes_rooted_absolute() {
    for root in ["/", "/abc/", "/abc/def/"] {
        for path in ["def", "def/", "a/b/c", "é"] {
            let rooted = build_rooted_absolute_path(root, path);
            assert_eq!(build_relative_path(root, &rooted), path, "{root} {path}");
        }
    }
}

#[test]
fn relative_undoes_absolute() {
    for root in ["/", "/abc/", "/abc/def/"] {
        for path in ["def", "def/", "a/b/c", "é"] {
            let abs = build_absolute_path(root, path);
            assert_eq!(build_relative_path(root, &abs), path, "{root} {path}");
        }
    }
}

#[test]
fn rooted_is_slash_then_absolute() {
    for root in ["/", "/abc/"] {
        for path in ["/", "", "def", "def/"] {
            let rooted = build_rooted_absolute_path(root, path);
            let abs = build_absolute_path(root, path);
            assert_eq!(rooted, format!("/{abs}"), "{root} {path}");
        }
    }
}

#[test]
fn deprecated_names_agree() {
    assert_eq!(build_abs_path("/abc/", "def"), build_absolute_path("/abc/", "def"));
    assert_eq!(build_rooted_abs_path("/abc/", "def"), build_rooted_absolute_path("/abc/", "def"));
    assert_eq!(build_rel_path("/abc/", "/abc/def"), build_relative_path("/abc/", "/abc/def"));
}

#[test]
fn file_or_dir_never_both() {
    for s in ["a", "a/", "/", "a/b", " "] {
        assert_ne!(validate_path(s, EntryMode::FILE), validate_path(s, EntryMode::DIR), "{s}");
        assert!(!validate_path(s, EntryMode::Unknown), "{s}");
    }
}

#[test]
fn tmp_path_from_seeds_is_exact() {
    let seeds = [0u64, 25, 26, 51, 52, 61, 62, u64::MAX];
    assert_eq!(build_tmp_path_from_seeds("dir/file.txt", &seeds), "file.txt.AZaz09AP");
    assert_eq!(build_tmp_path_from_seeds("file", &[]), "file.");
    assert_eq!(postfix_char_of(123), '9');
}

#[test]
fn tmp_path_has_alphanumeric_postfix() {
    let actual = build_tmp_path_of("a/b/name");
    assert!(actual.starts_with("name."));
    let postfix = &actual["name.".len()..];
    assert_eq!(postfix.chars().count(), RANDOM_TMP_PATH_POSTFIX_LENGTH);
    assert!(postfix.chars().all(|c| c.is_ascii_alphanumeric()));
}
