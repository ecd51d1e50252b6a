use lib::{
    build_absolute_path, build_relative_path, build_rooted_absolute_path, build_tmp_path_of,
    get_basename, get_parent, normalize_path, normalize_root, validate_path, EntryMode,
};

#[test]
fn test_normalize_path() {
    let cases = vec![
        ("file path", "abc", "abc"),
        ("dir path", "abc/", "abc/"),
        ("empty path", "", "/"),
        ("root path", "/", "/"),
        ("root path with extra /", "///", "/"),
        ("abs file path", "/abc/def", "abc/def"),
        ("abs dir path", "/abc/def/", "abc/def/"),
        ("abs file path with extra /", "///abc/def", "abc/def"),
        ("abs dir path with extra /", "///abc/def/", "abc/def/"),
        ("file path contains ///", "abc///def", "abc/def"),
        ("dir path contains ///", "abc///def///", "abc/def/"),
        ("file with trailing whitespace", "abc/def   ", "abc/def   "),
        ("file with leading whitespace", "  abc/def", "  abc/def"),
        ("whitespace preserved", " a/b ", " a/b "),
        ("dot segment removed", "./a/./b", "a/b"),
        ("dot dir becomes root", "./", "/"),
        ("only dot", ".", "/"),
        ("dot in middle", "a/./b/./c", "a/b/c"),
        ("dot with trailing slash", "a/./b/", "a/b/"),
    ];

    for (name, input, expect) in cases {
        assert_eq!(normalize_path(input), expect, "{name}")
    }
}

#[test]
fn test_normalize_root() {
    let cases = vec![
        ("dir path", "abc/", "/abc/"),
        ("empty path", "", "/"),
        ("root path", "/", "/"),
        ("root path with extra /", "///", "/"),
        ("abs dir path", "/abc/def/", "/abc/def/"),
        ("abs file path with extra /", "///abc/def", "/abc/def/"),
        ("abs dir path with extra /", "///abc/def/", "/abc/def/"),
        ("dir path contains ///", "abc///def///", "/abc/def/"),
        ("dot segment removed", "./data/./root/", "/data/root/"),
        ("only dot", ".", "/"),
        ("dot with path", "./abc", "/abc/"),
    ];

    for (name, input, expect) in cases {
        assert_eq!(normalize_root(input), expect, "{name}")
    }
}

#[test]
fn test_get_basename() {
    let cases = vec![
        ("file abs path", "foo/bar/baz.txt", "baz.txt"),
        ("file rel path", "bar/baz.txt", "baz.txt"),
        ("file walk", "foo/bar/baz", "baz"),
        ("dir rel path", "bar/baz/", "baz/"),
        ("dir root", "/", "/"),
        ("dir walk", "foo/bar/baz/", "baz/"),
    ];

    for (name, input, expect) in cases {
        let actual = get_basename(input);
        assert_eq!(actual, expect, "{name}")
    }
}

#[test]
fn test_get_parent() {
    let cases = vec![
        ("file abs path", "foo/bar/baz.txt", "foo/bar/"),
        ("file rel path", "bar/baz.txt", "bar/"),
        ("file walk", "foo/bar/baz", "foo/bar/"),
        ("dir rel path", "bar/baz/", "bar/"),
        ("dir root", "/", "/"),
        ("dir abs path", "/foo/bar/", "/foo/"),
        ("dir walk", "foo/bar/baz/", "foo/bar/"),
    ];

    for (name, input, expect) in cases {
        let actual = get_parent(input);
        assert_eq!(actual, expect, "{name}")
    }
}

#[test]
fn test_build_absolute_path() {
    let cases = vec![
        ("input abs file", "/abc/", "/", "abc/"),
        ("input dir", "/abc/", "def/", "abc/def/"),
        ("input file", "/abc/", "def", "abc/def"),
        ("input abs file with root /", "/", "/", ""),
        ("input empty with root /", "/", "", ""),
        ("input dir with root /", "/", "def/", "def/"),
        ("input file with root /", "/", "def", "def"),
    ];

    for (name, root, input, expect) in cases {
        let actual = build_absolute_path(root, input);
        assert_eq!(actual, expect, "{name}")
    }
}

#[test]
fn test_build_rooted_absolute_path() {
    let cases = vec![
        ("input abs file", "/abc/", "/", "/abc/"),
        ("input dir", "/abc/", "def/", "/abc/def/"),
        ("input file", "/abc/", "def", "/abc/def"),
        ("input abs file with root /", "/", "/", "/"),
        ("input dir with root /", "/", "def/", "/def/"),
        ("input file with root /", "/", "def", "/def"),
    ];

    for (name, root, input, expect) in cases {
        let actual = build_rooted_absolute_path(root, input);
        assert_eq!(actual, expect, "{name}")
    }
}

#[test]
fn test_build_relative_path() {
    let cases = vec![
        ("input abs file", "/abc/", "/abc/def", "def"),
        ("input dir", "/abc/", "/abc/def/", "def/"),
        ("input file", "/abc/", "abc/def", "def"),
        ("input dir with root /", "/", "def/", "def/"),
        ("input file with root /", "/", "def", "def"),
    ];

    for (name, root, input, expect) in cases {
        let actual = build_relative_path(root, input);
        assert_eq!(actual, expect, "{name}")
    }
}

#[test]
fn test_validate_path() {
    let cases = vec![
        ("input file with mode file", "abc", EntryMode::FILE, true),
        ("input file with mode dir", "abc", EntryMode::DIR, false),
        ("input dir with mode file", "abc/", EntryMode::FILE, false),
        ("input dir with mode dir", "abc/", EntryMode::DIR, true),
        ("root with mode dir", "/", EntryMode::DIR, true),
        (
            "input file with mode unknown",
            "abc",
            EntryMode::Unknown,
            false,
        ),
        (
            "input dir with mode unknown",
            "abc/",
            EntryMode::Unknown,
            false,
        ),
    ];

    for (name, path, mode, expect) in cases {
        let actual = validate_path(path, mode);
        assert_eq!(actual, expect, "{name}")
    }
}

#[test]
fn test_build_tmp_path_of() {
    let cases = vec![
        ("a file path", "example.txt", "example.txt."),
        (
            "a file path in a directory",
            "folder/example.txt",
            "example.txt.",
        ),
    ];

    for (name, path, expect_starts_with) in cases {
        let actual = build_tmp_path_of(path);
        assert!(
            actual.starts_with(expect_starts_with),
            "{name}: got `{actual}`, but expect `{expect_starts_with}`"
        );
        assert_eq!(
            actual.len(),
            expect_starts_with.len() + 8,
            "{name}: got `{actual}`, but expect `{expect_starts_with}`"
        )
    }
}
