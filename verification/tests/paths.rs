use std::path::Path;
use workmux::paths::FilePath;
use workmux::values::Value;

const SPELLINGS: [&str; 34] = [
    "",
    "/",
    "//",
    ".",
    "./",
    "..",
    "a",
    "a/",
    "a//",
    "a/.",
    "a/./",
    "./a",
    "././a",
    "/a",
    "//a",
    "/./a",
    "/a/",
    "/a/b",
    "/a//b",
    "/a/./b",
    "/a/b/.",
    "/a/b//",
    "/a/../b",
    "a/b",
    "a//b/c",
    "a/./b/./c",
    "./a//b",
    "/a/b/c",
    "/a/b//c/.",
    ".a/.",
    "/.",
    "/..",
    "a/...",
    "é/ü//ß",
];

fn text(path: &Path) -> String {
    path.to_str().unwrap().to_string()
}

#[test]
fn paths_keep_their_spelling() {
    for spelling in SPELLINGS {
        let path = FilePath::parse(spelling);
        assert_eq!(path.text(), spelling);
        assert_eq!(path.dup().text(), spelling);
    }
}

#[test]
fn paths_have_the_parts_that_they_are_known_by() {
    for spelling in SPELLINGS {
        let path = FilePath::parse(spelling);
        let known = Path::new(spelling);
        assert_eq!(path.is_absolute(), known.is_absolute(), "{spelling}");
        assert_eq!(
            path.file_name().map(|name| String::from_utf8(name.to_vec()).unwrap()),
            known
                .file_name()
                .map(|name| name.to_str().unwrap().to_string()),
            "{spelling}"
        );
        for other in SPELLINGS {
            assert_eq!(
                path.same(&FilePath::parse(other)),
                known == Path::new(other),
                "{spelling} {other}"
            );
        }
    }
}

#[test]
fn parents_are_spelled_as_they_stand() {
    for spelling in SPELLINGS {
        assert_eq!(
            FilePath::parse(spelling).parent().map(|path| path.text()),
            Path::new(spelling).parent().map(text),
            "{spelling}"
        );
    }
    assert_eq!(FilePath::parse("/a//b//c").parent().unwrap().text(), "/a//b");
}

#[test]
fn joined_paths_keep_both_spellings() {
    for spelling in SPELLINGS {
        for other in SPELLINGS {
            let joined = text(&Path::new(spelling).join(other));
            assert_eq!(
                FilePath::parse(spelling)
                    .join(&FilePath::parse(other))
                    .text(),
                joined,
                "{spelling} {other}"
            );
            assert_eq!(FilePath::parse(spelling).child(other).text(), joined);
        }
    }
}

#[test]
fn rests_are_spelled_as_they_stand() {
    for spelling in SPELLINGS {
        for base in SPELLINGS {
            assert_eq!(
                FilePath::parse(spelling)
                    .strip_prefix(&FilePath::parse(base))
                    .map(|path| path.text()),
                Path::new(spelling).strip_prefix(base).ok().map(text),
                "{spelling} {base}"
            );
        }
    }
}

#[test]
fn paths_need_not_be_text() {
    let odd = FilePath::from_bytes(b"/a//\xff\xfe/b".to_vec());
    assert_eq!(odd.spelling(), b"/a//\xff\xfe/b");
    assert_eq!(odd.text(), "/a//\u{fffd}\u{fffd}/b");
    assert!(odd.same(&FilePath::from_bytes(b"/a/\xff\xfe/./b/".to_vec())));
    assert!(!odd.same(&FilePath::from_bytes(b"/a/\xfe\xff/b".to_vec())));
    assert!(!odd.same(&FilePath::parse(&odd.text())));
    let parent = odd.parent().unwrap();
    assert_eq!(parent.spelling(), b"/a//\xff\xfe");
    assert_eq!(parent.file_name(), Some(&b"\xff\xfe"[..]));
    assert_eq!(parent.child("c").spelling(), b"/a//\xff\xfe/c");
    assert_eq!(parent.join(&FilePath::from_bytes(b"\xc0".to_vec())).spelling(), b"/a//\xff\xfe/\xc0");
    assert_eq!(odd.strip_prefix(&FilePath::parse("/a")).unwrap().spelling(), b"\xff\xfe/b");
    assert!(odd.starts_with(&parent));
}

#[test]
fn texts_are_spelled_in_their_bytes() {
    let path = FilePath::parse("/caf\u{e9}/\u{1f980}");
    assert_eq!(path.spelling(), "/caf\u{e9}/\u{1f980}".as_bytes());
    assert_eq!(path.text(), "/caf\u{e9}/\u{1f980}");
    assert!(path.same(&FilePath::from_bytes(path.spelling().to_vec())));
    assert_eq!(path.part(0), "caf\u{e9}".as_bytes());
}
