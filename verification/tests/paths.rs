use dvrreview::paths::{
    change_extension, extension_of, file_name_of, file_stem_of, join, rename, strip_base,
};
use std::path::{Path, PathBuf};

const PATHS: [&str; 34] = [
    "", "/", "//", ".", "..", "./", "./.", "./a", "./a/.", "./..", "a", "a/", "a//", "a/.", "a/..",
    "a/b", "a//b", "a/./b", "a/b.ts", "/a", "/a/", "/a/b.c.ts", "/a/.hidden", "/a/.hidden.ts",
    "/a/b.", "/a/..ts", "/.", "/..", "/./a.ts/", "a.b/c", "../a.ts", "/a/b.ts/./", "...", "/dvr/Show S01E02.ts",
];

fn text(p: &Path) -> String {
    p.to_str().unwrap().to_string()
}

#[test]
fn names_are_those_of_std() {
    for p in PATHS {
        let path = Path::new(p);
        assert_eq!(file_name_of(p), path.file_name().map(|s| s.to_str().unwrap().to_string()), "{:?}", p);
        assert_eq!(file_stem_of(p), path.file_stem().map(|s| s.to_str().unwrap().to_string()), "{:?}", p);
        assert_eq!(extension_of(p), path.extension().map(|s| s.to_str().unwrap().to_string()), "{:?}", p);
    }
}

#[test]
fn changed_paths_are_those_of_std() {
    for p in PATHS {
        let path = Path::new(p);
        for ext in ["ts", "", "tar.gz"] {
            let mut changed = path.to_path_buf();
            changed.set_extension(ext);
            assert_eq!(change_extension(p, ext), text(&changed), "{:?} {:?}", p, ext);
        }
        for name in ["x", "x.transcoding", "/y", ""] {
            let mut changed = path.to_path_buf();
            changed.set_file_name(name);
            assert_eq!(rename(p, name), text(&changed), "{:?} {:?}", p, name);
        }
    }
}

#[test]
fn joined_paths_are_those_of_std() {
    for a in PATHS {
        for b in PATHS {
            assert_eq!(join(a, b), text(&Path::new(a).join(b)), "{:?} {:?}", a, b);
        }
    }
}

#[test]
fn stripped_paths_are_those_of_std() {
    for a in PATHS {
        for b in PATHS {
            let expected = Path::new(a).strip_prefix(b).ok().map(text);
            assert_eq!(strip_base(a, b), expected, "{:?} {:?}", a, b);
            let joined = join(a, b);
            let expected = Path::new(&joined).strip_prefix(a).ok().map(text);
            assert_eq!(strip_base(&joined, a), expected, "{:?} {:?}", joined, a);
        }
    }
}

#[test]
fn what_is_joined_comes_back() {
    for base in ["/", "/dvr", "/srv/media/dvr"] {
        for path in ["a.ts", "Show/S01/a.ts", "..a/b"] {
            assert_eq!(strip_base(&join(base, path), base), Some(path.to_string()));
        }
    }
    assert_eq!(strip_base("/other/a.ts", "/dvr"), None);
    assert_eq!(strip_base("/dvrs/a.ts", "/dvr"), None);
}

#[test]
fn a_changed_extension_is_found() {
    for p in ["/dvr/a.ts", "b", "c.tar.gz", "./.x", "/dvr/d/"] {
        let changed = change_extension(p, "mkv");
        assert_eq!(extension_of(&changed), Some("mkv".to_string()));
        assert_eq!(file_stem_of(&changed), file_stem_of(p));
        assert_eq!(PathBuf::from(p).with_extension("mkv").to_str().unwrap(), changed);
    }
}
