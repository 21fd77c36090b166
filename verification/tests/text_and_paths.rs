use std::path::{Path, PathBuf};

use aetherlink::paths::{
    canonical_text, components_of, extension_of, file_name_of, is_same_path, join_path,
    normalize_path, parent_of, path_starts_with, relative_components, replace_extension,
};
use aetherlink::text::{
    chars_of, contains, count, eq_ignore_case, line_count, number, replace_all, replace_first,
    signed_number, space, split_chars, split_once_chars, string_of, trim,
};

const PATHS: [&str; 34] = [
    "", "/", "a", "a/", "a/b", "a//b", "./a", "a/.", "a/./b", ".", "..", "../a", "a/..", "/a", "/a/b.rs",
    "/..", "/.", "//a", "a/b/../c", "a/b/..", ".hidden", "a/.hidden.rs", "x.tar.gz", "x.", "/a/b/", "./.",
    "...", "a/...", "ä/ö.py", "a b/c d.ts", "src/ui/x.rs", "././a", "/a/./", "a/b.rs/.",
];

#[test]
fn components_are_those_of_std() {
    for p in PATHS {
        let ours: Vec<String> = components_of(p).iter().map(string_of).collect();
        let std: Vec<String> =
            Path::new(p).components().map(|c| c.as_os_str().to_str().unwrap().to_string()).collect();
        assert_eq!(ours, std, "components of {p:?}");
    }
}

#[test]
fn parents_names_and_extensions_are_those_of_std() {
    for p in PATHS {
        let path = Path::new(p);
        let text = |o: Option<&std::path::Path>| o.map(|x| x.to_str().unwrap().to_string());
        assert_eq!(parent_of(p), text(path.parent()), "parent of {p:?}");
        assert_eq!(
            file_name_of(p),
            path.file_name().map(|x| x.to_str().unwrap().to_string()),
            "file name of {p:?}"
        );
        assert_eq!(
            extension_of(p),
            path.extension().map(|x| x.to_str().unwrap()).unwrap_or(""),
            "extension of {p:?}"
        );
        for e in ["py", "json.tmp"] {
            assert_eq!(
                PathBuf::from(replace_extension(p, e)),
                path.with_extension(e),
                "{p:?} with extension {e}"
            );
            assert_eq!(replace_extension(p, e), path.with_extension(e).to_str().unwrap());
        }
    }
}

#[test]
fn joins_prefixes_and_equality_are_those_of_std() {
    for a in PATHS {
        for b in PATHS {
            assert_eq!(join_path(a, b), Path::new(a).join(b).to_str().unwrap(), "{a:?} + {b:?}");
            assert_eq!(path_starts_with(a, b), Path::new(a).starts_with(b), "{a:?} below {b:?}");
            assert_eq!(is_same_path(a, b), Path::new(a) == Path::new(b), "{a:?} == {b:?}");
            assert_eq!(canonical_text(a) == canonical_text(b), Path::new(a) == Path::new(b));
            let below = Path::new(a).strip_prefix(b).unwrap_or(Path::new(a));
            let ours: Vec<String> = relative_components(a, Some(b)).iter().map(string_of).collect();
            let std: Vec<String> =
                below.components().map(|c| c.as_os_str().to_str().unwrap().to_string()).collect();
            assert_eq!(ours, std, "{a:?} relative to {b:?}");
        }
    }
}

fn collapsed(p: &str) -> PathBuf {
    let mut out = PathBuf::new();
    for c in Path::new(p).components() {
        match c {
            std::path::Component::ParentDir => {
                out.pop();
            }
            std::path::Component::CurDir => {}
            other => out.push(other.as_os_str()),
        }
    }
    out
}

#[test]
fn normal_form_collapses_dots() {
    for p in PATHS {
        assert_eq!(normalize_path(p), collapsed(p).to_str().unwrap(), "{p:?}");
    }
    assert_eq!(normalize_path("src/screens/../data/recipes.js"), "src/data/recipes.js");
    assert_eq!(normalize_path("/../../x"), "/x");
    assert_eq!(normalize_path("../x"), "x");
}

#[test]
fn white_space_is_that_of_std() {
    for code in 0..0x11_0000u32 {
        if let Some(c) = char::from_u32(code) {
            assert_eq!(space(c), c.is_whitespace(), "U+{code:x}");
        }
    }
}

const TEXTS: [&str; 12] = [
    "", " ", "a", " a ", "\t a b \u{a0}\n", "aaa", "abab", "a\r\nb\n", "\n", "\n\n", "ä\u{2028}ö", "->->",
];

#[test]
fn trimming_lines_and_searching_are_those_of_std() {
    for s in TEXTS {
        assert_eq!(trim(s), s.trim());
        assert_eq!(line_count(s), s.lines().count(), "lines of {s:?}");
        assert_eq!(string_of(&chars_of(s)), s);
        for p in ["", "a", "ab", "aa", "\n", "->", "ä"] {
            assert_eq!(contains(s, p), s.contains(p));
            for r in ["", "x", "aa"] {
                assert_eq!(replace_all(s, p, r), s.replace(p, r), "{s:?} {p:?} {r:?}");
                assert_eq!(replace_first(s, p, r), s.replacen(p, r, 1), "{s:?} {p:?} {r:?}");
            }
            if !p.is_empty() {
                let ours: Vec<String> =
                    split_chars(&chars_of(s), &chars_of(p)).iter().map(string_of).collect();
                assert_eq!(ours, s.split(p).collect::<Vec<_>>());
            }
            let once = split_once_chars(&chars_of(s), &chars_of(p));
            assert_eq!(
                once.map(|(a, b)| (string_of(&a), string_of(&b))),
                s.split_once(p).map(|(a, b)| (a.to_string(), b.to_string()))
            );
        }
    }
}

#[test]
fn case_is_that_of_ascii() {
    for a in ["ui", "UI", "uI", "ü", "Ü", "u", "[", "{", ""] {
        for b in ["ui", "UI", "uI", "ü", "Ü", "u", "[", "{", ""] {
            assert_eq!(eq_ignore_case(&chars_of(a), &chars_of(b)), a.eq_ignore_ascii_case(b));
        }
    }
}

#[test]
fn numbers_are_decimal() {
    for n in [0u64, 1, 9, 10, 99, 100, 12345, u64::MAX] {
        assert_eq!(number(n as u128), n.to_string());
    }
    for n in [0i64, -1, 7, -10, i64::MAX, i64::MIN] {
        assert_eq!(signed_number(n), n.to_string());
    }
    assert_eq!(count(usize::MAX), usize::MAX.to_string());
}
