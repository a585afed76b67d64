use std::path::{Component, Path};

use hdfs_native::path::{
    component_count, components_of, has_root, is_under, join_text, paths_equal, strip_base,
};
use hdfs_native::text::{chars_of, has_text, text_eq};

/// Every text of at most `len` characters over an alphabet.
fn all_texts(alphabet: &[char], len: usize) -> Vec<String> {
    let mut all = vec![String::new()];
    let mut last = all.clone();
    for _ in 0..len {
        let mut next = Vec::new();
        for text in &last {
            for c in alphabet {
                let mut longer = text.clone();
                longer.push(*c);
                next.push(longer);
            }
        }
        all.extend(next.iter().cloned());
        last = next;
    }
    all
}

fn std_components(path: &str) -> Vec<String> {
    Path::new(path)
        .components()
        .map(|c| match c {
            Component::RootDir => "/".to_string(),
            Component::CurDir => ".".to_string(),
            Component::ParentDir => "..".to_string(),
            other => other.as_os_str().to_str().unwrap().to_string(),
        })
        .collect()
}

#[test]
fn components_are_those_of_std() {
    for path in all_texts(&['/', '.', 'a', 'é'], 6) {
        assert_eq!(components_of(&path), std_components(&path), "{path:?}");
        assert_eq!(component_count(&path), Path::new(&path).components().count());
        assert_eq!(has_root(&path), Path::new(&path).has_root());
    }
}

#[test]
fn equality_is_that_of_std() {
    let paths = all_texts(&['/', '.', 'a'], 4);
    for a in &paths {
        for b in &paths {
            assert_eq!(paths_equal(a, b), Path::new(a) == Path::new(b), "{a:?} and {b:?}");
        }
    }
}

#[test]
fn stripping_is_that_of_std() {
    let paths = all_texts(&['/', '.', 'a', 'b'], 5);
    let bases = all_texts(&['/', '.', 'a'], 3);
    for path in &paths {
        for base in &bases {
            let expected = Path::new(path).strip_prefix(base).ok();
            assert_eq!(is_under(path, base), expected.is_some(), "{path:?} under {base:?}");
            if base.is_empty() {
                continue;
            }
            let expected = expected.map(|p| p.to_str().unwrap().to_string());
            assert_eq!(strip_base(path, base), expected, "{path:?} below {base:?}");
        }
    }
}

#[test]
fn joining_is_that_of_std() {
    let paths = all_texts(&['/', '.', 'a'], 4);
    for a in &paths {
        for b in &paths {
            assert_eq!(
                join_text(a, b),
                Path::new(a).join(b).to_str().unwrap(),
                "{b:?} joined onto {a:?}"
            );
        }
    }
}

#[test]
fn joining_what_was_stripped_gives_the_path_back() {
    let rest = strip_base("/a/b//c/./d/", "/a//b").unwrap();
    assert_eq!(rest, "c/./d");
    assert_eq!(join_text("/a/b", &rest), "/a/b/c/./d");
    assert!(paths_equal(&join_text("/a/b", &rest), "/a/b//c/./d/"));
}

#[test]
fn a_name_is_not_matched_in_part() {
    assert!(!is_under("/dir/mount12", "/dir/mount1"));
    assert!(!is_under("/dir/mount12/file", "/dir/mount1"));
    assert!(is_under("/dir/mount1/2", "/dir/mount1"));
}

#[test]
fn a_trailing_separator_is_ignored() {
    assert_eq!(components_of("/a/b/"), components_of("/a/b"));
    assert_eq!(strip_base("/a/b/c/", "/a"), strip_base("/a/b/c", "/a"));
}

#[test]
fn texts_as_characters() {
    assert_eq!(chars_of("aé/"), ['a', 'é', '/']);
    assert!(chars_of("").is_empty());
}

#[test]
fn equality_and_containment_of_texts() {
    let texts = all_texts(&['a', 'b', 'é'], 4);
    let short = all_texts(&['a', 'b', 'é'], 2);
    for x in &texts {
        for y in &short {
            assert_eq!(text_eq(x, y), x == y);
            assert_eq!(has_text(x, y), x.contains(y.as_str()), "{y:?} in {x:?}");
            assert_eq!(has_text(y, x), y.contains(x.as_str()));
        }
    }
}
