use std::path::{Path, PathBuf};

use media_convert::path::{
    components_of, extension_of, file_name_of, file_stem_of, join_path, parent_of, path_is_before,
    replace_extension, replace_file_name, same_path, strip_base,
};

/// All texts of up to `max` of these characters.
fn texts(letters: &[char], max: usize) -> Vec<String> {
    let mut all = vec![String::new()];
    let mut from = 0;
    for _ in 0..max {
        let to = all.len();
        for i in from..to {
            for c in letters {
                let mut t = all[i].clone();
                t.push(*c);
                all.push(t);
            }
        }
        from = to;
    }
    all
}

#[test]
fn parts_of_paths_are_those_of_std() {
    for t in texts(&['a', '.', '/'], 8) {
        let p = Path::new(&t);
        assert_eq!(
            file_name_of(&t),
            p.file_name().map(|n| n.to_str().unwrap().to_string()),
            "{t}"
        );
        assert_eq!(
            file_stem_of(&t),
            p.file_stem().map(|n| n.to_str().unwrap().to_string()),
            "{t}"
        );
        assert_eq!(
            extension_of(&t),
            p.extension().map(|n| n.to_str().unwrap().to_string()),
            "{t}"
        );
        assert_eq!(
            parent_of(&t),
            p.parent().map(|q| q.to_str().unwrap().to_string()),
            "{t}"
        );
        let parts: Vec<String> = p
            .components()
            .map(|c| c.as_os_str().to_str().unwrap().to_string())
            .collect();
        assert_eq!(components_of(&t), parts, "{t}");
    }
}

#[test]
fn changed_paths_are_those_of_std() {
    for t in texts(&['a', '.', '/'], 6) {
        for n in ["b", "b.c", "", "x/y"] {
            let mut p = PathBuf::from(&t);
            p.set_file_name(n);
            assert_eq!(replace_file_name(&t, n), p.to_str().unwrap(), "{t} {n}");
        }
        for e in ["mkv", "", "web.mp4"] {
            let mut p = PathBuf::from(&t);
            p.set_extension(e);
            assert_eq!(replace_extension(&t, e), p.to_str().unwrap(), "{t} {e}");
        }
    }
}

#[test]
fn joined_stripped_and_ordered_paths_are_those_of_std() {
    let all = texts(&['a', '.', '/'], 4);
    for a in &all {
        for b in &all {
            let p = Path::new(a);
            let q = Path::new(b);
            assert_eq!(join_path(a, b), p.join(q).to_str().unwrap(), "{a} {b}");
            assert_eq!(
                strip_base(a, b),
                p.strip_prefix(q).ok().map(|r| r.to_str().unwrap().to_string()),
                "{a} {b}"
            );
            assert_eq!(path_is_before(a, b), p < q, "{a} {b}");
            assert_eq!(same_path(a, b), p == q, "{a} {b}");
        }
    }
}

#[test]
fn names_with_other_letters() {
    for (a, b) in [("Z", "a"), ("é/x", "é/y"), ("a b", "a/b"), ("a-b/c", "a/c"), ("文", "a文")] {
        assert_eq!(path_is_before(a, b), Path::new(a) < Path::new(b));
        assert_eq!(path_is_before(b, a), Path::new(b) < Path::new(a));
    }
    assert_eq!(file_stem_of("/tv/Älskling.S01.mkv").as_deref(), Some("Älskling.S01"));
    assert_eq!(extension_of("x.ÄÖ").as_deref(), Some("ÄÖ"));
}
