use memury_card::helper::{path_diff, strip_quotes};
use memury_card::path::SavePath;
use memury_card::text::{ends_with, find_last};
use std::path::{Component, Path, PathBuf};

fn p(s: &str) -> SavePath {
    SavePath::from_text(s)
}

fn names(v: &[&str]) -> Vec<String> {
    v.iter().map(|s| s.to_string()).collect()
}

fn by_std(s: &str) -> SavePath {
    let path = Path::new(s);
    let mut out = SavePath { rooted: false, names: Vec::new() };
    for c in path.components() {
        match c {
            Component::RootDir => out.rooted = true,
            Component::Prefix(_) => {}
            other => out.names.push(other.as_os_str().to_str().unwrap().to_string()),
        }
    }
    out
}

#[test]
fn from_text_reads_components() {
    assert_eq!(p("/saves/g/slot1.sav"), SavePath { rooted: true, names: names(&["saves", "g", "slot1.sav"]) });
    assert_eq!(p("a/b"), SavePath { rooted: false, names: names(&["a", "b"]) });
    assert_eq!(p(""), SavePath { rooted: false, names: vec![] });
    assert_eq!(p("/"), SavePath { rooted: true, names: vec![] });
}

#[test]
fn from_text_ignores_empty_segments_and_inner_dots() {
    assert_eq!(p("/a//b/"), p("/a/b"));
    assert_eq!(p("a/./b"), p("a/b"));
    assert_eq!(p("/./a"), p("/a"));
    assert_eq!(p("a/b/."), p("a/b"));
    assert_eq!(p("./a"), SavePath { rooted: false, names: names(&[".", "a"]) });
    assert_eq!(p("a/../b"), SavePath { rooted: false, names: names(&["a", "..", "b"]) });
}

#[test]
fn from_text_agrees_with_std_components() {
    let samples = [
        "", "/", "//", ".", "./", "..", "/.", "/..", "a", "a/", "/a", "/a/b/c.txt", "a//b///c",
        "./a/./b/.", "../x/../y", "/saves/g/slot1.sav", "a/.hidden", "a b/c d.e", "/a/./b/../c/",
        ".//.", "é/ü.sav",
    ];
    for s in samples {
        assert_eq!(p(s), by_std(s), "text {:?}", s);
    }
}

#[test]
fn to_text_joins_components() {
    assert_eq!(p("/saves/g/slot1.sav").to_text(), "/saves/g/slot1.sav");
    assert_eq!(p("/a//b/").to_text(), "/a/b");
    assert_eq!(p("a/b").to_text(), "a/b");
    assert_eq!(p("/").to_text(), "/");
    assert_eq!(p("").to_text(), "");
    assert_eq!(p("x").to_text(), "x");
}

#[test]
fn parent_drops_the_last_name() {
    assert_eq!(p("/a/b").parent(), Some(p("/a")));
    assert_eq!(p("/a").parent(), Some(p("/")));
    assert_eq!(p("/").parent(), None);
    assert_eq!(p("a").parent(), Some(p("")));
    assert_eq!(p("").parent(), None);
}

#[test]
fn parent_agrees_with_std() {
    for s in ["/a/b/c", "/a", "/", "a/b", "a", "", "a/..", "./a"] {
        let want = Path::new(s).parent().map(|q| by_std(q.to_str().unwrap()));
        assert_eq!(p(s).parent(), want, "text {:?}", s);
    }
}

#[test]
fn prefix_keeps_leading_names() {
    assert_eq!(p("/a/b/c").prefix(2), p("/a/b"));
    assert_eq!(p("/a/b/c").prefix(0), p("/"));
    assert_eq!(p("a/b").prefix(2), p("a/b"));
}

#[test]
fn clone_and_same_as() {
    let a = p("/a/b");
    let b = a.clone();
    assert_eq!(a, b);
    assert!(a.same_as(&b));
    assert!(!a.same_as(&p("a/b")));
    assert!(!a.same_as(&p("/a/c")));
    assert!(!a.same_as(&p("/a")));
    assert!(p("/a//b").same_as(&a));
}

#[test]
fn join_appends_or_replaces() {
    assert_eq!(p("/out").join(&p("mirror")), p("/out/mirror"));
    assert_eq!(p("/out").join(&p("")), p("/out"));
    assert_eq!(p("/out").join(&p("/abs/x")), p("/abs/x"));
    assert_eq!(p("rel").join(&p("a/b")), p("rel/a/b"));
}

#[test]
fn join_agrees_with_std_push() {
    for (a, b) in [("/out", "mirror"), ("/out", "/abs"), ("rel", "x/y"), ("", "x"), ("/", "x"), ("a", "")] {
        let mut buf = PathBuf::from(a);
        buf.push(b);
        assert_eq!(p(a).join(&p(b)), by_std(buf.to_str().unwrap()), "{:?} + {:?}", a, b);
    }
}

#[test]
fn extension_follows_the_last_dot() {
    assert_eq!(p("/s/x.sav").extension(), Some("sav".to_string()));
    assert_eq!(p("/s/x.tar.gz").extension(), Some("gz".to_string()));
    assert_eq!(p("/s/x").extension(), None);
    assert_eq!(p("/s/.bashrc").extension(), None);
    assert_eq!(p("/s/.bashrc.bak").extension(), Some("bak".to_string()));
    assert_eq!(p("/s/x.").extension(), Some(String::new()));
    assert_eq!(p("/s/..").extension(), None);
    assert_eq!(p(".").extension(), None);
    assert_eq!(p("/").extension(), None);
    assert_eq!(p("").extension(), None);
}

#[test]
fn extension_agrees_with_std() {
    for s in ["/s/x.sav", "x.tar.gz", "x", ".bashrc", ".a.b", "x.", "..", "a/..", ".", "/", "", "a.b/c", "..x", "x..y"] {
        let want = Path::new(s).extension().map(|e| e.to_str().unwrap().to_string());
        assert_eq!(p(s).extension(), want, "text {:?}", s);
    }
}

#[test]
fn has_file_name_excludes_dots() {
    assert!(p("/a/b").has_file_name());
    assert!(!p("/").has_file_name());
    assert!(!p("").has_file_name());
    assert!(!p("a/..").has_file_name());
    assert!(!p(".").has_file_name());
    assert!(p("...").has_file_name());
}

#[test]
fn set_extension_replaces_the_extension() {
    let mut a = p("/s/x.sav");
    assert!(a.set_extension("bak"));
    assert_eq!(a, p("/s/x.bak"));
    let mut b = p("/s/x");
    assert!(b.set_extension("sav"));
    assert_eq!(b, p("/s/x.sav"));
    let mut c = p("/s/x.sav");
    assert!(c.set_extension(""));
    assert_eq!(c, p("/s/x"));
    let mut d = p("/s/..");
    assert!(!d.set_extension("sav"));
    assert_eq!(d, p("/s/.."));
    let mut e = p("/");
    assert!(!e.set_extension("sav"));
    assert_eq!(e, p("/"));
    let mut f = p("/s/.bashrc");
    assert!(f.set_extension("x"));
    assert_eq!(f, p("/s/.bashrc.x"));
}

#[test]
fn set_extension_agrees_with_std() {
    for (s, e) in [("/s/x.sav", "bak"), ("x", "sav"), ("x.sav", ""), ("a/..", "x"), (".bashrc", "y"), ("x.", ""), ("x.tar.gz", "zip"), ("/", "q")] {
        let mut buf = PathBuf::from(s);
        let changed = buf.set_extension(e);
        let mut mine = p(s);
        assert_eq!(mine.set_extension(e), changed, "{:?} {:?}", s, e);
        assert_eq!(mine, by_std(buf.to_str().unwrap()), "{:?} {:?}", s, e);
    }
}

#[test]
fn ends_with_and_find_last() {
    assert!(ends_with("slot1.sav", ".sav"));
    assert!(ends_with("slot1.sav", "slot1.sav"));
    assert!(!ends_with("sav", "slot1.sav"));
    assert!(!ends_with("slot1.sav", ".bak"));
    assert!(ends_with("", ""));
    assert_eq!(find_last("a.b.c", '.'), Some(3));
    assert_eq!(find_last("abc", '.'), None);
    assert_eq!(find_last(".", '.'), Some(0));
    assert_eq!(find_last("", '.'), None);
    assert_eq!(find_last("é.ü", '.'), Some(1));
}

#[test]
fn strip_quotes_trims_both_ends() {
    assert_eq!(strip_quotes("\"abc\""), "abc");
    assert_eq!(strip_quotes("abc"), "abc");
    assert_eq!(strip_quotes("\"\"a\"b\"\"\""), "a\"b");
    assert_eq!(strip_quotes("\"\"\""), "");
    assert_eq!(strip_quotes(""), "");
    assert_eq!(strip_quotes("\"abc"), "abc");
    assert_eq!(strip_quotes("abc\""), "abc");
}

#[test]
fn strip_quotes_agrees_with_trim_matches() {
    for s in ["\"x\"", "x", "\"", "\"\"", "a\"b", "\"a\"b\"", "\"/saves/dir\"", " \"x\" "] {
        assert_eq!(strip_quotes(s), s.trim_matches('"'), "text {:?}", s);
    }
}

#[test]
fn path_diff_strips_the_common_start() {
    let (folder, fname) = path_diff(p("/a/b/c/"), p("/a/b/c/d/e/f.txt"));
    assert_eq!(folder, p("d/e"));
    assert_eq!(fname, p("f.txt"));
    let (folder, fname) = path_diff(p("/saves"), p("/saves/slot1.sav"));
    assert_eq!(folder, p(""));
    assert_eq!(fname, p("slot1.sav"));
}

#[test]
fn path_diff_takes_the_longer_path() {
    let (folder, fname) = path_diff(p("/a/b/c/d/e/f.txt"), p("/a/b/c"));
    assert_eq!(folder, p("d/e"));
    assert_eq!(fname, p("f.txt"));
    let (folder, fname) = path_diff(p("/a/x"), p("/a/y/z"));
    assert_eq!(folder, p("y"));
    assert_eq!(fname, p("z"));
    let (folder, fname) = path_diff(p("/a/x"), p("/a/y"));
    assert_eq!(folder, p(""));
    assert_eq!(fname, p("y"));
    let (folder, fname) = path_diff(p("a"), p("/b/c"));
    assert_eq!(folder, p("/b"));
    assert_eq!(fname, p("c"));
    let (folder, fname) = path_diff(p("x/y/z/w"), p("/b"));
    assert_eq!(folder, p("x/y/z"));
    assert_eq!(fname, p("w"));
}

#[test]
fn path_diff_of_equal_paths() {
    let (folder, fname) = path_diff(p("/saves/one.sav"), p("/saves/one.sav"));
    assert_eq!(folder, p(""));
    assert_eq!(fname, p("one.sav"));
    let (folder, fname) = path_diff(p("/"), p("/"));
    assert_eq!(folder, p(""));
    assert_eq!(fname, p("/"));
    let (folder, fname) = path_diff(p(""), p(""));
    assert_eq!(folder, p(""));
    assert_eq!(fname, p(""));
}

#[test]
fn text_round_trip() {
    for s in ["", "/", "a", "/a", "a/b", "/saves/g/slot1.sav", "./a", ".", "../x", "/a/../b", ".a/.b", "a b/c"] {
        let path = p(s);
        assert_eq!(p(&path.to_text()), path, "text {:?}", s);
        assert_eq!(path.to_text(), s, "text {:?}", s);
    }
    for s in ["//", "a//b", "a/", "/a/./b", "a/.", "/."] {
        let path = p(s);
        assert_eq!(p(&path.to_text()), path, "text {:?}", s);
    }
}

fn diff_by_components(a: PathBuf, b: PathBuf) -> (PathBuf, PathBuf) {
    let mut ai = a.iter().peekable();
    let mut bi = b.iter().peekable();
    while ai.peek() == bi.peek() {
        ai.next();
        bi.next();
    }
    let (fname, mut longer) = if a.iter().count() > b.iter().count() {
        (PathBuf::from(ai.clone().last().unwrap()), ai)
    } else {
        (PathBuf::from(bi.clone().last().unwrap()), bi)
    };
    let mut folder = PathBuf::new();
    while longer.peek() != None {
        folder.push(longer.next().unwrap());
    }
    folder.pop();
    (folder, fname)
}

#[test]
fn path_diff_agrees_with_component_iterators() {
    let pairs = [
        ("/a/b/c", "/a/b/c/d/e/f.txt"),
        ("/a/b/c/d/e/f.txt", "/a/b/c"),
        ("/saves", "/saves/slot1.sav"),
        ("/a/x", "/a/y/z"),
        ("/a/x/w", "/a/y"),
        ("/a/x", "/a/y"),
        ("a", "/b/c"),
        ("x/y/z/w", "/b"),
        ("", "a/b"),
        ("", "/"),
        ("/", ""),
        ("/", "/a"),
        ("a/b", "a"),
        ("./a", "a/b/c"),
        ("/a/../b", "/a/../b/c/d"),
    ];
    for (a, b) in pairs {
        let (folder, fname) = path_diff(p(a), p(b));
        let (want_folder, want_fname) = diff_by_components(PathBuf::from(a), PathBuf::from(b));
        assert_eq!(folder, by_std(want_folder.to_str().unwrap()), "folder of {:?} {:?}", a, b);
        assert_eq!(fname, by_std(want_fname.to_str().unwrap()), "name of {:?} {:?}", a, b);
    }
}
