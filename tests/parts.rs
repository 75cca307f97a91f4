use bookfactory::config::BuildError;
use bookfactory::package::{add_epub_mimetype, choose_encoding, p_to_string, Encoding};
use bookfactory::paths::{fixed_clean, get_ncx_path_to_file, join_dir, parent_of, relative_href};
use bookfactory::text::{str_eq_ignore_ascii_case, utf8_len_exceeds};
use bookfactory::validate::{
    check_inside_path_is_valid, check_no_duplicate_inside_paths, check_no_id_collisions,
    get_safe_uid,
};

fn strings(v: &[&str]) -> Vec<String> {
    v.iter().map(|s| s.to_string()).collect()
}

fn comps(p: &str) -> Vec<String> {
    p.split('/').map(|s| s.to_string()).collect()
}

/// Joins `href` onto the directory of `ncx` and normalises `..` away.
fn resolve(ncx: &str, href: &str) -> String {
    let mut stack: Vec<&str> = ncx.split('/').collect();
    stack.pop();
    for part in href.split('/') {
        if part == ".." {
            stack.pop();
        } else {
            stack.push(part);
        }
    }
    stack.join("/")
}

#[test]
fn relative_href_same_directory() {
    let r = relative_href(&comps("OEBPS/toc.ncx"), &comps("OEBPS/c1.xhtml"));
    assert_eq!(r, "c1.xhtml");
    assert_eq!(resolve("OEBPS/toc.ncx", &r), "OEBPS/c1.xhtml");
}

#[test]
fn relative_href_ncx_below_target_directory() {
    let r = relative_href(&comps("OEBPS/nav/deep/toc.ncx"), &comps("OEBPS/c1.xhtml"));
    assert_eq!(r, "../../c1.xhtml");
    assert_eq!(resolve("OEBPS/nav/deep/toc.ncx", &r), "OEBPS/c1.xhtml");
}

#[test]
fn relative_href_common_ancestor() {
    let r = relative_href(&comps("OEBPS/nav/toc.ncx"), &comps("OEBPS/text/part/c1.xhtml"));
    assert_eq!(r, "../text/part/c1.xhtml");
    assert_eq!(resolve("OEBPS/nav/toc.ncx", &r), "OEBPS/text/part/c1.xhtml");
}

#[test]
fn relative_href_no_common_ancestor() {
    let r = relative_href(&comps("OEBPS/nav/toc.ncx"), &comps("other/c1.xhtml"));
    assert_eq!(r, "../../other/c1.xhtml");
    assert_eq!(resolve("OEBPS/nav/toc.ncx", &r), "other/c1.xhtml");
    let root = relative_href(&comps("OEBPS/toc.ncx"), &comps("cover.xhtml"));
    assert_eq!(root, "../cover.xhtml");
    assert_eq!(resolve("OEBPS/toc.ncx", &root), "cover.xhtml");
}

#[test]
fn relative_href_target_inside_directory_named_like_ncx_path() {
    let r = relative_href(&comps("a/b"), &comps("a/b/c/d.xhtml"));
    assert_eq!(r, "b/c/d.xhtml");
    assert_eq!(resolve("a/b", &r), "a/b/c/d.xhtml");
}

#[test]
fn ncx_path_to_file_joins_the_opf_directory() {
    assert_eq!(get_ncx_path_to_file("OEBPS", "toc.ncx", "text/ch1.xhtml"), "text/ch1.xhtml");
    assert_eq!(get_ncx_path_to_file("", "nav/toc.ncx", "ch1.xhtml"), "../ch1.xhtml");
}

#[test]
fn fixed_clean_unifies_separators() {
    assert_eq!(fixed_clean("a\\b/c.xhtml"), strings(&["a", "b", "c.xhtml"]));
    assert_eq!(fixed_clean("one"), strings(&["one"]));
}

#[test]
fn fixed_clean_normalises() {
    assert_eq!(fixed_clean("a/./b//../c"), strings(&["a", "c"]));
    assert_eq!(fixed_clean("./x/"), strings(&["x"]));
    assert_eq!(fixed_clean("../x"), strings(&["..", "x"]));
    assert_eq!(fixed_clean("../a/../../b"), strings(&["..", "..", "b"]));
    assert_eq!(fixed_clean("a/.."), strings(&["."]));
    assert_eq!(fixed_clean(""), strings(&["."]));
    assert_eq!(fixed_clean("a\\..\\b"), strings(&["b"]));
}

#[test]
fn join_and_parent() {
    assert_eq!(join_dir("OEBPS", "toc.ncx"), "OEBPS/toc.ncx");
    assert_eq!(join_dir("", "toc.ncx"), "toc.ncx");
    assert_eq!(join_dir("OEBPS/", "toc.ncx"), "OEBPS/toc.ncx");
    assert_eq!(join_dir("OEBPS", "/abs.ncx"), "/abs.ncx");
    assert_eq!(parent_of("OEBPS/content.opf"), "OEBPS");
    assert_eq!(parent_of("content.opf"), "");
    assert_eq!(parent_of("a/b/c.opf"), "a/b");
}

#[test]
fn inside_path_rules() {
    assert!(check_inside_path_is_valid("OEBPS/text/c1.xhtml").is_ok());
    for bad in ["", "a/", "/abs", "a//b", "a/b.", "a/../b", "./a", "a\\b", "a\"b", "a*b", "a:b", "a<b", "a>b", "a?b"] {
        assert_eq!(
            check_inside_path_is_valid(bad),
            Err(BuildError::Path { path: bad.to_string() }),
            "{}",
            bad
        );
    }
    let long_name = "x".repeat(256);
    assert!(check_inside_path_is_valid(&long_name).is_err());
    assert!(check_inside_path_is_valid(&"x".repeat(255)).is_ok());
    let two_byte_name = "é".repeat(128);
    assert!(check_inside_path_is_valid(&two_byte_name).is_err());
    let long_path = vec!["d".repeat(200); 330].join("/");
    assert!(long_path.len() > 65535);
    assert!(check_inside_path_is_valid(&long_path).is_err());
}

#[test]
fn utf8_lengths() {
    assert!(!utf8_len_exceeds("abc", 3));
    assert!(utf8_len_exceeds("abcd", 3));
    assert!(utf8_len_exceeds("é€", 4));
    assert!(!utf8_len_exceeds("é€", 5));
    assert!(!utf8_len_exceeds("😀", 4));
}

#[test]
fn case_folding_is_ascii_only() {
    assert!(str_eq_ignore_ascii_case("Chapter", "cHAPTER"));
    assert!(!str_eq_ignore_ascii_case("É", "é"));
    assert!(!str_eq_ignore_ascii_case("a", "ab"));
}

#[test]
fn duplicate_checks() {
    assert!(check_no_duplicate_inside_paths(&strings(&["a/b", "a/c"])).is_ok());
    assert_eq!(
        check_no_duplicate_inside_paths(&strings(&["a/B", "x", "A/b"])),
        Err(BuildError::Collision { name: "A/b".to_string() })
    );
    assert!(check_no_id_collisions(&strings(&[])).is_ok());
    assert_eq!(
        check_no_id_collisions(&strings(&["id1", "ID1"])),
        Err(BuildError::Collision { name: "ID1".to_string() })
    );
}

#[test]
fn safe_uid_candidates() {
    assert_eq!(get_safe_uid(&strings(&[])), "BookId");
    assert_eq!(get_safe_uid(&strings(&["ncx", "c1"])), "BookId");
    assert_eq!(get_safe_uid(&strings(&["BOOKID"])), "BookId_1");
    let mut taken = vec!["BookId".to_string()];
    for n in 1..12 {
        taken.push(format!("bookid_{}", n));
    }
    assert_eq!(get_safe_uid(&taken), "BookId_12");
}

#[test]
fn encoding_choice() {
    assert_eq!(choose_encoding(100, 40), Encoding::Deflated);
    assert_eq!(choose_encoding(100, 100), Encoding::Stored);
    assert_eq!(choose_encoding(10, 30), Encoding::Stored);
}

#[test]
fn mimetype_entry_is_appended() {
    let mut entries = Vec::new();
    add_epub_mimetype(&mut entries);
    assert_eq!(entries.len(), 1);
    assert_eq!(entries[0].path, "mimetype");
    assert_eq!(p_to_string("a/b"), "a/b");
}
