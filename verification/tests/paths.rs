use ncmprs::paths::{flac_files, path_components};
use std::path::Path;

fn entries(list: &[(&str, bool)]) -> Vec<(String, bool)> {
    list.iter().map(|(p, f)| (p.to_string(), *f)).collect()
}

#[test]
fn keeps_flac_files_in_path_order() {
    let got = flac_files(entries(&[
        ("/m/b/2.flac", true),
        ("/m/a", false),
        ("/m/a/1.flac", true),
        ("/m/a/cover.jpg", true),
        ("/m/a.flac", true),
        ("/m/dir.flac", false),
        ("/m/.flac", true),
        ("/m/x.FLAC", true),
        ("/m/a/0.flac", true),
    ]));
    assert_eq!(got, vec!["/m/a/0.flac", "/m/a/1.flac", "/m/a.flac", "/m/b/2.flac"]);
}

#[test]
fn order_matches_std_path_order() {
    let paths = [
        "/m/a/b.flac", "/m/a.b.flac", "/m/a-b.flac", "/m/a/b/c.flac", "/m//a/z.flac", "/m/./a/y.flac",
        "m/a.flac", "./m/a.flac", "../m/a.flac", "/m/Z.flac", "/m/é.flac", "/m/a/.x.flac", "/m/a/..flac",
    ];
    let list: Vec<(String, bool)> = paths.iter().map(|p| (p.to_string(), true)).collect();
    let got = flac_files(list);
    let mut want: Vec<&str> = paths
        .iter()
        .copied()
        .filter(|p| Path::new(p).extension().is_some_and(|e| e == "flac"))
        .collect();
    want.sort_by(|a, b| Path::new(a).cmp(Path::new(b)));
    assert_eq!(got, want);
}

#[test]
fn extension_rules_match_std() {
    let names = ["a.flac", ".flac", "..flac", "a.flac.mp3", "a.mp3.flac", "flac", "a.", "dir/a.flac/", "a/..", "a/.", "x.flacc"];
    for n in names.iter() {
        let got = !flac_files(vec![(n.to_string(), true)]).is_empty();
        let want = Path::new(n).extension().is_some_and(|e| e == "flac");
        assert_eq!(got, want, "{:?}", n);
    }
}

#[test]
fn components_of_paths() {
    let c = path_components("/a//./b/../c/");
    let kinds: Vec<u8> = c.iter().map(|p| p.0).collect();
    assert_eq!(kinds, vec![1, 4, 4, 3, 4]);
    let c = path_components("./a");
    assert_eq!(c.iter().map(|p| p.0).collect::<Vec<u8>>(), vec![2, 4]);
    assert!(path_components("").is_empty());
}

#[test]
fn duplicates_are_kept() {
    let got = flac_files(entries(&[("/m/a.flac", true), ("/m/a.flac", true)]));
    assert_eq!(got, vec!["/m/a.flac", "/m/a.flac"]);
}

#[test]
fn equal_components_keep_listing_order() {
    let got = flac_files(entries(&[("/m//a.flac", true), ("/m/b.flac", true), ("/m/a.flac", true)]));
    assert_eq!(got, vec!["/m//a.flac", "/m/a.flac", "/m/b.flac"]);
    let got = flac_files(entries(&[("/m/a.flac", true), ("/m/./a.flac", true)]));
    assert_eq!(got, vec!["/m/a.flac", "/m/./a.flac"]);
}
