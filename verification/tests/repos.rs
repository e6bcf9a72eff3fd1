use star_history::repos::{get_owner, get_repos, CatalogEntry, Repo};

fn entry(name: &str, source: Option<&str>) -> CatalogEntry {
    CatalogEntry {
        name: name.to_owned(),
        source: source.map(|text| text.to_owned()),
    }
}

#[test]
fn owner_stands_after_the_third_slash() {
    assert_eq!(get_owner("https://github.com/org/toolName"), Some("org".to_owned()));
    assert_eq!(get_owner("https://github.com/org"), Some("org".to_owned()));
    assert_eq!(get_owner("https://github.com/org/"), Some("org".to_owned()));
    assert_eq!(get_owner("https://github.com/ørg/t"), Some("ørg".to_owned()));
    assert_eq!(get_owner("a/b/c/d/e/f"), Some("d".to_owned()));
}

#[test]
fn owner_may_be_empty() {
    assert_eq!(get_owner("https://github.com/"), Some(String::new()));
    assert_eq!(get_owner("https://github.com//tool"), Some(String::new()));
    assert_eq!(get_owner("///"), Some(String::new()));
}

#[test]
fn address_with_fewer_than_three_slashes_names_no_owner() {
    assert_eq!(get_owner(""), None);
    assert_eq!(get_owner("github.com"), None);
    assert_eq!(get_owner("https://github.com"), None);
    assert_eq!(get_owner("github.com/org/tool"), None);
}

#[test]
fn owner_agrees_with_splitting_at_slashes() {
    for source in ["", "/", "//", "///", "////", "a/b/c", "a/b/c/d", "/a/b/c/d/", "https://x.y/z/w?q=1/2"] {
        let expected = source.split('/').nth(3).map(|piece| piece.to_owned());
        assert_eq!(get_owner(source), expected, "{}", source);
    }
}

#[test]
fn repos_are_listed_in_the_order_of_the_catalog() {
    let catalog = vec![
        entry("alpha", Some("https://github.com/one/alpha")),
        entry("beta", None),
        entry("gamma", Some("https://gitlab.com/two/gamma")),
        entry("delta", Some("not an address")),
        entry("epsilon", Some("https://github.com/three/other-name")),
    ];
    let repos = get_repos(&catalog);
    let listed: Vec<(String, String)> =
        repos.iter().map(|repo| (repo.owner.clone(), repo.name.clone())).collect();
    assert_eq!(
        listed,
        vec![
            ("one".to_owned(), "alpha".to_owned()),
            ("two".to_owned(), "gamma".to_owned()),
            ("three".to_owned(), "epsilon".to_owned()),
        ]
    );
}

#[test]
fn empty_catalog_names_no_repos() {
    assert!(get_repos(&Vec::new()).is_empty());
    assert!(get_repos(&vec![entry("a", None), entry("b", Some("x"))]).is_empty());
}

#[test]
fn label_joins_owner_and_name() {
    let repo = Repo { owner: "rust-lang".to_owned(), name: "rust".to_owned() };
    assert_eq!(repo.label(), "rust-lang/rust");
}
