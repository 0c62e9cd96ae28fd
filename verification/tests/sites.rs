use mpw_vault::sites::{
    find_site, insert_site, keep_matching, remove_site, replace_site, sort_sites, Site,
};

fn names(sites: &[Site]) -> Vec<&str> {
    sites.iter().map(|site| site.site_name.as_str()).collect()
}

#[test]
fn new_site_holds_its_values() {
    let site = Site::new("github.com", 7, "Long");
    assert_eq!(site.site_name, "github.com");
    assert_eq!(site.counter, 7);
    assert_eq!(site.password_type, "Long");
    assert_eq!(site.clone(), site);
}

#[test]
fn find_gives_the_first_of_a_name() {
    let sites = vec![Site::new("a", 1, "PIN"), Site::new("b", 1, "PIN"), Site::new("a", 2, "PIN")];
    assert_eq!(find_site(&sites, "a"), Some(0));
    assert_eq!(find_site(&sites, "b"), Some(1));
    assert_eq!(find_site(&sites, "c"), None);
    assert_eq!(find_site(&sites, "A"), None);
}

#[test]
fn insert_adds_at_the_end() {
    let mut sites = vec![Site::new("b", 1, "PIN")];
    assert!(insert_site(&mut sites, Site::new("a", 2, "Long")));
    assert_eq!(sites, vec![Site::new("b", 1, "PIN"), Site::new("a", 2, "Long")]);
}

#[test]
fn insert_twice_keeps_one_record() {
    let mut sites = Vec::new();
    assert!(insert_site(&mut sites, Site::new("github.com", 1, "Maximum")));
    assert!(!insert_site(&mut sites, Site::new("github.com", 2, "Long")));
    assert_eq!(sites, vec![Site::new("github.com", 1, "Maximum")]);
}

#[test]
fn replace_changes_the_first_of_a_name() {
    let mut sites =
        vec![Site::new("a", 1, "PIN"), Site::new("b", 1, "PIN"), Site::new("a", 2, "PIN")];
    assert!(replace_site(&mut sites, Site::new("a", 5, "Name")));
    assert_eq!(
        sites,
        vec![Site::new("a", 5, "Name"), Site::new("b", 1, "PIN"), Site::new("a", 2, "PIN")]
    );
}

#[test]
fn replace_without_a_record_changes_nothing() {
    let mut sites = vec![Site::new("a", 1, "PIN")];
    assert!(!replace_site(&mut sites, Site::new("b", 5, "Name")));
    assert_eq!(sites, vec![Site::new("a", 1, "PIN")]);
}

#[test]
fn remove_takes_every_record_of_the_name() {
    let mut sites =
        vec![Site::new("a", 1, "PIN"), Site::new("b", 1, "PIN"), Site::new("a", 2, "PIN")];
    remove_site(&mut sites, "a");
    assert_eq!(sites, vec![Site::new("b", 1, "PIN")]);
    remove_site(&mut sites, "b");
    assert_eq!(sites, Vec::<Site>::new());
}

#[test]
fn remove_of_an_absent_name_changes_nothing() {
    let mut sites = vec![Site::new("a", 1, "PIN"), Site::new("b", 1, "PIN")];
    remove_site(&mut sites, "c");
    assert_eq!(sites, vec![Site::new("a", 1, "PIN"), Site::new("b", 1, "PIN")]);
}

#[test]
fn matching_keeps_names_that_hold_the_fragment() {
    let mut sites = vec![
        Site::new("github.com", 1, "PIN"),
        Site::new("example.org", 1, "PIN"),
        Site::new("gitlab.com", 1, "PIN"),
    ];
    keep_matching(&mut sites, "git");
    assert_eq!(names(&sites), vec!["github.com", "gitlab.com"]);
    keep_matching(&mut sites, "");
    assert_eq!(names(&sites), vec!["github.com", "gitlab.com"]);
    keep_matching(&mut sites, "hub.c");
    assert_eq!(names(&sites), vec!["github.com"]);
    keep_matching(&mut sites, "Hub");
    assert_eq!(names(&sites), Vec::<&str>::new());
}

#[test]
fn sort_orders_by_code_points() {
    let mut sites = vec![
        Site::new("b", 1, "PIN"),
        Site::new("a", 1, "PIN"),
        Site::new("B", 1, "PIN"),
        Site::new("ab", 1, "PIN"),
        Site::new("", 1, "PIN"),
        Site::new("é", 1, "PIN"),
        Site::new("z", 1, "PIN"),
    ];
    sort_sites(&mut sites);
    assert_eq!(names(&sites), vec!["", "B", "a", "ab", "b", "z", "é"]);
}

#[test]
fn sort_keeps_the_order_of_one_name() {
    let mut sites = vec![
        Site::new("b", 1, "PIN"),
        Site::new("a", 1, "PIN"),
        Site::new("b", 2, "PIN"),
        Site::new("a", 2, "PIN"),
    ];
    sort_sites(&mut sites);
    assert_eq!(
        sites,
        vec![
            Site::new("a", 1, "PIN"),
            Site::new("a", 2, "PIN"),
            Site::new("b", 1, "PIN"),
            Site::new("b", 2, "PIN"),
        ]
    );
}

#[test]
fn sort_gives_what_std_gives() {
    let mut sites: Vec<Site> = ["pear", "Apple", "fig", "apple", "Fig", "banana", "fig", "10", "9"]
        .iter()
        .enumerate()
        .map(|(i, name)| Site::new(name, i as i32, "PIN"))
        .collect();
    let mut expected = sites.clone();
    expected.sort_by(|one, other| one.site_name.cmp(&other.site_name));
    sort_sites(&mut sites);
    assert_eq!(sites, expected);
}
