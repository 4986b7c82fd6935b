use forma::patch_browser::{
    browser_categories, lex_less, relevant_tags, CHARACTER_TAGS, GENRE_TAGS, INSPIRED_BY_TAGS, TIMBRE_TAGS,
    contains_name, favourite_indices, filter_patches, patch_matches, recent_indices, str_contains,
    toggle_name, BrowserFilters, PatchInfo, RECENT_SHOWN, category_chip, count_label, tag_line,
};

fn patch(name: &str, category: &str, tags: &[&str]) -> PatchInfo {
    PatchInfo {
        name: name.to_string(),
        category: category.to_string(),
        tags: tags.iter().map(|t| t.to_string()).collect(),
    }
}

fn library() -> Vec<PatchInfo> {
    vec![
        patch("Warm Pad", "Pads", &["warm", "lush"]),
        patch("Acid Bass", "Bass", &["raw", "analog"]),
        patch("Glass Bells", "Keys", &["bell", "bright", "glass"]),
        patch("Dark Drone", "Pads", &["dark", "drone"]),
        patch("Sub Bass", "Bass", &["dark", "analog"]),
    ]
}

fn s(x: &str) -> String {
    x.to_string()
}

#[test]
fn substring_search() {
    assert!(str_contains("warm pad", "pad"));
    assert!(str_contains("warm pad", ""));
    assert!(str_contains("", ""));
    assert!(!str_contains("", "a"));
    assert!(!str_contains("pa", "pad"));
    assert!(str_contains("aaab", "aab"));
    assert!(!str_contains("abc", "abd"));
}

#[test]
fn no_filters_list_everything() {
    let lib = library();
    assert_eq!(filter_patches(&lib, &s("All"), &s(""), &vec![]), vec![0, 1, 2, 3, 4]);
}

#[test]
fn category_filter() {
    let lib = library();
    assert_eq!(filter_patches(&lib, &s("Pads"), &s(""), &vec![]), vec![0, 3]);
    assert_eq!(filter_patches(&lib, &s("Brass"), &s(""), &vec![]), Vec::<usize>::new());
}

#[test]
fn search_ignores_case_on_names_and_categories() {
    let lib = library();
    assert_eq!(filter_patches(&lib, &s("All"), &s("BASS"), &vec![]), vec![1, 4]);
    assert_eq!(filter_patches(&lib, &s("All"), &s("pads"), &vec![]), vec![0, 3]);
    // tags are matched against the lowercased search text
    assert_eq!(filter_patches(&lib, &s("All"), &s("Analog"), &vec![]), vec![1, 4]);
    assert_eq!(filter_patches(&lib, &s("All"), &s("glass"), &vec![]), vec![2]);
}

#[test]
fn tag_filter_needs_every_tag() {
    let lib = library();
    assert_eq!(filter_patches(&lib, &s("All"), &s(""), &vec![s("dark")]), vec![3, 4]);
    assert_eq!(filter_patches(&lib, &s("All"), &s(""), &vec![s("dark"), s("analog")]), vec![4]);
    assert_eq!(filter_patches(&lib, &s("Pads"), &s("dark"), &vec![s("drone")]), vec![3]);
    assert!(patch_matches(&lib[2], &s("Keys"), &s("bell"), &vec![s("bright")]));
    assert!(!patch_matches(&lib[2], &s("Keys"), &s("bell"), &vec![s("dark")]));
}

#[test]
fn favourites_and_recent_sections() {
    let lib = library();
    let filtered = filter_patches(&lib, &s("All"), &s(""), &vec![]);
    let favs = vec![s("Sub Bass"), s("Warm Pad"), s("Missing")];
    assert_eq!(favourite_indices(&lib, &filtered, &favs), vec![0, 4]);
    let recent = vec![s("Dark Drone"), s("Nope"), s("Acid Bass"), s("Dark Drone")];
    assert_eq!(recent_indices(&lib, &filtered, &recent), vec![3, 1, 3]);
    let pads = filter_patches(&lib, &s("Pads"), &s(""), &vec![]);
    assert_eq!(recent_indices(&lib, &pads, &recent), vec![3, 3]);
    let many: Vec<String> = (0..10).map(|_| s("Warm Pad")).collect();
    assert_eq!(recent_indices(&lib, &filtered, &many).len(), RECENT_SHOWN);
}

#[test]
fn toggling_names() {
    let mut favs: Vec<String> = vec![s("a"), s("b")];
    toggle_name(&mut favs, s("c"));
    assert!(contains_name(&favs, &s("c")));
    assert_eq!(favs.len(), 3);
    toggle_name(&mut favs, s("a"));
    assert!(!contains_name(&favs, &s("a")));
    assert_eq!(favs.len(), 2);
    toggle_name(&mut favs, s("a"));
    let mut sorted = favs.clone();
    sorted.sort();
    assert_eq!(sorted, vec![s("a"), s("b"), s("c")]);
}

#[test]
fn clearing_filters() {
    let lib = library();
    let mut f = BrowserFilters { category: s("Bass"), search: s(""), active_tags: vec![s("raw")] };
    assert_eq!(f.matching(&lib), vec![1]);
    f.clear_filters();
    assert_eq!(f.category, "All");
    assert!(f.active_tags.is_empty());
    assert_eq!(f.matching(&lib), vec![0, 1, 2, 3, 4]);
}

#[test]
fn category_list_starts_with_all_then_sorted() {
    let lib = library();
    assert_eq!(browser_categories(&lib), vec![s("All"), s("Bass"), s("Keys"), s("Pads")]);
    assert_eq!(browser_categories(&vec![]), vec![s("All")]);
    let odd = vec![patch("z", "zeta", &[]), patch("a", "Alpha", &[]), patch("b", "alpha", &[])];
    assert_eq!(browser_categories(&odd), vec![s("All"), s("Alpha"), s("alpha"), s("zeta")]);
}

#[test]
fn lexicographic_order() {
    assert!(lex_less(&s("Bass"), &s("Keys")));
    assert!(!lex_less(&s("Keys"), &s("Bass")));
    assert!(lex_less(&s("Pad"), &s("Pads")));
    assert!(!lex_less(&s("Pads"), &s("Pads")));
    assert!(lex_less(&s(""), &s("a")));
    assert!(lex_less(&s("Z"), &s("a")));
}

#[test]
fn sidebar_tag_groups() {
    let lib = library();
    let character: Vec<String> = CHARACTER_TAGS.iter().map(|t| t.to_string()).collect();
    assert_eq!(relevant_tags(&character, &lib), vec![s("warm"), s("dark"), s("bright"), s("lush"), s("raw"), s("drone")]);
    let genre: Vec<String> = GENRE_TAGS.iter().map(|t| t.to_string()).collect();
    assert!(relevant_tags(&genre, &lib).is_empty());
    let inspired: Vec<String> = INSPIRED_BY_TAGS.iter().map(|t| t.to_string()).collect();
    assert_eq!(relevant_tags(&inspired, &lib), vec![s("glass")]);
    assert_eq!(TIMBRE_TAGS.len(), 10);
}

#[test]
fn patch_row_texts() {
    assert_eq!(category_chip(&"Pad".to_string()), "[Pad]");
    assert_eq!(tag_line(&vec![]), "");
    assert_eq!(tag_line(&vec!["warm".to_string()]), "warm");
    assert_eq!(
        tag_line(&vec!["warm".to_string(), "eno".to_string(), "glass".to_string()]),
        "warm · eno · glass"
    );
}

#[test]
fn count_line_and_sidebar_clicks() {
    assert_eq!(count_label(3, 120), "3 / 120 patches");
    assert_eq!(count_label(0, 0), "0 / 0 patches");
    assert_eq!(count_label(10, 1005), "10 / 1005 patches");
    let mut f = BrowserFilters { category: "All".to_string(), search: "pad".to_string(), active_tags: vec![] };
    f.select_category("Bass".to_string());
    assert_eq!(f.category, "Bass");
    f.toggle_tag("warm".to_string());
    f.toggle_tag("eno".to_string());
    assert_eq!(f.active_tags.len(), 2);
    f.toggle_tag("warm".to_string());
    assert_eq!(f.active_tags, vec!["eno".to_string()]);
    assert_eq!(f.search, "pad");
}
