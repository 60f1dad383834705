use daemon_framework::json::{Json, JsonNumber};
use daemon_framework::search::{
    allowed_typos, fuzzy_score, item_match, match_score, rank, rank_matches, search_error, token_score,
    try_rank, typo_score, RankedItem, SearchItem, SearchRequest,
};
use daemon_framework::sorted_map::SortedMap;
use daemon_framework::text::{decimal_text, same_text, text_before};
use daemon_framework::unicode::{find, find_char, fold, normalize, starts_with, trim, words};

fn item(key: &str, title: &str) -> SearchItem {
    SearchItem {
        key: key.into(),
        title: title.into(),
        subtitle: String::new(),
        keywords: Vec::new(),
        score: 0,
        provider_priority: 0,
    }
}

fn keys(query: &str, items: Vec<SearchItem>) -> Vec<String> {
    rank(SearchRequest { owner: "test".into(), generation: 1, query: query.into(), items }).keys
}

#[test]
fn finds_middle_substrings_and_ordered_characters() {
    assert_eq!(keys("fox", vec![item("firefox", "Mozilla Firefox")]), ["firefox"]);
    assert_eq!(keys("ffx", vec![item("firefox", "Firefox")]), ["firefox"]);
}

#[test]
fn tolerates_omissions_substitutions_and_transpositions() {
    let values = vec![item("firefox", "Firefox"), item("files", "Files")];
    assert_eq!(keys("firfox", values), ["firefox"]);
    for (query, key, title) in
        [("chorme", "chrome", "Google Chrome"), ("firwfox", "firefox", "Firefox")]
    {
        assert_eq!(keys(query, vec![item(key, title)]), [key]);
    }
}

#[test]
fn all_tokens_must_match_and_strong_matches_rank_first() {
    let values = vec![
        item("code", "Visual Studio Code"),
        item("codium", "VSCodium"),
        item("contacts", "Google Contacts"),
    ];
    assert_eq!(keys("studio code", values), ["code"]);
    let ranked = keys("code", vec![item("middle", "Barcode Tool"), item("exact", "Code")]);
    assert_eq!(ranked, ["exact", "middle"]);
}

#[test]
fn normalizes_diacritics_without_matching_unrelated_items() {
    assert_eq!(keys("cafe", vec![item("cafe", "Café")]), ["cafe"]);
    assert!(keys("terminal", vec![item("files", "Files")]).is_empty());
}

#[test]
fn texts_are_folded_split_and_trimmed() {
    assert_eq!(normalize("CAFÉ ﬁx ①"), "cafe fix 1");
    assert_eq!(fold("E\u{301}Ω"), "eω");
    assert_eq!(words("a-b  c_d9!"), ["a", "b", "c", "d9"]);
    assert!(words(" -- ").is_empty());
    assert_eq!(trim("\u{2003} a b\n"), "a b");
    assert_eq!(trim("  "), "");
    assert!(starts_with("café", "caf"));
    assert!(starts_with("x", ""));
    assert!(!starts_with("ca", "caf"));
    assert_eq!(find_char("ééx", "x"), Some(2));
    assert_eq!(find("ééx", "x"), Some(4));
    assert_eq!(find("abab", "ba"), Some(1));
    assert_eq!(find("abab", "c"), None);
    assert_eq!(find("", ""), Some(0));
    assert!(text_before("a", "b") && text_before("a", "ab") && !text_before("b", "a"));
    assert!(!text_before("a", "a") && same_text("é", "é") && !same_text("e", "é"));
    assert_eq!(decimal_text(0), "0");
    assert_eq!(decimal_text(1205), "1205");
}

#[test]
fn tokens_score_by_the_strength_of_their_match() {
    assert_eq!(token_score("code", "code"), Some(14_000));
    assert_eq!(token_score("codex", "code"), Some(12_495));
    assert_eq!(token_score(&"c".repeat(900), "c"), Some(12_000));
    assert_eq!(token_score("visual studio code", "code"), Some(11_460));
    assert_eq!(token_score("a barcode", "code"), Some(9_995));
    assert_eq!(token_score("éé barcode", "code"), Some(9_992));
    assert_eq!(token_score("files", "terminal"), None);
    assert_eq!(token_score("google chrome", "chorme"), Some(8_100));
    assert!(token_score("firefox", "ffx").unwrap() > 7_000);
    assert_eq!(token_score("aaaa", "bbbb"), None);
}

#[test]
fn typos_cost_by_distance_and_length() {
    for (length, limit) in [(0, 0), (3, 0), (4, 1), (6, 1), (7, 2), (10, 2), (11, 3), (99, 3)] {
        assert_eq!(allowed_typos(length), limit);
    }
    assert_eq!(fuzzy_score(Some(50)), Some(7_050));
    assert_eq!(fuzzy_score(None), None);
    assert_eq!(typo_score(1, 7, 6), Some(8_075));
    assert_eq!(typo_score(1, 5, 6), Some(8_075));
    assert_eq!(typo_score(2, 6, 6), None);
    assert_eq!(typo_score(3, 11, 11), Some(6_300));
}

#[test]
fn fields_weigh_differently_and_whole_titles_add_a_bonus() {
    let none: Vec<String> = Vec::new();
    assert_eq!(match_score("code", "", &none, "code"), Some(14_000 + 1_800 + 20_000));
    assert_eq!(match_score("codex", "", &none, "code"), Some(12_495 + 1_800 + 12_000));
    assert_eq!(match_score("barcode", "", &none, "code"), Some(9_997 + 1_800 + 8_000));
    assert_eq!(match_score("", "code", &none, "code"), Some(14_000 + 600));
    let keywords = vec!["codex".to_owned(), "code".to_owned(), "files".to_owned()];
    assert_eq!(match_score("", "", &keywords, "code"), Some(14_000));
    assert_eq!(match_score("files", "", &none, "code"), None);
    assert_eq!(match_score("visual code", "", &none, "visual zzzzzz"), None);
    assert_eq!(match_score("files", "", &none, ""), Some(0));
    assert_eq!(match_score("files", "", &none, "--"), Some(0));
    let matched = item_match(&item("k", "CAFÉ"), "cafe").unwrap();
    assert_eq!(matched, (35_800, "cafe".to_owned()));
    assert_eq!(item_match(&item("k", "CAFÉ"), ""), Some((0, "cafe".to_owned())));
}

#[test]
fn ties_are_broken_by_score_priority_title_and_key() {
    let ranked = |key: &str, title: &str, match_score, score, provider_priority| RankedItem {
        item: SearchItem { score, provider_priority, ..item(key, title) },
        normalized_title: title.to_owned(),
        match_score,
    };
    let order: Vec<_> = rank_matches(vec![
        ranked("g", "b", 1, 1, 1),
        ranked("f", "a", 1, 1, 1),
        ranked("e", "a", 1, 1, 1),
        ranked("d", "z", 1, 1, 2),
        ranked("c", "z", 1, 2, 0),
        ranked("b", "z", 2, 0, 0),
        ranked("e", "a", 1, 1, 1),
    ])
    .into_iter()
    .map(|ranked| ranked.item.key)
    .collect();
    assert_eq!(order, ["b", "c", "d", "e", "e", "f", "g"]);
}

#[test]
fn empty_queries_keep_everything_in_any_order_of_items() {
    let values = || {
        vec![
            SearchItem { score: 5, ..item("b", "Beta") },
            SearchItem { provider_priority: 9, ..item("c", "Gamma") },
            item("a", "Alpha"),
        ]
    };
    assert_eq!(keys("  ", values()), ["b", "c", "a"]);
    let mut reversed = values();
    reversed.reverse();
    assert_eq!(keys("", reversed), ["b", "c", "a"]);
}

#[test]
fn requests_keep_their_owner_and_generation() {
    let request = SearchRequest {
        owner: "launcher".into(),
        generation: 12,
        query: " Fire ".into(),
        items: vec![item("firefox", "Firefox"), item("files", "Files")],
    };
    let response = try_rank(request).unwrap();
    assert_eq!(response.owner, "launcher");
    assert_eq!(response.generation, 12);
    assert_eq!(response.keys, ["firefox"]);
}

#[test]
fn unreadable_requests_are_answered() {
    let Json::Object(members) = search_error("eof") else { panic!("an object") };
    assert_eq!(members.len(), 1);
    assert_eq!(members.get("error"), Some(&Json::from_text("invalid search request: eof")));
}

#[test]
fn maps_keep_their_keys_in_order() {
    let mut map = SortedMap::new();
    assert_eq!(map.insert("b".to_owned(), 1), None);
    assert_eq!(map.insert("a".to_owned(), 2), None);
    assert_eq!(map.insert("b".to_owned(), 3), Some(1));
    assert_eq!((map.key_at(0).as_str(), *map.value_at(0)), ("a", 2));
    assert_eq!((map.key_at(1).as_str(), *map.value_at(1)), ("b", 3));
    *map.get_mut("a").unwrap() = 7;
    assert_eq!(map.get("a"), Some(&7));
    assert!(map.contains_key("b") && !map.contains_key("c"));
    assert_eq!(map.remove("b"), Some(3));
    assert_eq!(map.remove("b"), None);
    assert_eq!(map.len(), 1);
    assert_eq!(map.remove_at(0), ("a".to_owned(), 7));
    assert_eq!(Json::from_unsigned(3), Json::Number(JsonNumber::Unsigned(3)));
}

/// The least number of edits between two texts, where no part is edited twice.
fn distance(a: &[char], b: &[char]) -> usize {
    let (Some((x, front)), Some((y, back))) = (a.split_last(), b.split_last()) else {
        return a.len() + b.len();
    };
    let edited = (distance(front, b).min(distance(a, back)) + 1)
        .min(distance(front, back) + usize::from(x != y));
    match (front.split_last(), back.split_last()) {
        (Some((before_x, front)), Some((before_y, back)))
            if x != y && x == before_y && y == before_x =>
        {
            edited.min(distance(front, back) + 1)
        }
        _ => edited,
    }
}

#[test]
fn distances_count_edits() {
    let mut texts = vec![String::new()];
    for i in 0..40 {
        for c in ['a', 'b', 'é'] {
            texts.push(format!("{}{c}", texts[i]));
        }
    }
    for a in &texts {
        for b in &texts {
            let (x, y): (Vec<_>, Vec<_>) = (a.chars().collect(), b.chars().collect());
            assert_eq!(strsim::osa_distance(a, b), distance(&x, &y), "{a} {b}");
        }
    }
    assert_eq!(strsim::osa_distance("ab", "bca"), 3);
}

#[test]
fn single_slips_are_tolerated() {
    for (word, token) in [
        ("firefox", "firfox"),
        ("firefox", "firrefox"),
        ("firefox", "firwfox"),
        ("firefox", "fierfox"),
        ("code", "cdoe"),
    ] {
        assert!(token_score(&format!("the {word} app"), token).is_some(), "{word} {token}");
    }
    assert_eq!(token_score("abc", "acb"), None);
}

#[test]
fn ranked_items_keep_their_fields() {
    let described = SearchItem {
        subtitle: "Browser".into(),
        keywords: vec!["web".into()],
        ..item("firefox", "Firefox")
    };
    let expected = SearchItem {
        subtitle: "Browser".into(),
        keywords: vec!["web".into()],
        ..item("firefox", "Firefox")
    };
    let ranked = rank_matches(vec![RankedItem {
        item: described,
        normalized_title: "firefox".into(),
        match_score: 1,
    }]);
    assert_eq!(ranked[0].item, expected);
}
