use content_registry::listing::{select_owned, select_page};
use content_registry::ident::next_content_id;
use content_registry::{
    execute, execute_add_translation, execute_register_content, instantiate, list_content, query,
    query_content, query_content_by_owner, Content, ContractError, ExecuteMsg, ExecuteOutcome,
    InstantiateMsg, QueryMsg, QueryResponse, Registry,
};

fn s(x: &str) -> String {
    x.to_string()
}

fn langs(xs: &[&str]) -> Vec<String> {
    xs.iter().map(|x| x.to_string()).collect()
}

fn fresh() -> Registry {
    instantiate(InstantiateMsg { owner: s("admin") })
}

fn register(r: &mut Registry, sender: &str, title: &str, targets: &[&str]) -> String {
    execute_register_content(
        r,
        s(sender),
        1000,
        s(title),
        s("description"),
        s("text/plain"),
        s("hash"),
        langs(targets),
    )
}

fn ids_of(contents: &[Content]) -> Vec<String> {
    contents.iter().map(|c| c.title.clone()).collect()
}

#[test]
fn instantiate_sets_owner_and_zero_counter() {
    let r = fresh();
    assert_eq!(r.config().owner, "admin");
    assert_eq!(r.count(), 0);
    assert!(list_content(&r, None, None).contents.is_empty());
}

#[test]
fn identifiers_count_up_in_decimal() {
    let mut r = fresh();
    let mut ids = Vec::new();
    for k in 0..12 {
        let sender = if k % 2 == 0 { "alice" } else { "bob" };
        ids.push(register(&mut r, sender, "t", &["fr"]));
    }
    let expected: Vec<String> = (1..=12).map(|k: u32| k.to_string()).collect();
    assert_eq!(ids, expected);
    assert_eq!(r.count(), 12);
    let mut sorted = ids.clone();
    sorted.sort();
    sorted.dedup();
    assert_eq!(sorted.len(), 12);
}

#[test]
fn next_id_is_decimal_of_advanced_counter() {
    assert_eq!(next_content_id(0), (1, s("1")));
    assert_eq!(next_content_id(9), (10, s("10")));
    assert_eq!(next_content_id(41), (42, s("42")));
    assert_eq!(next_content_id(u64::MAX - 1), (u64::MAX, s("18446744073709551615")));
}

#[test]
fn fresh_record_has_no_translations_and_registration_time() {
    let mut r = fresh();
    let id = execute_register_content(
        &mut r,
        s("alice"),
        1234,
        s("Title"),
        s("Desc"),
        s("video"),
        s("Qm1"),
        langs(&["fr", "fr", "de"]),
    );
    assert_eq!(id, "1");
    let c = query_content(&r, id).unwrap().content;
    assert!(c.translations.is_empty());
    assert_eq!(c.created_at, 1234);
    assert_eq!(c.owner, "alice");
    assert_eq!(c.title, "Title");
    assert_eq!(c.description, "Desc");
    assert_eq!(c.content_type, "video");
    assert_eq!(c.content_hash, "Qm1");
    assert_eq!(c.target_languages, langs(&["fr", "fr", "de"]));
}

#[test]
fn empty_target_languages_accepted() {
    let mut r = fresh();
    let id = register(&mut r, "alice", "t", &[]);
    assert_eq!(id, "1");
    let res = execute_add_translation(&mut r, s("bob"), 5, s("1"), s("fr"), s("h"));
    assert_eq!(res, Err(ContractError::InvalidLanguage));
}

#[test]
fn untargeted_language_refused_and_nothing_changes() {
    let mut r = fresh();
    register(&mut r, "alice", "t", &["fr", "de"]);
    let before = query_content(&r, s("1")).unwrap().content;
    let res = execute_add_translation(&mut r, s("bob"), 2000, s("1"), s("es"), s("h"));
    assert_eq!(res, Err(ContractError::InvalidLanguage));
    assert_eq!(query_content(&r, s("1")).unwrap().content, before);
}

#[test]
fn second_translation_refused_and_nothing_changes() {
    let mut r = fresh();
    register(&mut r, "alice", "t", &["fr", "de"]);
    assert_eq!(execute_add_translation(&mut r, s("bob"), 2000, s("1"), s("fr"), s("h1")), Ok(()));
    let before = query_content(&r, s("1")).unwrap().content;
    let res = execute_add_translation(&mut r, s("carol"), 3000, s("1"), s("fr"), s("h2"));
    assert_eq!(res, Err(ContractError::DuplicateTranslation));
    assert_eq!(query_content(&r, s("1")).unwrap().content, before);
}

#[test]
fn unknown_content_not_found() {
    let mut r = fresh();
    register(&mut r, "alice", "t", &["fr"]);
    let res = execute_add_translation(&mut r, s("bob"), 2000, s("2"), s("fr"), s("h"));
    assert_eq!(res, Err(ContractError::NotFound));
    assert_eq!(query_content(&r, s("2")), Err(ContractError::NotFound));
    assert_eq!(query_content(&r, s("")), Err(ContractError::NotFound));
}

#[test]
fn accepted_translation_appends_one_entry() {
    let mut r = fresh();
    register(&mut r, "alice", "t", &["fr", "de"]);
    assert_eq!(execute_add_translation(&mut r, s("bob"), 2000, s("1"), s("fr"), s("h1")), Ok(()));
    assert_eq!(execute_add_translation(&mut r, s("carol"), 3000, s("1"), s("de"), s("h2")), Ok(()));
    let c = query_content(&r, s("1")).unwrap().content;
    assert_eq!(c.translations.len(), 2);
    assert_eq!(c.translations[0].language, "fr");
    assert_eq!(c.translations[0].content_hash, "h1");
    assert_eq!(c.translations[0].translator, "bob");
    assert_eq!(c.translations[0].created_at, 2000);
    assert_eq!(c.translations[1].language, "de");
    assert_eq!(c.translations[1].content_hash, "h2");
    assert_eq!(c.translations[1].translator, "carol");
    assert_eq!(c.translations[1].created_at, 3000);
    assert_eq!(c.owner, "alice");
}

#[test]
fn translation_touches_only_its_record() {
    let mut r = fresh();
    register(&mut r, "alice", "a", &["fr"]);
    register(&mut r, "alice", "b", &["fr"]);
    assert_eq!(execute_add_translation(&mut r, s("bob"), 7, s("2"), s("fr"), s("h")), Ok(()));
    assert!(query_content(&r, s("1")).unwrap().content.translations.is_empty());
    assert_eq!(query_content(&r, s("2")).unwrap().content.translations.len(), 1);
}

#[test]
fn default_listing_is_lexicographic_and_capped_at_thirty() {
    let mut r = fresh();
    for k in 1..=35u32 {
        register(&mut r, "alice", &k.to_string(), &["fr"]);
    }
    let page = list_content(&r, None, None).contents;
    assert_eq!(page.len(), 30);
    let mut all: Vec<String> = (1..=35u32).map(|k| k.to_string()).collect();
    all.sort();
    assert_eq!(ids_of(&page), all[..30].to_vec());
    assert_eq!(ids_of(&page)[..4], [s("1"), s("10"), s("11"), s("12")]);
}

#[test]
fn listing_with_limit() {
    let mut r = fresh();
    for k in 1..=12u32 {
        register(&mut r, "alice", &k.to_string(), &["fr"]);
    }
    let page = list_content(&r, None, Some(3)).contents;
    assert_eq!(ids_of(&page), vec![s("1"), s("10"), s("11")]);
    assert!(list_content(&r, None, Some(0)).contents.is_empty());
    assert_eq!(list_content(&r, None, Some(100)).contents.len(), 12);
}

#[test]
fn listing_starts_strictly_after() {
    let mut r = fresh();
    for k in 1..=12u32 {
        register(&mut r, "alice", &k.to_string(), &["fr"]);
    }
    let page = list_content(&r, Some(s("5")), None).contents;
    assert_eq!(ids_of(&page), vec![s("6"), s("7"), s("8"), s("9")]);
    let page = list_content(&r, Some(s("1")), Some(2)).contents;
    assert_eq!(ids_of(&page), vec![s("10"), s("11")]);
    let page = list_content(&r, Some(s("0")), Some(1)).contents;
    assert_eq!(ids_of(&page), vec![s("1")]);
    assert!(list_content(&r, Some(s("9")), None).contents.is_empty());
}

#[test]
fn owner_query_filters_in_identifier_order() {
    let mut r = fresh();
    for k in 1..=11u32 {
        let sender = if k % 2 == 0 { "bob" } else { "alice" };
        register(&mut r, sender, &k.to_string(), &["fr"]);
    }
    let mine = query_content_by_owner(&r, s("bob")).contents;
    assert_eq!(ids_of(&mine), vec![s("10"), s("2"), s("4"), s("6"), s("8")]);
    assert!(mine.iter().all(|c| c.owner == "bob"));
    assert!(query_content_by_owner(&r, s("nobody")).contents.is_empty());
}

#[test]
fn scan_helpers_on_given_entries() {
    let mut r = fresh();
    register(&mut r, "alice", "a", &["fr"]);
    let c = query_content(&r, s("1")).unwrap().content;
    let mut other = c.clone();
    other.owner = s("bob");
    let entries = vec![(s("a"), c.clone()), (s("b"), other.clone()), (s("c"), c.clone())];
    assert_eq!(select_page(&entries, &Some(s("a")), Some(1)), vec![other.clone()]);
    assert_eq!(select_page(&entries, &None, None).len(), 3);
    assert_eq!(select_owned(&entries, &s("alice")), vec![c.clone(), c.clone()]);
}

#[test]
fn content_add_translation_rules() {
    let mut c = Content::fresh(s("o"), 1, s("t"), s("d"), s("ty"), s("h"), langs(&["fr"]));
    assert_eq!(c.add_translation(s("x"), 2, s("de"), s("h1")), Err(ContractError::InvalidLanguage));
    assert_eq!(c.add_translation(s("x"), 2, s("fr"), s("h1")), Ok(()));
    assert_eq!(c.add_translation(s("y"), 3, s("fr"), s("h2")), Err(ContractError::DuplicateTranslation));
    assert_eq!(c.translations.len(), 1);
    assert_eq!(c.translations[0].translator, "x");
}

#[test]
fn worked_example() {
    let mut r = fresh();
    let out = execute(
        &mut r,
        s("alice"),
        100,
        ExecuteMsg::RegisterContent {
            title: s("t"),
            description: s("d"),
            content_type: s("text"),
            content_hash: s("h0"),
            target_languages: langs(&["fr", "de"]),
        },
    );
    assert_eq!(out, Ok(ExecuteOutcome::Registered { content_id: s("1"), owner: s("alice") }));
    let add = |lang: &str| ExecuteMsg::AddTranslation {
        content_id: s("1"),
        language: s(lang),
        content_hash: s("h1"),
    };
    assert_eq!(
        execute(&mut r, s("bob"), 200, add("fr")),
        Ok(ExecuteOutcome::Translated { content_id: s("1"), language: s("fr") })
    );
    assert_eq!(execute(&mut r, s("bob"), 300, add("fr")), Err(ContractError::DuplicateTranslation));
    assert_eq!(execute(&mut r, s("bob"), 400, add("es")), Err(ContractError::InvalidLanguage));
}

#[test]
fn query_dispatch() {
    let mut r = fresh();
    register(&mut r, "alice", "a", &["fr"]);
    register(&mut r, "bob", "b", &["fr"]);
    match query(&r, QueryMsg::GetContent { content_id: s("2") }) {
        Ok(QueryResponse::Content(resp)) => assert_eq!(resp.content.title, "b"),
        other => panic!("unexpected {:?}", other),
    }
    assert_eq!(query(&r, QueryMsg::GetContent { content_id: s("3") }), Err(ContractError::NotFound));
    match query(&r, QueryMsg::ListContent { start_after: Some(s("1")), limit: None }) {
        Ok(QueryResponse::List(l)) => assert_eq!(ids_of(&l.contents), vec![s("b")]),
        other => panic!("unexpected {:?}", other),
    }
    match query(&r, QueryMsg::GetContentByOwner { owner: s("alice") }) {
        Ok(QueryResponse::List(l)) => assert_eq!(ids_of(&l.contents), vec![s("a")]),
        other => panic!("unexpected {:?}", other),
    }
}
