use porcelain::search::{build_match_query, is_hash_like, parse_date, parse_query, plan_search, ParsedQuery, SearchPlan};

#[test]
fn dias_desde_epoca_bate_com_datas_conhecidas() {
    assert_eq!(parse_date("1970-01-01"), Some(0));
    assert_eq!(parse_date("1970-01-02"), Some(86_400));
    assert_eq!(parse_date("1969-12-31"), Some(-86_400));
    assert_eq!(parse_date("2000-03-01"), Some(951_868_800));
    assert_eq!(parse_date("lixo"), None);
    assert_eq!(parse_date("2024-13-01"), None);
}

#[test]
fn dates_cross_leap_days_and_eras() {
    assert_eq!(parse_date("2000-02-29"), Some(951_782_400));
    assert_eq!(parse_date("1900-03-01"), Some(-2_203_891_200));
    assert_eq!(parse_date("2024-01-01-01"), None);
    assert_eq!(parse_date("2024-01"), None);
    assert_eq!(parse_date("2024-00-10"), None);
    assert_eq!(parse_date("2024-01-32"), None);
    // Past what seconds in an i64 hold.
    assert_eq!(parse_date("9223372036854775807-01-01"), None);
}

#[test]
fn the_fts_expression_quotes_every_word_and_prefixes_the_last() {
    assert_eq!(build_match_query("   "), None);
    assert_eq!(build_match_query("parser").as_deref(), Some("\"parser\"*"));
    assert_eq!(
        build_match_query("fix AND \"x -y").as_deref(),
        Some("\"fix\" \"AND\" \"\"\"x\" \"-y\"*")
    );
}

#[test]
fn hashes_are_four_to_forty_hex_digits() {
    assert!(is_hash_like("cafe"));
    assert!(is_hash_like("0B61C6F"));
    assert!(!is_hash_like("caf"));
    assert!(!is_hash_like("cafe babe"));
    assert!(!is_hash_like(&"a".repeat(41)));
}

#[test]
fn the_unified_syntax_splits_filters_from_text() {
    assert_eq!(
        parse_query("parser autor:ana depois:2024-01-01 antes:2024-02-01 lento"),
        ParsedQuery {
            text: Some("parser lento".to_owned()),
            author: Some("ana".to_owned()),
            after: Some(1_704_067_200),
            before: Some(1_706_745_600),
        }
    );
    // An empty author is dropped; a bad date clears its filter.
    assert_eq!(
        parse_query("autor: depois:ontem"),
        ParsedQuery { text: None, author: None, after: None, before: None }
    );
}

#[test]
fn the_plan_picks_hash_text_or_filters() {
    assert_eq!(plan_search("  "), SearchPlan::Nothing);
    assert_eq!(
        plan_search(" 0B61C6F "),
        SearchPlan::HashPrefix { pattern: "0b61c6f%".to_owned() }
    );
    assert_eq!(
        plan_search("parser autor:ana"),
        SearchPlan::FullText {
            match_query: "\"parser\"*".to_owned(),
            author_like: Some("%ana%".to_owned()),
            after: None,
            before: None,
        }
    );
    assert_eq!(
        plan_search("antes:1970-01-02"),
        SearchPlan::Recent { author_like: None, after: None, before: Some(86_400) }
    );
}

#[test]
fn the_calendar_has_no_gap_across_months_years_and_leap_days() {
    let day = |s: &str| parse_date(s).unwrap();
    assert_eq!(day("2024-02-29") + 86_400, day("2024-03-01"));
    assert_eq!(day("2023-02-28") + 86_400, day("2023-03-01"));
    assert_eq!(day("2000-02-29") + 86_400, day("2000-03-01"));
    assert_eq!(day("1900-02-28") + 86_400, day("1900-03-01"));
    assert_eq!(day("2023-12-31") + 86_400, day("2024-01-01"));
    assert_eq!(day("1969-12-31"), -86_400);
    assert_eq!(day("2024-04-30") + 86_400, day("2024-05-01"));
}

#[test]
fn busca_vazia_nao_toca_o_banco() {
    assert!(matches!(plan_search(""), SearchPlan::Nothing));
    assert!(matches!(plan_search("   "), SearchPlan::Nothing));
}

#[test]
fn autor_vazio_ou_data_invalida_e_ignorado_sem_erro() {
    let parsed = parse_query("autor: depois:nao-e-data bug");
    assert_eq!(parsed.author, None);
    assert_eq!(parsed.after, None);
    assert_eq!(parsed.text.as_deref(), Some("bug"));
}
