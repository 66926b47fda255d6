use homey::codec::parse_config;
use homey::codec::serialize_config;
use homey::icon::parse_icon_name;
use homey::icon::resolve_icon;
use homey::icon::resolve_label;
use homey::model::default_title;
use homey::model::Config;
use homey::model::LinkItem;
use homey::render::render_admin;
use homey::render::render_index;
use homey::store::ConfigStore;
use homey::workflow::finish_save;
use homey::workflow::prepare_save;
use homey::workflow::SaveError;

fn link(name: &str, url: &str, alt: Option<&str>, icon: Option<&str>) -> LinkItem {
    LinkItem {
        name: name.to_string(),
        url: url.to_string(),
        alt_name: alt.map(|s| s.to_string()),
        icon: icon.map(|s| s.to_string()),
    }
}

fn assert_same_config(a: &Config, b: &Config) {
    assert_eq!(a.title, b.title);
    assert_eq!(a.links.len(), b.links.len());
    for (x, y) in a.links.iter().zip(b.links.iter()) {
        assert_eq!(x.name, y.name);
        assert_eq!(x.url, y.url);
        assert_eq!(x.alt_name, y.alt_name);
        assert_eq!(x.icon, y.icon);
    }
}

#[test]
fn default_title_is_homey() {
    assert_eq!(default_title(), "Homey");
}

#[test]
fn parse_icon_name_lowercases_and_hyphenates() {
    assert_eq!(parse_icon_name("Plex Media".to_string()), "plex-media");
    assert_eq!(parse_icon_name("Files".to_string()), "files");
}

#[test]
fn icon_fallback_derives_cdn_url() {
    let l = link("Plex Media", "http://plex", None, None);
    let src = resolve_icon(&l);
    assert!(src.contains("plex-media"));
    assert_eq!(
        src,
        "https://cdn.jsdelivr.net/gh/selfhst/icons@main/webp/plex-media.webp"
    );
}

#[test]
fn explicit_icon_is_used_verbatim() {
    let l = link("Plex Media", "http://plex", None, Some("https://example/x.png"));
    assert_eq!(resolve_icon(&l), "https://example/x.png");
}

#[test]
fn label_falls_back_to_name() {
    let plain = link("Files", "http://nas", None, None);
    assert_eq!(resolve_label(&plain), "Files");
    let aliased = link("Files", "http://nas", Some("Storage"), None);
    assert_eq!(resolve_label(&aliased), "Storage");
}

#[test]
fn parse_accepts_compact_form() {
    let cfg = parse_config("{\"title\":\"Home\",\"links\":[{\"name\":\"Files\",\"url\":\"http://nas\"}]}")
        .expect("compact configuration should parse");
    assert_eq!(cfg.title, "Home");
    assert_eq!(cfg.links.len(), 1);
    assert_eq!(cfg.links[0].name, "Files");
    assert_eq!(cfg.links[0].url, "http://nas");
    assert_eq!(cfg.links[0].alt_name, None);
    assert_eq!(cfg.links[0].icon, None);
}

#[test]
fn missing_title_defaults_to_homey() {
    let cfg = parse_config("{\"links\":[]}").expect("title is optional");
    assert_eq!(cfg.title, "Homey");
    let page = render_index(&cfg);
    assert!(page.contains("<title>Homey</title>"));
}

#[test]
fn surrounding_whitespace_is_accepted_and_trailing_garbage_is_not() {
    let cfg = parse_config("  \n {\"links\":[]} \n ").expect("whitespace around the object is fine");
    assert_eq!(cfg.title, "Homey");
    assert!(parse_config("{\"links\":[]}x").is_none());
    assert!(parse_config("").is_none());
}

#[test]
fn missing_links_is_rejected() {
    assert!(parse_config("{}").is_none());
    assert!(parse_config("{\"title\":\"Home\"}").is_none());
    assert!(parse_config("{\"links\":[{\"url\":\"u\"}]}").is_none());
}

#[test]
fn null_optionals_parse_as_absent() {
    let cfg = parse_config(
        "{\"links\":[{\"name\":\"A\",\"url\":\"u\",\"altName\":null,\"icon\":null}]}",
    )
    .expect("null optionals are accepted");
    assert_eq!(cfg.links[0].alt_name, None);
    assert_eq!(cfg.links[0].icon, None);
}

#[test]
fn string_escapes_are_decoded() {
    let cfg = parse_config(
        "{\"links\":[{\"name\":\"a\\\"b\\\\c\",\"url\":\"x\\u0041\\n\\t\"}]}",
    )
    .expect("escapes are accepted");
    assert_eq!(cfg.links[0].name, "a\"b\\c");
    assert_eq!(cfg.links[0].url, "xA\n\t");
}

#[test]
fn invalid_escape_and_unpaired_surrogates_are_rejected() {
    assert!(parse_config("{\"links\":[{\"name\":\"\\q\",\"url\":\"u\"}]}").is_none());
    assert!(parse_config("{\"links\":[{\"name\":\"\\uD800\",\"url\":\"u\"}]}").is_none());
    assert!(parse_config("{\"links\":[{\"name\":\"\\uD800x\",\"url\":\"u\"}]}").is_none());
    assert!(parse_config("{\"links\":[{\"name\":\"\\uD800\\uD800\",\"url\":\"u\"}]}").is_none());
    assert!(parse_config("{\"links\":[{\"name\":\"\\uDE00\",\"url\":\"u\"}]}").is_none());
}

#[test]
fn surrogate_pair_escapes_decode_to_one_character() {
    let cfg = parse_config("{\"links\":[{\"name\":\"\\uD83D\\uDE00\",\"url\":\"u\"}]}")
        .expect("a surrogate pair is one escaped character");
    assert_eq!(cfg.links[0].name, "\u{1F600}");
    let canonical = serialize_config(&cfg);
    let again = parse_config(&canonical).expect("canonical text must parse");
    assert_eq!(again.links[0].name, "\u{1F600}");
}

#[test]
fn keys_parse_in_any_order() {
    let cfg = parse_config(
        "{\"links\":[{\"icon\":\"i\",\"url\":\"u\",\"altName\":\"A\",\"name\":\"a\"}],\"title\":\"X\"}",
    )
    .expect("schema keys are accepted in any order");
    assert_eq!(cfg.title, "X");
    assert_eq!(cfg.links[0].name, "a");
    assert_eq!(cfg.links[0].url, "u");
    assert_eq!(cfg.links[0].alt_name, Some("A".to_string()));
    assert_eq!(cfg.links[0].icon, Some("i".to_string()));
}

#[test]
fn repeated_keys_are_rejected() {
    assert!(parse_config("{\"links\":[],\"links\":[]}").is_none());
    assert!(parse_config("{\"title\":\"a\",\"title\":\"b\",\"links\":[]}").is_none());
    assert!(parse_config("{\"links\":[{\"name\":\"a\",\"name\":\"b\",\"url\":\"u\"}]}").is_none());
}

#[test]
fn raw_control_characters_are_rejected() {
    assert!(parse_config("{\"links\":[{\"name\":\"a\nb\",\"url\":\"u\"}]}").is_none());
}

#[test]
fn canonical_form_is_pretty_with_trailing_newline() {
    let plan = prepare_save("{\"title\":\"Home\",\"links\":[{\"name\":\"Files\",\"url\":\"http://nas\"}]}")
        .unwrap_or_else(|_| panic!("valid submission must be accepted"));
    let expected = "{\n  \"title\": \"Home\",\n  \"links\": [\n    {\n      \"name\": \"Files\",\n      \"url\": \"http://nas\",\n      \"altName\": null,\n      \"icon\": null\n    }\n  ]\n}\n";
    assert_eq!(plan.canonical, expected);
}

#[test]
fn canonical_round_trip_is_identity() {
    let texts = [
        "{\"title\":\"Home\",\"links\":[{\"name\":\"Files\",\"url\":\"http://nas\"}]}",
        "{\"links\":[]}",
        "{\"title\":\"T \\u0007 x\",\"links\":[{\"name\":\"a\\\"b\",\"url\":\"u\",\"altName\":\"A\",\"icon\":\"i\"},{\"name\":\"c\",\"url\":\"v\",\"icon\":null}]}",
    ];
    for text in texts {
        let once = parse_config(text).expect("test text should parse");
        let canonical = serialize_config(&once);
        let twice = parse_config(&canonical).expect("canonical text must parse");
        assert_same_config(&once, &twice);
        assert_eq!(serialize_config(&twice), canonical);
    }
}

#[test]
fn canonical_serialization_escapes_controls() {
    let cfg = Config {
        title: "a\u{7}b".to_string(),
        links: vec![],
    };
    let text = serialize_config(&cfg);
    assert!(text.contains("a\\u0007b"));
    let back = parse_config(&text).expect("canonical text must parse");
    assert_eq!(back.title, "a\u{7}b");
}

#[test]
fn keys_outside_the_schema_are_rejected() {
    assert!(parse_config("{\"links\":[],\"extra\":1}").is_none());
    assert!(parse_config("{\"links\":[{\"name\":\"a\",\"url\":\"u\",\"color\":\"red\"}]}").is_none());
}

#[test]
fn store_read_returns_full_snapshot() {
    let initial = parse_config("{\"title\":\"One\",\"links\":[{\"name\":\"a\",\"url\":\"u\"}]}").unwrap();
    let mut store = ConfigStore::new(initial);
    let before = store.read();
    assert_eq!(before.title, "One");
    let next = parse_config("{\"title\":\"Two\",\"links\":[]}").unwrap();
    store.replace(next);
    let after = store.read();
    assert_eq!(after.title, "Two");
    assert_eq!(after.links.len(), 0);
    // the earlier snapshot is untouched by the replacement
    assert_eq!(before.title, "One");
    assert_eq!(before.links.len(), 1);
}

#[test]
fn happy_path_save_commits_and_persists_canonically() {
    let boot = parse_config("{\"links\":[]}").unwrap();
    let mut store = ConfigStore::new(boot);
    let plan = prepare_save("{\"title\":\"Home\",\"links\":[{\"name\":\"Files\",\"url\":\"http://nas\"}]}")
        .unwrap_or_else(|_| panic!("valid submission must be accepted"));
    assert!(plan.canonical.ends_with("\n"));
    let outcome = finish_save(&mut store, plan.doc, None);
    assert!(outcome.is_ok());
    let live = store.read();
    assert_eq!(live.title, "Home");
    assert_eq!(live.links.len(), 1);
    let page = render_index(&live);
    assert!(page.contains("<span class=\"label\">Files</span>"));
    assert!(page.contains("<a href=\"http://nas\">"));
}

#[test]
fn invalid_submission_is_a_client_error_and_changes_nothing() {
    let boot = parse_config("{\"title\":\"Before\",\"links\":[]}").unwrap();
    let store = ConfigStore::new(boot);
    let rejected = prepare_save("not json");
    let err = match rejected {
        Ok(_) => panic!("'not json' must be rejected"),
        Err(e) => e,
    };
    assert!(err.is_client_error());
    assert!(matches!(err, SaveError::InvalidInput));
    let page = render_admin("not json", Some(&err.message()));
    assert!(page.contains(">not json</textarea>"));
    assert!(page.contains("Invalid JSON"));
    let live = store.read();
    assert_eq!(live.title, "Before");
    assert_eq!(live.links.len(), 0);
}

#[test]
fn failed_persistence_is_a_server_error_and_keeps_the_store() {
    let boot = parse_config("{\"title\":\"Before\",\"links\":[]}").unwrap();
    let mut store = ConfigStore::new(boot);
    let plan = prepare_save("{\"title\":\"After\",\"links\":[]}")
        .unwrap_or_else(|_| panic!("valid submission must be accepted"));
    let outcome = finish_save(&mut store, plan.doc, Some("disk full".to_string()));
    let err = match outcome {
        Ok(_) => panic!("a failed write must be reported"),
        Err(e) => e,
    };
    assert!(!err.is_client_error());
    assert!(matches!(err, SaveError::PersistenceError(_)));
    assert!(err.message().contains("disk full"));
    let live = store.read();
    assert_eq!(live.title, "Before");
}

#[test]
fn serialization_error_names_its_step() {
    // canonical serialization is total, so this kind is never produced by
    // prepare_save; it still carries its own message and severity
    let err = SaveError::SerializationError;
    assert!(!err.is_client_error());
    assert!(err.message().contains("serialize"));
}

#[test]
fn admin_page_shows_saved_notice_and_escapes_text() {
    let page = render_admin("{\"a\":\"<b>\"}", Some("Saved."));
    assert!(page.contains("<p class=\"notice\">Saved.</p>"));
    assert!(page.contains("&quot;&lt;b&gt;"));
    let quiet = render_admin("{}", None);
    assert!(!quiet.contains("notice"));
}

#[test]
fn index_renders_links_in_order() {
    let cfg = parse_config(
        "{\"title\":\"Home\",\"links\":[{\"name\":\"B\",\"url\":\"u1\"},{\"name\":\"A\",\"url\":\"u2\"}]}",
    )
    .unwrap();
    let page = render_index(&cfg);
    let b = page.find("<span class=\"label\">B</span>").expect("first link rendered");
    let a = page.find("<span class=\"label\">A</span>").expect("second link rendered");
    assert!(b < a, "links must keep their configured order");
}
