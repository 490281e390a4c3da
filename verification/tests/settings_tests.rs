use xquery_lsp::handlers::initial_settings;
use xquery_lsp::json::Json;
use xquery_lsp::settings::{
    auth_header, make_base_path, settings_from_config, settings_from_options, ExistConfig, ServerEntry, Settings,
    SyncEntry,
};

fn s(t: &str) -> String {
    String::from(t)
}

fn server(uri: &str, user: &str, password: &str, root: Option<&str>) -> ServerEntry {
    ServerEntry { server: s(uri), user: s(user), password: s(password), root: root.map(s) }
}

#[test]
fn default_settings() {
    let d = Settings::default();
    assert_eq!(d.uri, "http://localhost:8080/exist");
    assert_eq!(d.user, "admin");
    assert_eq!(d.password, "");
    assert_eq!(d.db_path, "");
}

#[test]
fn options_override_defaults() {
    let opts = Json::Object {
        members: vec![
            (s("server"), Json::Str(s("http://db:8443/exist"))),
            (s("path"), Json::Str(s("/db/apps/x"))),
            (s("user"), Json::Bool(true)),
        ],
        rendered: s("{}"),
    };
    let r = settings_from_options(Some(&opts));
    assert_eq!(r.uri, "http://db:8443/exist");
    assert_eq!(r.user, "admin");
    assert_eq!(r.password, "");
    assert_eq!(r.db_path, "/db/apps/x");
    let r = settings_from_options(None);
    assert_eq!(r.uri, "http://localhost:8080/exist");
}

#[test]
fn config_without_servers_gives_nothing() {
    let c = ExistConfig::new(vec![], None).unwrap();
    assert!(settings_from_config(&c).is_none());
}

#[test]
fn config_uses_first_server_and_db_root() {
    let c = ExistConfig::new(vec![(s("localhost"), server("http://a/exist", "u", "p", None))], None).unwrap();
    let r = settings_from_config(&c).unwrap();
    assert_eq!((r.uri.as_str(), r.user.as_str(), r.password.as_str(), r.db_path.as_str()), ("http://a/exist", "u", "p", "/db"));
}

#[test]
fn config_sync_selects_server_and_overrides() {
    let c = ExistConfig::new(
        vec![
            (s("one"), server("http://one/exist", "u1", "p1", Some("/db/one"))),
            (s("two"), server("http://two/exist", "u2", "p2", Some("/db/two"))),
        ],
        Some(SyncEntry { server: Some(s("two")), user: Some(s("admin")), password: None, root: None }),
    )
    .unwrap();
    let r = settings_from_config(&c).unwrap();
    assert_eq!((r.uri.as_str(), r.user.as_str(), r.password.as_str(), r.db_path.as_str()), ("http://two/exist", "admin", "p2", "/db/two"));
}

#[test]
fn config_sync_naming_unknown_server_falls_back_to_first() {
    let c = ExistConfig::new(
        vec![(s("one"), server("http://one/exist", "u1", "p1", None))],
        Some(SyncEntry { server: Some(s("nope")), user: Some(s("x")), password: None, root: Some(s("/db/r")) }),
    )
    .unwrap();
    let r = settings_from_config(&c).unwrap();
    assert_eq!((r.uri.as_str(), r.user.as_str(), r.db_path.as_str()), ("http://one/exist", "u1", "/db"));
}

#[test]
fn config_takes_precedence_over_options() {
    let opts = Json::Object { members: vec![(s("server"), Json::Str(s("http://opt")))], rendered: s("{}") };
    let c = ExistConfig::new(vec![(s("a"), server("http://cfg", "u", "p", None))], None).unwrap();
    assert_eq!(initial_settings(Some(&opts), Some(&c)).uri, "http://cfg");
    let empty = ExistConfig::new(vec![], None).unwrap();
    assert_eq!(initial_settings(Some(&opts), Some(&empty)).uri, "http://opt");
    assert_eq!(initial_settings(None, None).uri, "http://localhost:8080/exist");
}

#[test]
fn base_path_cases() {
    assert_eq!(make_base_path("", ""), "/db");
    assert_eq!(make_base_path("/db/apps/x", ""), "/db/apps/x");
    assert_eq!(make_base_path("", "modules"), "modules");
    assert_eq!(make_base_path("/db/apps/x", "modules"), "/db/apps/x/modules");
}

#[test]
fn basic_authentication_header() {
    let st = Settings { uri: s("http://x"), user: s("admin"), password: s(""), db_path: s("") };
    assert_eq!(auth_header(&st), "Basic YWRtaW46");
    let st = Settings { uri: s("http://x"), user: s("Aladdin"), password: s("open sesame"), db_path: s("") };
    assert_eq!(auth_header(&st), "Basic QWxhZGRpbjpvcGVuIHNlc2FtZQ==");
}

#[test]
fn config_refuses_a_repeated_server_name() {
    let twice = vec![
        (s("a"), server("http://one", "u", "p", None)),
        (s("b"), server("http://two", "u", "p", None)),
        (s("a"), server("http://three", "u", "p", None)),
    ];
    assert!(ExistConfig::new(twice, None).is_none());
    let once = vec![(s("a"), server("http://one", "u", "p", None)), (s("b"), server("http://two", "u", "p", None))];
    let c = ExistConfig::new(once, None).unwrap();
    assert_eq!(c.servers().len(), 2);
    assert_eq!(c.servers()[1].0, "b");
    assert!(c.sync().is_none());
    let (servers, sync) = c.into_parts();
    assert_eq!(servers[0].1.server, "http://one");
    assert!(sync.is_none());
}

#[test]
fn basic_authentication_pads_each_remainder() {
    let header = |user: &str, password: &str| {
        auth_header(&Settings { uri: s("http://x"), user: s(user), password: s(password), db_path: s("") })
    };
    assert_eq!(header("ab", ""), "Basic YWI6");
    assert_eq!(header("a", "bc"), "Basic YTpiYw==");
    assert_eq!(header("ab", "cd"), "Basic YWI6Y2Q=");
    assert_eq!(header("é", "~?"), "Basic w6k6fj8=");
}
