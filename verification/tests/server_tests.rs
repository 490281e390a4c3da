use xquery_lsp::diagnostics::Severity;
use xquery_lsp::documents::DocumentStore;
use xquery_lsp::extension::{cargo_bin_path, server_command};
use xquery_lsp::handlers::{
    classify_notification, classify_request, definition_line, definition_start, definition_target, hover_request,
    lint_request, DefinitionStart, NotificationKind, RequestKind,
};
use xquery_lsp::hover::{first_entry, hover_contents, hover_markdown};
use xquery_lsp::http::{describe_request, download_request, Method};
use xquery_lsp::imports::{find_local_function, parse_imports, Import};
use xquery_lsp::json::Json;
use xquery_lsp::paths::FsPath;
use xquery_lsp::settings::Settings;
use xquery_lsp::startup::{server_status, startup_begin, startup_next, ServerStatus, StartupEvent, StartupStep};

fn s(t: &str) -> String {
    String::from(t)
}

fn settings() -> Settings {
    Settings { uri: s("http://h/exist"), user: s("admin"), password: s(""), db_path: s("/db/apps/x") }
}

fn fs(parts: &[&str]) -> FsPath {
    FsPath { absolute: true, parts: parts.iter().map(|p| String::from(*p)).collect() }
}

fn obj(members: Vec<(&str, Json)>) -> Json {
    Json::Object { members: members.into_iter().map(|(k, v)| (s(k), v)).collect(), rendered: s("{}") }
}

fn arr(items: Vec<Json>) -> Json {
    Json::Array { items, rendered: s("[]") }
}

fn pairs(v: &[(String, String)]) -> Vec<(&str, &str)> {
    v.iter().map(|(a, b)| (a.as_str(), b.as_str())).collect()
}

#[test]
fn imports_are_parsed_in_order() {
    let text = "import module namespace cfg = \"http://x/config\" at \"config.xqm\";\n\
                import module namespace app='http://x/app' at 'app.xqm';";
    let v = parse_imports(text);
    assert_eq!(v.len(), 2);
    assert_eq!((v[0].prefix.as_str(), v[0].uri.as_str(), v[0].source.as_str()), ("cfg", "http://x/config", "config.xqm"));
    assert_eq!((v[1].prefix.as_str(), v[1].uri.as_str(), v[1].source.as_str()), ("app", "http://x/app", "app.xqm"));
    assert!(parse_imports("xquery version \"3.1\";").is_empty());
}

#[test]
fn local_declaration_line() {
    let text = "xquery version \"3.1\";\n\ndeclare %private function local:f($a) {\n  $a\n};\nlocal:f(1)";
    assert_eq!(find_local_function(text, "local:f"), Some(2));
    assert_eq!(find_local_function(text, "local:g"), None);
    let dotted = "declare function a.b($x) { 1 };\ndeclare function aXb($x) { 2 };";
    assert_eq!(find_local_function(dotted, "a.b"), Some(0));
    let only_other = "\ndeclare function aXb($x) { 2 };";
    assert_eq!(find_local_function(only_other, "a.b"), None);
}

#[test]
fn describe_request_with_relevant_imports() {
    let imports = vec![
        Import { prefix: s("cfg"), uri: s("u1"), source: s("c.xqm") },
        Import { prefix: s("app"), uri: s("u2"), source: s("a.xqm") },
    ];
    let r = describe_request(&settings(), "app:run", 2, &imports, "/db/apps/x");
    assert_eq!(r.method, Method::Get);
    assert_eq!(r.url, "http://h/exist/apps/atom-editor/atom-autocomplete.xql");
    assert_eq!(pairs(&r.headers), vec![("Authorization", "Basic YWRtaW46")]);
    assert_eq!(
        pairs(&r.query),
        vec![
            ("signature", "app:run#2"),
            ("base", "/db/apps/x"),
            ("mprefix[]", "app"),
            ("uri[]", "u2"),
            ("source[]", "a.xqm"),
        ]
    );
    let r = describe_request(&settings(), "fn:count", 1, &imports, "/db");
    assert_eq!(r.query.len(), 8);
    assert_eq!(r.query[0].1, "fn:count#1");
}

#[test]
fn compile_request_for_document() {
    let ws = fs(&["w"]);
    let file = fs(&["w", "mods", "a.xq"]);
    let r = lint_request(&settings(), Some(&file), Some(&ws), "1+1");
    assert_eq!(r.method, Method::Put);
    assert_eq!(r.url, "http://h/exist/apps/atom-editor/compile.xql");
    assert_eq!(
        pairs(&r.headers),
        vec![
            ("Content-Type", "application/octet-stream"),
            ("X-BasePath", "/db/apps/x/mods"),
            ("Authorization", "Basic YWRtaW46"),
        ]
    );
    assert_eq!(r.body, Some(b"1+1".to_vec()));
}

#[test]
fn hover_text_in_markdown() {
    let desc = obj(vec![
        ("text", Json::Str(s("fn:count($items as item()*)"))),
        ("leftLabel", Json::Str(s("xs:integer"))),
        ("description", Json::Str(s("Counts items."))),
        (
            "arguments",
            arr(vec![
                obj(vec![("name", Json::Str(s("items"))), ("type", Json::Str(s("item()*"))), ("description", Json::Str(s("the items")))]),
                obj(vec![("type", Json::Str(s("ignored")))]),
            ]),
        ),
    ]);
    assert_eq!(
        hover_markdown(&desc).unwrap(),
        "**fn:count($items as item()*)** as **xs:integer**\n\nCounts items.\n\n**$items** *item()** the items"
    );
    let bare = obj(vec![("text", Json::Str(s("f()"))), ("leftLabel", Json::Str(s("")))]);
    assert_eq!(hover_markdown(&bare).unwrap(), "**f()**");
    assert!(hover_markdown(&obj(vec![])).is_none());
}

#[test]
fn first_entry_of_answer() {
    let a = arr(vec![Json::Str(s("one")), Json::Str(s("two"))]);
    assert!(matches!(first_entry(Some(a)), Some(Json::Str(t)) if t == "one"));
    assert!(first_entry(Some(arr(vec![]))).is_none());
    assert!(first_entry(Some(Json::Null)).is_none());
    assert!(first_entry(None).is_none());
    let a = arr(vec![obj(vec![("text", Json::Str(s("g()")))])]);
    assert_eq!(hover_contents(Some(a)).unwrap(), "**g()**");
}

#[test]
fn hover_needs_open_document_and_call() {
    let mut store = DocumentStore::new();
    assert!(hover_request(&settings(), &store, "file:///w/a.xq", 0, 0, None, None).is_none());
    store.insert(s("file:///w/a.xq"), s("let $x := 1\nreturn count($x)"));
    assert!(hover_request(&settings(), &store, "file:///w/a.xq", 0, 1, None, None).is_none());
    let ws = fs(&["w"]);
    let file = fs(&["w", "a.xq"]);
    let r = hover_request(&settings(), &store, "file:///w/a.xq", 1, 8, Some(&file), Some(&ws)).unwrap();
    assert_eq!(r.query[0].1, "count#1");
    assert_eq!(r.query[1].1, "/db/apps/x/a.xq");
}

#[test]
fn definition_found_locally() {
    let mut store = DocumentStore::new();
    store.insert(s("u"), s("declare function local:f() { 1 };\nlocal:f()"));
    assert!(matches!(definition_start(&settings(), &store, "u", 1, 2, None, None), DefinitionStart::Local(0)));
    assert!(matches!(definition_start(&settings(), &store, "v", 1, 2, None, None), DefinitionStart::Nothing));
    store.insert(s("u2"), s("x:g(1)"));
    match definition_start(&settings(), &store, "u2", 0, 0, None, None) {
        DefinitionStart::Ask(req, name) => {
            assert_eq!(name, "x:g");
            assert_eq!(req.query[0].1, "x:g#1");
        },
        _ => panic!("expected a question to the server"),
    }
}

#[test]
fn definition_target_from_description() {
    let ws = fs(&["w"]);
    let file = fs(&["w", "mods", "a.xq"]);
    let answer = arr(vec![obj(vec![("path", Json::Str(s("/db/apps/x/lib/util.xqm")))])]);
    let t = definition_target(&settings(), Some(answer), Some(&file), Some(&ws)).unwrap();
    assert!(t.absolute);
    assert_eq!(t.parts, vec!["w", "lib", "util.xqm"]);
    let no_path = arr(vec![obj(vec![("path", Json::Str(s("")))])]);
    assert!(definition_target(&settings(), Some(no_path), Some(&file), Some(&ws)).is_none());
    assert_eq!(definition_line("a\ndeclare function p:q() {1};", "p:q"), 1);
    assert_eq!(definition_line("nothing", "p:q"), 0);
}

#[test]
fn message_kinds() {
    assert_eq!(classify_notification("textDocument/didOpen"), NotificationKind::Opened);
    assert_eq!(classify_notification("textDocument/didChange"), NotificationKind::Changed);
    assert_eq!(classify_notification("textDocument/didClose"), NotificationKind::Closed);
    assert_eq!(classify_notification("textDocument/didSave"), NotificationKind::Other);
    assert_eq!(classify_request("textDocument/hover"), RequestKind::Hover);
    assert_eq!(classify_request("textDocument/definition"), RequestKind::Definition);
    assert_eq!(classify_request("shutdown"), RequestKind::Other);
}

#[test]
fn status_from_check_answer() {
    assert!(matches!(server_status(Ok(Json::Bool(true))), ServerStatus::UpToDate));
    assert!(matches!(server_status(Ok(Json::Str(s("1.0.0")))), ServerStatus::WrongVersion(v) if v == "1.0.0"));
    assert!(matches!(server_status(Ok(Json::Bool(false))), ServerStatus::NotInstalled));
    assert!(matches!(server_status(Err(s("refused"))), ServerStatus::Unreachable(e) if e == "refused"));
}

#[test]
fn startup_when_package_is_current() {
    let st = settings();
    let first = startup_begin(&st);
    assert_eq!(first.url, "http://h/exist/rest/db");
    assert_eq!(first.timeouts, Some((5, 10)));
    assert_eq!(first.query[1].0, "_wrap");
    assert!(first.query[0].1.contains("http://exist-db.org/apps/atom-editor"));
    let (notice, step) = startup_next(&st, StartupEvent::Checked(Ok(Json::Bool(true))));
    assert!(notice.is_none());
    assert!(matches!(step, StartupStep::Done));
}

#[test]
fn startup_when_server_is_unreachable() {
    let (notice, step) = startup_next(&settings(), StartupEvent::Checked(Err(s("connection refused"))));
    let n = notice.unwrap();
    assert_eq!(n.severity, Severity::Warning);
    assert_eq!(
        n.text,
        "XQuery: cannot reach eXistdb at http://h/exist — linting and hover will not work. (connection refused)"
    );
    assert!(matches!(step, StartupStep::Done));
}

#[test]
fn startup_installs_missing_package() {
    let st = settings();
    let (notice, step) = startup_next(&st, StartupEvent::Checked(Ok(Json::Bool(false))));
    assert_eq!(notice.unwrap().text, "XQuery: installing eXistdb support package (atom-editor v1.1.0)…");
    match step {
        StartupStep::Download(r) => assert_eq!(r.url, download_request().url),
        _ => panic!("expected a download"),
    }
    let (notice, step) = startup_next(&st, StartupEvent::Downloaded(Ok(vec![1, 2, 3])));
    assert!(notice.is_none());
    match step {
        StartupStep::Upload(r) => {
            assert_eq!(r.method, Method::Put);
            assert_eq!(r.url, "http://h/exist/rest/db/system/repo/atom-editor-1.1.0.xar");
            assert_eq!(r.body, Some(vec![1, 2, 3]));
        },
        _ => panic!("expected an upload"),
    }
    let (notice, step) = startup_next(&st, StartupEvent::Uploaded(Ok(())));
    assert!(notice.is_none());
    match step {
        StartupStep::Install(r) => assert!(r.query[0].1.contains("/db/system/repo/atom-editor-1.1.0.xar")),
        _ => panic!("expected the installation"),
    }
    let (notice, step) = startup_next(&st, StartupEvent::Installed(Ok(Json::Null)));
    let n = notice.unwrap();
    assert_eq!(n.severity, Severity::Info);
    assert_eq!(n.text, "XQuery: eXistdb support package v1.1.0 installed successfully.");
    assert!(matches!(step, StartupStep::Done));
}

#[test]
fn startup_reports_failures() {
    let st = settings();
    let (n, step) = startup_next(&st, StartupEvent::Checked(Ok(Json::Str(s("1.0.0")))));
    assert_eq!(n.unwrap().text, "XQuery: updating eXistdb support package (installed: v1.0.0, required: v1.1.0)…");
    assert!(matches!(step, StartupStep::Download(_)));
    let (n, _) = startup_next(&st, StartupEvent::Downloaded(Err(s("404"))));
    assert_eq!(n.unwrap().text, "XQuery: failed to download support package: 404");
    let (n, _) = startup_next(&st, StartupEvent::Uploaded(Err(s("401"))));
    let n = n.unwrap();
    assert_eq!(n.severity, Severity::Error);
    assert_eq!(n.text, "XQuery: support package installation failed: XAR upload failed: 401");
    let (n, step) = startup_next(&st, StartupEvent::Installed(Err(s("boom"))));
    assert_eq!(n.unwrap().text, "XQuery: support package installation failed: XAR install failed: boom");
    assert!(matches!(step, StartupStep::Done));
}

#[test]
fn server_binary_location() {
    assert_eq!(cargo_bin_path("/home/me"), "/home/me/.cargo/bin/xquery-lsp-server");
    assert_eq!(cargo_bin_path("/home/me/"), "/home/me/.cargo/bin/xquery-lsp-server");
    assert_eq!(cargo_bin_path(""), ".cargo/bin/xquery-lsp-server");
}

#[test]
fn server_command_choice() {
    assert_eq!(server_command(Some(s("/usr/bin/x")), Some(s("/c")), true), Ok(s("/usr/bin/x")));
    assert_eq!(server_command(None, Some(s("/c")), true), Ok(s("/c")));
    let msg = "xquery-lsp-server not found. Install it with: cargo install --path lsp-server (run from the extension source directory).";
    assert_eq!(server_command(None, Some(s("/c")), false), Err(s(msg)));
    assert_eq!(server_command(None, None, false), Err(s(msg)));
}
