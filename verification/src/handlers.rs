//! The editor's requests and notifications: what each one asks of the server
//! and what it answers, decided from the open documents and the settings.
use vstd::prelude::*;
use crate::cursor::{function_at_position, function_at_spec};
use crate::documents::DocumentStore;
use crate::hover::{first_entry, first_entry_spec};
use crate::http::{compile_request, compile_request_spec, describe_request, describe_request_spec, HttpRequest, RequestView};
use crate::imports::{find_local_function, local_function_spec, parse_imports, parse_imports_spec};
use crate::json::{json_as_str, json_index, Json};
use crate::paths::{
    file_rel_paths, fs_view, fs_view_opt, parent_spec, rel_paths_spec, resolve_db_path, resolve_spec, texts, FsPath,
};
use crate::settings::{
    base_path_spec, make_base_path, settings_from_config, settings_from_config_spec, settings_from_options,
    settings_from_options_spec, ExistConfig, Settings, SettingsView,
};

verus! {

// ---------------------------------------------------------------------------
// Message kinds
// ---------------------------------------------------------------------------

/// The notifications the server acts on.
#[derive(PartialEq, Eq, Structural, Clone, Copy, Debug)]
pub enum NotificationKind {
    Opened,
    Changed,
    Closed,
    Other,
}

/// The requests the server answers with something other than `null`.
#[derive(PartialEq, Eq, Structural, Clone, Copy, Debug)]
pub enum RequestKind {
    Hover,
    Definition,
    Other,
}

/// The kind of a notification, by its LSP method name.
pub open spec fn notification_kind(method: Seq<char>) -> NotificationKind {
    if method == "textDocument/didOpen"@ {
        NotificationKind::Opened
    } else if method == "textDocument/didChange"@ {
        NotificationKind::Changed
    } else if method == "textDocument/didClose"@ {
        NotificationKind::Closed
    } else {
        NotificationKind::Other
    }
}

/// The kind of a request, by its LSP method name.
pub open spec fn request_kind(method: Seq<char>) -> RequestKind {
    if method == "textDocument/hover"@ {
        RequestKind::Hover
    } else if method == "textDocument/definition"@ {
        RequestKind::Definition
    } else {
        RequestKind::Other
    }
}

/// The kind of a notification.
pub fn classify_notification(method: &str) -> (r: NotificationKind)
    ensures
        r == notification_kind(method@),
{
    if crate::text::str_eq(method, "textDocument/didOpen") {
        NotificationKind::Opened
    } else if crate::text::str_eq(method, "textDocument/didChange") {
        NotificationKind::Changed
    } else if crate::text::str_eq(method, "textDocument/didClose") {
        NotificationKind::Closed
    } else {
        NotificationKind::Other
    }
}

/// The kind of a request.
pub fn classify_request(method: &str) -> (r: RequestKind)
    ensures
        r == request_kind(method@),
{
    if crate::text::str_eq(method, "textDocument/hover") {
        RequestKind::Hover
    } else if crate::text::str_eq(method, "textDocument/definition") {
        RequestKind::Definition
    } else {
        RequestKind::Other
    }
}

// ---------------------------------------------------------------------------
// Settings at start-up
// ---------------------------------------------------------------------------

/// The settings in force: those of the workspace's `.existdb.json` when it
/// gives some, else those of the initialization options.
pub open spec fn initial_settings_spec(opts: Option<Json>, config: Option<ExistConfig>) -> SettingsView {
    match config {
        Some(c) => match settings_from_config_spec(c) {
            Some(s) => s,
            None => settings_from_options_spec(opts),
        },
        None => settings_from_options_spec(opts),
    }
}

/// The settings in force.
pub fn initial_settings(opts: Option<&Json>, config: Option<&ExistConfig>) -> (r: Settings)
    ensures
        r@ == initial_settings_spec(
            match opts {
                Some(o) => Some(*o),
                None => None,
            },
            match config {
                Some(c) => Some(*c),
                None => None,
            },
        ),
{
    let from_options = settings_from_options(opts);
    match config {
        Some(c) => match settings_from_config(c) {
            Some(s) => s,
            None => from_options,
        },
        None => from_options,
    }
}

// ---------------------------------------------------------------------------
// Linting
// ---------------------------------------------------------------------------

/// The request that compiles a document: it is stored, for the server, in
/// the collection that mirrors the document's directory.
pub open spec fn lint_request_spec(
    s: SettingsView,
    file: Option<(bool, Seq<Seq<char>>)>,
    workspace: Option<(bool, Seq<Seq<char>>)>,
    text: Seq<char>,
) -> RequestView {
    compile_request_spec(s, base_path_spec(s.db_path, rel_paths_spec(file, workspace).1), text)
}

/// The request that compiles a document at `file` holding `text`.
pub fn lint_request(settings: &Settings, file: Option<&FsPath>, workspace: Option<&FsPath>, text: &str) -> (r:
    HttpRequest)
    ensures
        r@ == lint_request_spec(settings@, fs_view_opt(file), fs_view_opt(workspace), text@),
{
    let (_rel_path, rel_dir) = file_rel_paths(file, workspace);
    let base = make_base_path(settings.db_path.as_str(), rel_dir.as_str());
    compile_request(settings, base.as_str(), text)
}

// ---------------------------------------------------------------------------
// Hover
// ---------------------------------------------------------------------------

/// The request that asks the server to describe the function under the
/// cursor, from the collection that mirrors the document's path; none when the
/// document is not open or the cursor is not on a function call.
pub open spec fn describe_at_spec(
    s: SettingsView,
    text: Option<Seq<char>>,
    line: u32,
    col: u32,
    file: Option<(bool, Seq<Seq<char>>)>,
    workspace: Option<(bool, Seq<Seq<char>>)>,
) -> Option<RequestView> {
    match text {
        None => None,
        Some(t) => match function_at_spec(t, line, col) {
            None => None,
            Some((name, arity)) => Some(
                describe_request_spec(
                    s,
                    name,
                    arity,
                    parse_imports_spec(t),
                    base_path_spec(s.db_path, rel_paths_spec(file, workspace).0),
                ),
            ),
        },
    }
}

/// The text of document `uri`, if it is open.
pub open spec fn open_text(store: Map<Seq<char>, Seq<char>>, uri: Seq<char>) -> Option<Seq<char>> {
    if store.contains_key(uri) {
        Some(store[uri])
    } else {
        None
    }
}

fn describe_at(
    settings: &Settings,
    text: &str,
    line: u32,
    col: u32,
    file: Option<&FsPath>,
    workspace: Option<&FsPath>,
) -> (r: Option<(HttpRequest, String)>)
    ensures
        match describe_at_spec(settings@, Some(text@), line, col, fs_view_opt(file), fs_view_opt(workspace)) {
            None => r is None,
            Some(req) => r matches Some((x, name)) && x@ == req && (function_at_spec(text@, line, col) matches Some(
                (n, _),
            ) && name@ == n),
        },
{
    let (name, arity) = match function_at_position(text, line, col) {
        None => return None,
        Some(f) => f,
    };
    let (rel_path, _rel_dir) = file_rel_paths(file, workspace);
    let base = make_base_path(settings.db_path.as_str(), rel_path.as_str());
    let imports = parse_imports(text);
    let req = describe_request(settings, name.as_str(), arity, &imports, base.as_str());
    Some((req, name))
}

/// The request that a hover at `(line, col)` in document `uri` makes.
pub fn hover_request(
    settings: &Settings,
    store: &DocumentStore,
    uri: &str,
    line: u32,
    col: u32,
    file: Option<&FsPath>,
    workspace: Option<&FsPath>,
) -> (r: Option<HttpRequest>)
    ensures
        match describe_at_spec(settings@, open_text(store@, uri@), line, col, fs_view_opt(file), fs_view_opt(workspace)) {
            None => r is None,
            Some(req) => r matches Some(x) && x@ == req,
        },
{
    let text = match store.get(uri) {
        None => return None,
        Some(t) => t,
    };
    match describe_at(settings, text.as_str(), line, col, file, workspace) {
        None => None,
        Some((req, _name)) => Some(req),
    }
}

// ---------------------------------------------------------------------------
// Go to definition
// ---------------------------------------------------------------------------

/// How a go-to-definition request proceeds.
pub enum DefinitionStart {
    /// Nothing to look up: the answer is `null`.
    Nothing,
    /// The document itself declares the function, on this line.
    Local(u32),
    /// Ask the server with this request about the function of this name.
    Ask(HttpRequest, String),
}

/// How a go-to-definition at `(line, col)` proceeds: nothing when the
/// document is not open or the cursor is not on a call; the line of the
/// document's own declaration when it has one; else a question to the server.
pub open spec fn definition_start_spec(
    s: SettingsView,
    text: Option<Seq<char>>,
    line: u32,
    col: u32,
    file: Option<(bool, Seq<Seq<char>>)>,
    workspace: Option<(bool, Seq<Seq<char>>)>,
    r: DefinitionStart,
) -> bool {
    match text {
        None => r is Nothing,
        Some(t) => match function_at_spec(t, line, col) {
            None => r is Nothing,
            Some((name, _)) => match local_function_spec(t, name) {
                Some(l) => r == DefinitionStart::Local(l),
                None => r matches DefinitionStart::Ask(req, n) && n@ == name && Some(req@) == describe_at_spec(
                    s,
                    text,
                    line,
                    col,
                    file,
                    workspace,
                ),
            },
        },
    }
}

/// How a go-to-definition request in document `uri` proceeds.
pub fn definition_start(
    settings: &Settings,
    store: &DocumentStore,
    uri: &str,
    line: u32,
    col: u32,
    file: Option<&FsPath>,
    workspace: Option<&FsPath>,
) -> (r: DefinitionStart)
    ensures
        definition_start_spec(
            settings@,
            open_text(store@, uri@),
            line,
            col,
            fs_view_opt(file),
            fs_view_opt(workspace),
            r,
        ),
{
    let text = match store.get(uri) {
        None => return DefinitionStart::Nothing,
        Some(t) => t,
    };
    let (name, _arity) = match function_at_position(text.as_str(), line, col) {
        None => return DefinitionStart::Nothing,
        Some(f) => f,
    };
    if let Some(l) = find_local_function(text.as_str(), name.as_str()) {
        return DefinitionStart::Local(l);
    }
    match describe_at(settings, text.as_str(), line, col, file, workspace) {
        None => DefinitionStart::Nothing,
        Some((req, n)) => DefinitionStart::Ask(req, n),
    }
}

/// Where the file that declares the function lies on disk: the server's
/// description names its database path, which is resolved from the
/// collection that mirrors the document's directory; none when the answer has
/// no description, the description no path, or the document no directory.
pub open spec fn definition_target_spec(
    s: SettingsView,
    answer: Option<Json>,
    file: Option<(bool, Seq<Seq<char>>)>,
    workspace: Option<(bool, Seq<Seq<char>>)>,
) -> Option<(bool, Seq<Seq<char>>)> {
    match first_entry_spec(answer) {
        None => None,
        Some(desc) => match json_as_str(json_index(desc, "path"@)) {
            None => None,
            Some(p) => if p.len() == 0 {
                None
            } else {
                match file {
                    None => None,
                    Some(f) => match parent_spec(f.0, f.1) {
                        None => None,
                        Some(dir) => Some(
                            (
                                dir.0,
                                resolve_spec(
                                    p,
                                    base_path_spec(s.db_path, rel_paths_spec(file, workspace).1),
                                    dir.1,
                                ),
                            ),
                        ),
                    },
                }
            },
        },
    }
}

/// Where the file that declares the function lies on disk.
pub fn definition_target(
    settings: &Settings,
    answer: Option<Json>,
    file: Option<&FsPath>,
    workspace: Option<&FsPath>,
) -> (r: Option<FsPath>)
    ensures
        match definition_target_spec(settings@, answer, fs_view_opt(file), fs_view_opt(workspace)) {
            None => r is None,
            Some(p) => r matches Some(x) && fs_view(x) == p,
        },
{
    let desc = match first_entry(answer) {
        None => return None,
        Some(d) => d,
    };
    let db_path = match desc.str_member("path") {
        None => return None,
        Some(p) => p,
    };
    if db_path.as_str().is_empty() {
        return None;
    }
    let (_rel_path, rel_dir) = file_rel_paths(file, workspace);
    let current_db_dir = make_base_path(settings.db_path.as_str(), rel_dir.as_str());
    let f = match file {
        None => return None,
        Some(f) => f,
    };
    let n = f.parts.len();
    if n == 0 {
        return None;
    }
    let mut parts: Vec<String> = Vec::new();
    let mut i: usize = 0;
    while i < n - 1
        invariant
            i <= n - 1,
            n == f.parts.len(),
            texts(parts@) =~= texts(f.parts@).take(i as int),
        decreases n - 1 - i,
    {
        let seg = f.parts[i].clone();
        proof {
            assert(texts(parts@.push(seg)) =~= texts(parts@).push(seg@));
            assert(texts(f.parts@).take(i + 1) =~= texts(f.parts@).take(i as int).push(seg@));
        }
        parts.push(seg);
        i += 1;
    }
    proof {
        assert(texts(f.parts@).take(n - 1) =~= texts(f.parts@).drop_last());
    }
    let dir = FsPath { absolute: f.absolute, parts };
    Some(resolve_db_path(db_path.as_str(), current_db_dir.as_str(), &dir))
}

/// The line of the declaration of `name` in the file that declares it: the
/// first declaration's line, or the first line when none is found.
pub fn definition_line(target_text: &str, name: &str) -> (r: u32)
    ensures
        r == match local_function_spec(target_text@, name@) {
            Some(l) => l,
            None => 0,
        },
{
    match find_local_function(target_text, name) {
        Some(l) => l,
        None => 0,
    }
}

} // verus!

verus! {

/// Without a `.existdb.json`, the defaults apply, overridden by the editor's
/// initialization options when it gives some.
pub proof fn law_defaults_without_config(opts: Option<Json>)
    ensures
        initial_settings_spec(opts, None) == settings_from_options_spec(opts),
        initial_settings_spec(None, None) == crate::settings::default_settings(),
{
}

/// A `.existdb.json` that names a server takes precedence over the editor's
/// initialization options.
pub proof fn law_config_takes_precedence(opts: Option<Json>, c: ExistConfig)
    requires
        c.server_list().len() > 0,
    ensures
        Some(initial_settings_spec(opts, Some(c))) == settings_from_config_spec(c),
{
}

} // verus!
