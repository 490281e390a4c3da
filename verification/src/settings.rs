//! How to reach the eXist-db server: the connection settings, where they come
//! from, and the credentials sent with each request.
use vstd::prelude::*;
use base64::Engine;
use crate::json::{json_as_str, json_index, Json};
use crate::text::concat3;

verus! {

/// Connection settings for the eXist-db server.
pub struct Settings {
    /// Base URI of the server, such as `http://localhost:8080/exist`.
    pub uri: String,
    pub user: String,
    pub password: String,
    /// Database collection that the workspace mirrors.
    pub db_path: String,
}

/// The settings as text.
pub struct SettingsView {
    pub uri: Seq<char>,
    pub user: Seq<char>,
    pub password: Seq<char>,
    pub db_path: Seq<char>,
}

impl View for Settings {
    type V = SettingsView;

    open spec fn view(&self) -> SettingsView {
        SettingsView { uri: self.uri@, user: self.user@, password: self.password@, db_path: self.db_path@ }
    }
}

/// The settings used when nothing else is configured.
pub open spec fn default_settings() -> SettingsView {
    SettingsView {
        uri: "http://localhost:8080/exist"@,
        user: "admin"@,
        password: Seq::empty(),
        db_path: Seq::empty(),
    }
}

impl Default for Settings {
    fn default() -> (r: Self)
        ensures
            r@ == default_settings(),
    {
        Settings {
            uri: String::from_str("http://localhost:8080/exist"),
            user: String::from_str("admin"),
            password: String::new(),
            db_path: String::new(),
        }
    }
}

// ---------------------------------------------------------------------------
// Settings from the editor's initialization options
// ---------------------------------------------------------------------------

/// A string option, or the value it replaces.
pub open spec fn string_option(opts: Json, key: Seq<char>, otherwise: Seq<char>) -> Seq<char> {
    match json_as_str(json_index(opts, key)) {
        Some(s) => s,
        None => otherwise,
    }
}

/// The default settings with `server`, `user`, `password` and `path` replaced
/// by the string options of that name.
pub open spec fn settings_from_options_spec(opts: Option<Json>) -> SettingsView {
    let d = default_settings();
    match opts {
        None => d,
        Some(o) => SettingsView {
            uri: string_option(o, "server"@, d.uri),
            user: string_option(o, "user"@, d.user),
            password: string_option(o, "password"@, d.password),
            db_path: string_option(o, "path"@, d.db_path),
        },
    }
}

fn option_or(opts: &Json, key: &str, otherwise: String) -> (r: String)
    ensures
        r@ == string_option(*opts, key@, otherwise@),
{
    match opts.str_member(key) {
        Some(s) => s.clone(),
        None => otherwise,
    }
}

/// The settings that the initialization options give.
pub fn settings_from_options(opts: Option<&Json>) -> (r: Settings)
    ensures
        r@ == settings_from_options_spec(match opts {
            None => None,
            Some(o) => Some(*o),
        }),
{
    let d = Settings::default();
    match opts {
        None => d,
        Some(o) => Settings {
            uri: option_or(o, "server", d.uri),
            user: option_or(o, "user", d.user),
            password: option_or(o, "password", d.password),
            db_path: option_or(o, "path", d.db_path),
        },
    }
}

// ---------------------------------------------------------------------------
// Settings from the workspace's `.existdb.json`
// ---------------------------------------------------------------------------

/// A server named in `.existdb.json`.
pub struct ServerEntry {
    pub server: String,
    pub user: String,
    pub password: String,
    pub root: Option<String>,
}

/// The `sync` section of `.existdb.json`.
pub struct SyncEntry {
    pub server: Option<String>,
    pub user: Option<String>,
    pub password: Option<String>,
    pub root: Option<String>,
}

/// The contents of `.existdb.json`: the servers by name, in the order the
/// file's map yields them, and the optional `sync` section. No two servers
/// have the same name.
pub struct ExistConfig {
    servers: Vec<(String, ServerEntry)>,
    sync: Option<SyncEntry>,
}

/// No name occurs twice among the servers.
pub open spec fn distinct_names(servers: Seq<(String, ServerEntry)>) -> bool {
    forall|i: int, j: int| 0 <= i < j < servers.len() ==> servers[i].0@ != servers[j].0@
}

impl ExistConfig {
    #[verifier::type_invariant]
    spec fn names_distinct(self) -> bool {
        distinct_names(self.servers@)
    }

    /// The servers, in order.
    pub closed spec fn server_list(self) -> Seq<(String, ServerEntry)> {
        self.servers@
    }

    /// The `sync` section.
    pub closed spec fn sync_entry(self) -> Option<SyncEntry> {
        self.sync
    }

    /// The configuration with these servers and this `sync` section; `None`
    /// when two servers have the same name.
    pub fn new(servers: Vec<(String, ServerEntry)>, sync: Option<SyncEntry>) -> (r: Option<ExistConfig>)
        ensures
            match r {
                None => !distinct_names(servers@),
                Some(c) => distinct_names(servers@) && c.server_list() == servers@ && c.sync_entry() == sync,
            },
    {
        let mut j: usize = 0;
        while j < servers.len()
            invariant
                j <= servers.len(),
                forall|a: int, b: int| 0 <= a < b < j ==> servers@[a].0@ != servers@[b].0@,
            decreases servers.len() - j,
        {
            let mut i: usize = 0;
            while i < j
                invariant
                    i <= j < servers.len(),
                    forall|a: int, b: int| 0 <= a < b < j ==> servers@[a].0@ != servers@[b].0@,
                    forall|a: int| 0 <= a < i ==> servers@[a].0@ != servers@[j as int].0@,
                decreases j - i,
            {
                if servers[i].0 == servers[j].0 {
                    return None;
                }
                i += 1;
            }
            j += 1;
        }
        Some(ExistConfig { servers, sync })
    }

    /// The servers, in order.
    pub fn servers(&self) -> (r: &Vec<(String, ServerEntry)>)
        ensures
            r@ == self.server_list(),
    {
        &self.servers
    }

    /// The `sync` section.
    pub fn sync(&self) -> (r: &Option<SyncEntry>)
        ensures
            *r == self.sync_entry(),
    {
        &self.sync
    }

    /// The servers and the `sync` section, given back.
    pub fn into_parts(self) -> (r: (Vec<(String, ServerEntry)>, Option<SyncEntry>))
        ensures
            r.0@ == self.server_list(),
            r.1 == self.sync_entry(),
    {
        (self.servers, self.sync)
    }
}

/// The first server named `key`.
pub open spec fn server_named(servers: Seq<(String, ServerEntry)>, key: Seq<char>) -> Option<ServerEntry>
    decreases servers.len(),
{
    if servers.len() == 0 {
        None
    } else if servers[0].0@ == key {
        Some(servers[0].1)
    } else {
        server_named(servers.drop_first(), key)
    }
}

/// The text of an optional string, or `otherwise`.
pub open spec fn text_or(s: Option<String>, otherwise: Seq<char>) -> Seq<char> {
    match s {
        Some(t) => t@,
        None => otherwise,
    }
}

/// The `sync` section and the server it names, when there is one by that name.
pub open spec fn synced_server(c: ExistConfig) -> Option<(SyncEntry, ServerEntry)> {
    match c.sync_entry() {
        Some(sy) => match sy.server {
            Some(k) => match server_named(c.server_list(), k@) {
                Some(e) => Some((sy, e)),
                None => None,
            },
            None => None,
        },
        None => None,
    }
}

/// The settings that `.existdb.json` gives: none when it names no server;
/// the server that `sync` names, with `sync`'s user, password and root taking
/// precedence, when there is one by that name; else the first server. A
/// missing root is `/db`.
pub open spec fn settings_from_config_spec(c: ExistConfig) -> Option<SettingsView> {
    if c.server_list().len() == 0 {
        None
    } else if let Some((sy, e)) = synced_server(c) {
        Some(
            SettingsView {
                uri: e.server@,
                user: text_or(sy.user, e.user@),
                password: text_or(sy.password, e.password@),
                db_path: text_or(sy.root, text_or(e.root, "/db"@)),
            },
        )
    } else {
        let e = c.server_list()[0].1;
        Some(
            SettingsView {
                uri: e.server@,
                user: e.user@,
                password: e.password@,
                db_path: text_or(e.root, "/db"@),
            },
        )
    }
}

fn find_server<'a>(servers: &'a Vec<(String, ServerEntry)>, key: &String) -> (r: Option<&'a ServerEntry>)
    ensures
        match server_named(servers@, key@) {
            None => r is None,
            Some(e) => r matches Some(x) && *x == e,
        },
{
    let mut i: usize = 0;
    proof {
        assert(servers@.skip(0) =~= servers@);
    }
    while i < servers.len()
        invariant
            i <= servers.len(),
            server_named(servers@, key@) == server_named(servers@.skip(i as int), key@),
        decreases servers.len() - i,
    {
        proof {
            assert(servers@.skip(i as int)[0] == servers@[i as int]);
            assert(servers@.skip(i as int).drop_first() =~= servers@.skip(i + 1));
        }
        if servers[i].0 == *key {
            return Some(&servers[i].1);
        }
        i += 1;
    }
    None
}

fn clone_or(s: &Option<String>, otherwise: String) -> (r: String)
    ensures
        r@ == text_or(*s, otherwise@),
{
    match s {
        Some(t) => t.clone(),
        None => otherwise,
    }
}

/// The settings that a workspace's `.existdb.json` gives.
pub fn settings_from_config(c: &ExistConfig) -> (r: Option<Settings>)
    ensures
        match settings_from_config_spec(*c) {
            None => r is None,
            Some(v) => r matches Some(s) && s@ == v,
        },
{
    let servers = c.servers();
    if servers.len() == 0 {
        return None;
    }
    if let Some(sy) = c.sync() {
        if let Some(k) = &sy.server {
            if let Some(e) = find_server(servers, k) {
                let root = clone_or(&e.root, String::from_str("/db"));
                return Some(
                    Settings {
                        uri: e.server.clone(),
                        user: clone_or(&sy.user, e.user.clone()),
                        password: clone_or(&sy.password, e.password.clone()),
                        db_path: clone_or(&sy.root, root),
                    },
                );
            }
        }
    }
    let e = &servers[0].1;
    Some(
        Settings {
            uri: e.server.clone(),
            user: e.user.clone(),
            password: e.password.clone(),
            db_path: clone_or(&e.root, String::from_str("/db")),
        },
    )
}

// ---------------------------------------------------------------------------
// Paths in the database
// ---------------------------------------------------------------------------

/// The database collection for a path relative to the workspace: `rel` under
/// `db_path`, either of them alone when the other is empty, `/db` when both
/// are.
pub open spec fn base_path_spec(db_path: Seq<char>, rel: Seq<char>) -> Seq<char> {
    if db_path.len() == 0 && rel.len() == 0 {
        "/db"@
    } else if rel.len() == 0 {
        db_path
    } else if db_path.len() == 0 {
        rel
    } else {
        db_path + "/"@ + rel
    }
}

/// The database collection for a path relative to the workspace.
pub fn make_base_path(db_path: &str, rel: &str) -> (r: String)
    ensures
        r@ == base_path_spec(db_path@, rel@),
{
    let db_empty = db_path.is_empty();
    let rel_empty = rel.is_empty();
    if db_empty && rel_empty {
        String::from_str("/db")
    } else if rel_empty {
        String::from_str(db_path)
    } else if db_empty {
        String::from_str(rel)
    } else {
        concat3(db_path, "/", rel)
    }
}

// ---------------------------------------------------------------------------
// Credentials
// ---------------------------------------------------------------------------

/// The character of the standard Base64 alphabet (RFC 4648) for the six-bit
/// value `v`: `A`-`Z`, `a`-`z`, `0`-`9`, `+`, `/`.
pub open spec fn base64_char(v: int) -> char {
    if v < 26 {
        (0x41 + v) as char
    } else if v < 52 {
        (0x61 + (v - 26)) as char
    } else if v < 62 {
        (0x30 + (v - 52)) as char
    } else if v == 62 {
        '+'
    } else {
        '/'
    }
}

/// The standard Base64 encoding of `bytes`, with padding: each group of
/// three bytes gives four characters of six bits each; a last group of one
/// or two bytes is filled with zero bits and padded with `=` to four.
pub open spec fn base64_standard(bytes: Seq<u8>) -> Seq<char>
    decreases bytes.len(),
{
    if bytes.len() == 0 {
        Seq::empty()
    } else if bytes.len() == 1 {
        let a = bytes[0] as int;
        seq![base64_char(a / 4), base64_char((a % 4) * 16), '=', '=']
    } else if bytes.len() == 2 {
        let a = bytes[0] as int;
        let b = bytes[1] as int;
        seq![base64_char(a / 4), base64_char((a % 4) * 16 + b / 16), base64_char((b % 16) * 4), '=']
    } else {
        let a = bytes[0] as int;
        let b = bytes[1] as int;
        let c = bytes[2] as int;
        seq![
            base64_char(a / 4),
            base64_char((a % 4) * 16 + b / 16),
            base64_char((b % 16) * 4 + c / 64),
            base64_char(c % 64),
        ] + base64_standard(bytes.skip(3))
    }
}

/// `base64::engine::general_purpose::STANDARD.encode`: the standard alphabet
/// with padding, as `base64_standard` states it.
#[verifier::external_body]
fn base64_encode(bytes: &[u8]) -> (r: String)
    ensures
        r@ == base64_standard(bytes@),
{
    base64::engine::general_purpose::STANDARD.encode(bytes)
}

/// The `Authorization` header value: HTTP basic authentication with the
/// UTF-8 bytes of `user:password` in Base64.
pub open spec fn auth_header_spec(s: SettingsView) -> Seq<char> {
    "Basic "@ + base64_standard(vstd::utf8::encode_utf8(s.user + ":"@ + s.password))
}

/// The `Authorization` header value for the settings' credentials.
pub fn auth_header(settings: &Settings) -> (r: String)
    ensures
        r@ == auth_header_spec(settings@),
{
    let credentials = concat3(settings.user.as_str(), ":", settings.password.as_str());
    let encoded = base64_encode(credentials.as_str().as_bytes());
    crate::text::concat2("Basic ", encoded.as_str())
}

} // verus!

verus! {

/// The collection a document is compiled in is never empty.
pub proof fn law_base_path_nonempty(db_path: Seq<char>, rel: Seq<char>)
    ensures
        base_path_spec(db_path, rel).len() > 0,
{
    if db_path.len() > 0 && rel.len() > 0 {
        assert((db_path + "/"@ + rel).len() == db_path.len() + "/"@.len() + rel.len());
    } else if db_path.len() == 0 && rel.len() == 0 {
        reveal_strlit("/db");
    }
}

/// When `sync` names one of the configured servers, that server's address is
/// the one used.
pub proof fn law_sync_server_chosen(c: ExistConfig)
    requires
        c.server_list().len() > 0,
        synced_server(c) is Some,
    ensures
        settings_from_config_spec(c) matches Some(v) && v.uri == (synced_server(c)->0).1.server@,
{
}

/// A server is found by its name: with distinct names, looking up the name
/// of any listed server gives that server's entry.
pub proof fn law_server_found_by_name(servers: Seq<(String, ServerEntry)>, i: int)
    requires
        distinct_names(servers),
        0 <= i < servers.len(),
    ensures
        server_named(servers, servers[i].0@) == Some(servers[i].1),
    decreases i,
{
    if i > 0 {
        let rest = servers.drop_first();
        assert(servers[0].0@ != servers[i].0@);
        assert(rest[i - 1] == servers[i]);
        assert forall|a: int, b: int| 0 <= a < b < rest.len() implies rest[a].0@ != rest[b].0@ by {
            assert(rest[a] == servers[a + 1] && rest[b] == servers[b + 1]);
        }
        law_server_found_by_name(rest, i - 1);
    }
}

/// Each of the options `server`, `user`, `password` and `path` that holds a
/// string replaces its setting by that string; one that does not leaves the
/// default in place: `http://localhost:8080/exist`, user `admin`, an empty
/// password and an empty path. Without options all four are the defaults.
pub proof fn law_options_replace_defaults(o: Json)
    ensures
        ({
            let r = settings_from_options_spec(Some(o));
            let d = SettingsView {
                uri: "http://localhost:8080/exist"@,
                user: "admin"@,
                password: Seq::empty(),
                db_path: Seq::empty(),
            };
            &&& settings_from_options_spec(None) == d
            &&& json_index(o, "server"@) matches Json::Str(t) ==> r.uri == t@
            &&& json_index(o, "user"@) matches Json::Str(t) ==> r.user == t@
            &&& json_index(o, "password"@) matches Json::Str(t) ==> r.password == t@
            &&& json_index(o, "path"@) matches Json::Str(t) ==> r.db_path == t@
            &&& !(json_index(o, "server"@) is Str) ==> r.uri == d.uri
            &&& !(json_index(o, "user"@) is Str) ==> r.user == d.user
            &&& !(json_index(o, "password"@) is Str) ==> r.password == d.password
            &&& !(json_index(o, "path"@) is Str) ==> r.db_path == d.db_path
        }),
{
}

/// When `sync` names a listed server, that server is used, and each of
/// `sync`'s user, password and root that is given overrides the server's: the
/// server's root counts only when `sync` gives none, and `/db` only when
/// neither does.
pub proof fn law_sync_overrides_server(c: ExistConfig, i: int)
    requires
        distinct_names(c.server_list()),
        0 <= i < c.server_list().len(),
        c.sync_entry() matches Some(sy) && sy.server matches Some(k) && k@ == c.server_list()[i].0@,
    ensures
        ({
            let sy = c.sync_entry()->0;
            let e = c.server_list()[i].1;
            &&& settings_from_config_spec(c) is Some
            &&& settings_from_config_spec(c)->0.uri == e.server@
            &&& sy.user matches Some(u) ==> settings_from_config_spec(c)->0.user == u@
            &&& sy.user is None ==> settings_from_config_spec(c)->0.user == e.user@
            &&& sy.password matches Some(w) ==> settings_from_config_spec(c)->0.password == w@
            &&& sy.password is None ==> settings_from_config_spec(c)->0.password == e.password@
            &&& sy.root matches Some(r) ==> settings_from_config_spec(c)->0.db_path == r@
            &&& sy.root is None ==> (e.root matches Some(r) ==> settings_from_config_spec(c)->0.db_path == r@)
            &&& (sy.root is None && e.root is None) ==> settings_from_config_spec(c)->0.db_path == "/db"@
        }),
{
    let sy = c.sync_entry()->0;
    law_server_found_by_name(c.server_list(), i);
    assert(server_named(c.server_list(), (sy.server->0)@) == Some(c.server_list()[i].1));
}

/// Without a `sync` section that names a listed server, the first server is
/// used as it stands, with `/db` when it gives no root.
pub proof fn law_first_server_otherwise(c: ExistConfig)
    requires
        c.server_list().len() > 0,
        match c.sync_entry() {
            None => true,
            Some(sy) => match sy.server {
                None => true,
                Some(k) => forall|i: int| 0 <= i < c.server_list().len() ==> c.server_list()[i].0@ != k@,
            },
        },
    ensures
        ({
            let e = c.server_list()[0].1;
            &&& settings_from_config_spec(c) is Some
            &&& settings_from_config_spec(c)->0.uri == e.server@
            &&& settings_from_config_spec(c)->0.user == e.user@
            &&& settings_from_config_spec(c)->0.password == e.password@
            &&& e.root matches Some(r) ==> settings_from_config_spec(c)->0.db_path == r@
            &&& e.root is None ==> settings_from_config_spec(c)->0.db_path == "/db"@
        }),
{
    if let Some(sy) = c.sync_entry() {
        if let Some(k) = sy.server {
            lemma_no_server_named(c.server_list(), k@);
        }
    }
}

proof fn lemma_no_server_named(servers: Seq<(String, ServerEntry)>, key: Seq<char>)
    requires
        forall|i: int| 0 <= i < servers.len() ==> servers[i].0@ != key,
    ensures
        server_named(servers, key) is None,
    decreases servers.len(),
{
    if servers.len() > 0 {
        assert(servers[0].0@ != key);
        assert forall|i: int| 0 <= i < servers.drop_first().len() implies servers.drop_first()[i].0@ != key by {
            assert(servers.drop_first()[i] == servers[i + 1]);
        }
        lemma_no_server_named(servers.drop_first(), key);
    }
}

} // verus!
