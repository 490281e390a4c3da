//! The HTTP requests made to the eXist-db server, described as plain values
//! for the caller to send.
use vstd::prelude::*;
use crate::imports::{import_view, imports_view, Import};
use crate::settings::{auth_header, auth_header_spec, Settings, SettingsView};
use crate::text::{concat2, concat3, decimal, format_decimal, index_of, chars_of, next_index_of, string_from_chars};

verus! {

/// An HTTP method.
#[derive(PartialEq, Eq, Structural, Clone, Copy, Debug)]
pub enum Method {
    Get,
    Put,
}

/// An HTTP request: method, URL, headers and query parameters in the order
/// they are set, an optional body, and optional timeouts in seconds (for
/// connecting, and for the whole request).
pub struct HttpRequest {
    pub method: Method,
    pub url: String,
    pub headers: Vec<(String, String)>,
    pub query: Vec<(String, String)>,
    pub body: Option<Vec<u8>>,
    pub timeouts: Option<(u64, u64)>,
}

/// Name-value pairs as texts.
pub open spec fn pairs_view(v: Seq<(String, String)>) -> Seq<(Seq<char>, Seq<char>)> {
    v.map_values(|p: (String, String)| (p.0@, p.1@))
}

/// A request as plain values.
pub struct RequestView {
    pub method: Method,
    pub url: Seq<char>,
    pub headers: Seq<(Seq<char>, Seq<char>)>,
    pub query: Seq<(Seq<char>, Seq<char>)>,
    pub body: Option<Seq<u8>>,
    pub timeouts: Option<(u64, u64)>,
}

impl View for HttpRequest {
    type V = RequestView;

    open spec fn view(&self) -> RequestView {
        RequestView {
            method: self.method,
            url: self.url@,
            headers: pairs_view(self.headers@),
            query: pairs_view(self.query@),
            body: match self.body {
                Some(b) => Some(b@),
                None => None,
            },
            timeouts: self.timeouts,
        }
    }
}

fn pair(a: &str, b: &str) -> (r: (String, String))
    ensures
        r.0@ == a@,
        r.1@ == b@,
{
    (String::from_str(a), String::from_str(b))
}

// ---------------------------------------------------------------------------
// XQuery through the REST interface
// ---------------------------------------------------------------------------

/// A request that runs `xquery` through the REST interface, answering JSON
/// as the query itself serialises it.
pub open spec fn xquery_request_spec(s: SettingsView, xquery: Seq<char>, timeouts: (u64, u64)) -> RequestView {
    RequestView {
        method: Method::Get,
        url: s.uri + "/rest/db"@,
        headers: seq![("Authorization"@, auth_header_spec(s))],
        query: seq![("_query"@, xquery), ("_wrap"@, "no"@)],
        body: None,
        timeouts: Some(timeouts),
    }
}

/// The request that runs `xquery` on the server.
pub fn xquery_request(settings: &Settings, xquery: &str, connect_secs: u64, total_secs: u64) -> (r:
    HttpRequest)
    ensures
        r@ == xquery_request_spec(settings@, xquery@, (connect_secs, total_secs)),
{
    let auth = auth_header(settings);
    let mut headers: Vec<(String, String)> = Vec::new();
    headers.push((String::from_str("Authorization"), auth));
    let mut query: Vec<(String, String)> = Vec::new();
    query.push(pair("_query", xquery));
    query.push(pair("_wrap", "no"));
    let r = HttpRequest {
        method: Method::Get,
        url: concat2(settings.uri.as_str(), "/rest/db"),
        headers,
        query,
        body: None,
        timeouts: Some((connect_secs, total_secs)),
    };
    assert(r@.headers =~= seq![("Authorization"@, auth_header_spec(settings@))]);
    assert(r@.query =~= seq![("_query"@, xquery@), ("_wrap"@, "no"@)]);
    r
}

// ---------------------------------------------------------------------------
// The support package
// ---------------------------------------------------------------------------

/// Version of the server-side support package that this library works with.
pub open spec fn xar_version() -> Seq<char> {
    "1.1.0"@
}

/// File name of the support package.
pub open spec fn xar_filename() -> Seq<char> {
    "atom-editor-1.1.0.xar"@
}

/// Where the support package is downloaded from.
pub open spec fn xar_download_url() -> Seq<char> {
    "https://raw.githubusercontent.com/wolfgangmm/existdb-langserver/master/resources/atom-editor-1.1.0.xar"@
}

/// The package URI of the support package.
pub open spec fn package_uri() -> Seq<char> {
    "http://exist-db.org/apps/atom-editor"@
}

/// Version of the support package.
pub fn xar_version_str() -> (r: &'static str)
    ensures
        r@ == xar_version(),
{
    "1.1.0"
}

fn xar_filename_str() -> (r: &'static str)
    ensures
        r@ == xar_filename(),
{
    "atom-editor-1.1.0.xar"
}

fn package_uri_str() -> (r: &'static str)
    ensures
        r@ == package_uri(),
{
    "http://exist-db.org/apps/atom-editor"
}

/// The query that asks whether the support package is installed: `true` when
/// the required version is, the installed version when another one is, and
/// `false` when none is.
pub open spec fn check_query() -> Seq<char> {
    "xquery version \"3.0\";\ndeclare namespace expath=\"http://expath.org/ns/pkg\";\ndeclare namespace output=\"http://www.w3.org/2010/xslt-xquery-serialization\";\ndeclare option output:method \"json\";\ndeclare option output:media-type \"application/json\";\nif (\""@
        + package_uri() + "\" = repo:list()) then\n  let $data := repo:get-resource(\""@ + package_uri()
        + "\", \"expath-pkg.xml\")\n  let $xml  := parse-xml(util:binary-to-string($data))\n  return\n    if ($xml/expath:package/@version = \""@
        + xar_version()
        + "\") then\n      true()\n    else\n      $xml/expath:package/@version/string()\nelse\n  false()"@
}

/// The request that checks the support package, with short timeouts.
pub fn check_request(settings: &Settings) -> (r: HttpRequest)
    ensures
        r@ == xquery_request_spec(settings@, check_query(), (5, 10)),
{
    let q = concat3(
        "xquery version \"3.0\";\ndeclare namespace expath=\"http://expath.org/ns/pkg\";\ndeclare namespace output=\"http://www.w3.org/2010/xslt-xquery-serialization\";\ndeclare option output:method \"json\";\ndeclare option output:media-type \"application/json\";\nif (\"",
        package_uri_str(),
        "\" = repo:list()) then\n  let $data := repo:get-resource(\"",
    );
    let q = concat3(
        q.as_str(),
        package_uri_str(),
        "\", \"expath-pkg.xml\")\n  let $xml  := parse-xml(util:binary-to-string($data))\n  return\n    if ($xml/expath:package/@version = \"",
    );
    let q = concat3(
        q.as_str(),
        xar_version_str(),
        "\") then\n      true()\n    else\n      $xml/expath:package/@version/string()\nelse\n  false()",
    );
    xquery_request(settings, q.as_str(), 5, 10)
}

/// Where the uploaded support package is stored in the database.
pub open spec fn xar_db_path() -> Seq<char> {
    "/db/system/repo/"@ + xar_filename()
}

/// The query that installs the uploaded package, replacing an installed one.
pub open spec fn install_query() -> Seq<char> {
    "xquery version \"3.1\";\ndeclare namespace expath=\"http://expath.org/ns/pkg\";\ndeclare namespace output=\"http://www.w3.org/2010/xslt-xquery-serialization\";\ndeclare option output:method \"json\";\ndeclare option output:media-type \"application/json\";\ndeclare variable $repo := \"http://demo.exist-db.org/exist/apps/public-repo/modules/find.xql\";\ndeclare function local:remove($pkg as xs:string) as xs:boolean {\n  if ($pkg = repo:list()) then\n    let $u := repo:undeploy($pkg) let $r := repo:remove($pkg) return $r\n  else false()\n};\nlet $xarPath := \""@
        + xar_db_path()
        + "\"\nlet $meta    :=\n  try {\n    compression:unzip(\n      util:binary-doc($xarPath),\n      function($p,$t,$x){ $p=\"expath-pkg.xml\" }, (),\n      function($p,$t,$d,$x){ $d }, ()\n    )\n  } catch * { error(xs:QName(\"local:err\"),\"Failed to unpack\") }\nlet $pkg     := $meta//expath:package/string(@name)\nlet $_       := local:remove($pkg)\nlet $_       := repo:install-and-deploy-from-db($xarPath, $repo)\nreturn repo:get-root()"@
}

/// The request that installs the uploaded package.
pub fn install_request(settings: &Settings) -> (r: HttpRequest)
    ensures
        r@ == xquery_request_spec(settings@, install_query(), (10, 30)),
{
    let path = concat2("/db/system/repo/", xar_filename_str());
    let q = concat3(
        "xquery version \"3.1\";\ndeclare namespace expath=\"http://expath.org/ns/pkg\";\ndeclare namespace output=\"http://www.w3.org/2010/xslt-xquery-serialization\";\ndeclare option output:method \"json\";\ndeclare option output:media-type \"application/json\";\ndeclare variable $repo := \"http://demo.exist-db.org/exist/apps/public-repo/modules/find.xql\";\ndeclare function local:remove($pkg as xs:string) as xs:boolean {\n  if ($pkg = repo:list()) then\n    let $u := repo:undeploy($pkg) let $r := repo:remove($pkg) return $r\n  else false()\n};\nlet $xarPath := \"",
        path.as_str(),
        "\"\nlet $meta    :=\n  try {\n    compression:unzip(\n      util:binary-doc($xarPath),\n      function($p,$t,$x){ $p=\"expath-pkg.xml\" }, (),\n      function($p,$t,$d,$x){ $d }, ()\n    )\n  } catch * { error(xs:QName(\"local:err\"),\"Failed to unpack\") }\nlet $pkg     := $meta//expath:package/string(@name)\nlet $_       := local:remove($pkg)\nlet $_       := repo:install-and-deploy-from-db($xarPath, $repo)\nreturn repo:get-root()",
    );
    xquery_request(settings, q.as_str(), 10, 30)
}

/// The request that downloads the support package.
pub open spec fn download_request_spec() -> RequestView {
    RequestView {
        method: Method::Get,
        url: xar_download_url(),
        headers: Seq::empty(),
        query: Seq::empty(),
        body: None,
        timeouts: Some((10, 60)),
    }
}

/// The request that downloads the support package.
pub fn download_request() -> (r: HttpRequest)
    ensures
        r@ == download_request_spec(),
{
    let r = HttpRequest {
        method: Method::Get,
        url: String::from_str(
            "https://raw.githubusercontent.com/wolfgangmm/existdb-langserver/master/resources/atom-editor-1.1.0.xar",
        ),
        headers: Vec::new(),
        query: Vec::new(),
        body: None,
        timeouts: Some((10, 60)),
    };
    assert(r@.headers =~= Seq::<(Seq<char>, Seq<char>)>::empty());
    assert(r@.query =~= Seq::<(Seq<char>, Seq<char>)>::empty());
    r
}

/// The request that stores the package bytes in the database.
pub open spec fn upload_request_spec(s: SettingsView, bytes: Seq<u8>) -> RequestView {
    RequestView {
        method: Method::Put,
        url: s.uri + "/rest"@ + xar_db_path(),
        headers: seq![
            ("Authorization"@, auth_header_spec(s)),
            ("Content-Type"@, "application/octet-stream"@),
        ],
        query: Seq::empty(),
        body: Some(bytes),
        timeouts: Some((10, 30)),
    }
}

/// The request that stores the package bytes in the database.
pub fn upload_request(settings: &Settings, bytes: Vec<u8>) -> (r: HttpRequest)
    ensures
        r@ == upload_request_spec(settings@, bytes@),
{
    let path = concat2("/db/system/repo/", xar_filename_str());
    let url = concat3(settings.uri.as_str(), "/rest", path.as_str());
    let mut headers: Vec<(String, String)> = Vec::new();
    headers.push((String::from_str("Authorization"), auth_header(settings)));
    headers.push(pair("Content-Type", "application/octet-stream"));
    let ghost b = bytes@;
    let r = HttpRequest {
        method: Method::Put,
        url,
        headers,
        query: Vec::new(),
        body: Some(bytes),
        timeouts: Some((10, 30)),
    };
    assert(r@.headers =~= seq![
        ("Authorization"@, auth_header_spec(settings@)),
        ("Content-Type"@, "application/octet-stream"@),
    ]);
    assert(r@.query =~= Seq::<(Seq<char>, Seq<char>)>::empty());
    r
}

// ---------------------------------------------------------------------------
// Function descriptions
// ---------------------------------------------------------------------------

/// The namespace prefix of a function name: what precedes its first `:`.
pub open spec fn name_prefix(name: Seq<char>) -> Seq<char> {
    name.take(index_of(name, ':') as int)
}

/// Imports with the given prefix, in order.
pub open spec fn imports_with_prefix(imps: Seq<(Seq<char>, Seq<char>, Seq<char>)>, prefix: Seq<char>) -> Seq<
    (Seq<char>, Seq<char>, Seq<char>),
>
    decreases imps.len(),
{
    if imps.len() == 0 {
        Seq::empty()
    } else {
        let rest = imports_with_prefix(imps.drop_last(), prefix);
        if imps.last().0 == prefix {
            rest.push(imps.last())
        } else {
            rest
        }
    }
}

/// The imports worth telling the server about: those with the function's
/// prefix when there are any, else all of them.
pub open spec fn relevant_imports(imps: Seq<(Seq<char>, Seq<char>, Seq<char>)>, name: Seq<char>) -> Seq<
    (Seq<char>, Seq<char>, Seq<char>),
> {
    if exists|i: int| 0 <= i < imps.len() && (#[trigger] imps[i]).0 == name_prefix(name) {
        imports_with_prefix(imps, name_prefix(name))
    } else {
        imps
    }
}

/// Query parameters describing imports: prefix, URI and source of each.
pub open spec fn import_params(imps: Seq<(Seq<char>, Seq<char>, Seq<char>)>) -> Seq<(Seq<char>, Seq<char>)>
    decreases imps.len(),
{
    if imps.len() == 0 {
        Seq::empty()
    } else {
        import_params(imps.drop_last()) + seq![
            ("mprefix[]"@, imps.last().0),
            ("uri[]"@, imps.last().1),
            ("source[]"@, imps.last().2),
        ]
    }
}

/// The request that asks the server to describe function `name#arity` as
/// seen from collection `base`, telling it of the relevant imports.
pub open spec fn describe_request_spec(
    s: SettingsView,
    name: Seq<char>,
    arity: nat,
    imps: Seq<(Seq<char>, Seq<char>, Seq<char>)>,
    base: Seq<char>,
) -> RequestView {
    RequestView {
        method: Method::Get,
        url: s.uri + "/apps/atom-editor/atom-autocomplete.xql"@,
        headers: seq![("Authorization"@, auth_header_spec(s))],
        query: seq![("signature"@, name + "#"@ + decimal(arity)), ("base"@, base)] + import_params(
            relevant_imports(imps, name),
        ),
        body: None,
        timeouts: None,
    }
}

fn prefix_of(name: &str) -> (r: String)
    ensures
        r@ == name_prefix(name@),
{
    let v = chars_of(name);
    let k = next_index_of(&v, 0, ':');
    proof {
        assert(v@.skip(0) =~= v@);
        assert(v@.subrange(0, k as int) =~= v@.take(k as int));
    }
    string_from_chars(&v, 0, k)
}

fn push_import_params(query: &mut Vec<(String, String)>, imp: &Import)
    ensures
        pairs_view(final(query)@) == pairs_view(old(query)@) + seq![
            ("mprefix[]"@, imp.prefix@),
            ("uri[]"@, imp.uri@),
            ("source[]"@, imp.source@),
        ],
{
    let ghost before = query@;
    query.push((String::from_str("mprefix[]"), imp.prefix.clone()));
    query.push((String::from_str("uri[]"), imp.uri.clone()));
    query.push((String::from_str("source[]"), imp.source.clone()));
    assert(pairs_view(query@) =~= pairs_view(before) + seq![
        ("mprefix[]"@, imp.prefix@),
        ("uri[]"@, imp.uri@),
        ("source[]"@, imp.source@),
    ]);
}

/// The request that asks the server to describe a function.
pub fn describe_request(
    settings: &Settings,
    fn_name: &str,
    arity: usize,
    imports: &Vec<Import>,
    base_path: &str,
) -> (r: HttpRequest)
    ensures
        r@ == describe_request_spec(settings@, fn_name@, arity as nat, imports_view(imports@), base_path@),
{
    let ghost iv = imports_view(imports@);
    let url = concat2(settings.uri.as_str(), "/apps/atom-editor/atom-autocomplete.xql");
    let arity_text = format_decimal(arity);
    let signature = concat3(fn_name, "#", arity_text.as_str());
    let mut headers: Vec<(String, String)> = Vec::new();
    headers.push((String::from_str("Authorization"), auth_header(settings)));
    let mut query: Vec<(String, String)> = Vec::new();
    query.push((String::from_str("signature"), signature));
    query.push(pair("base", base_path));
    let ghost head = pairs_view(query@);
    assert(head =~= seq![("signature"@, fn_name@ + "#"@ + decimal(arity as nat)), ("base"@, base_path@)]);
    let prefix = prefix_of(fn_name);
    // Is there an import with the function's prefix?
    let mut any = false;
    let mut i: usize = 0;
    while i < imports.len()
        invariant
            i <= imports.len(),
            iv == imports_view(imports@),
            prefix@ == name_prefix(fn_name@),
            any <==> exists|j: int| 0 <= j < i && (#[trigger] iv[j]).0 == prefix@,
        decreases imports.len() - i,
    {
        proof {
            assert(iv[i as int] == import_view(imports@[i as int]));
        }
        if imports[i].prefix == prefix {
            any = true;
        }
        i += 1;
    }
    let ghost rel = relevant_imports(iv, fn_name@);
    let mut k: usize = 0;
    let ghost chosen: Seq<(Seq<char>, Seq<char>, Seq<char>)> = Seq::empty();
    while k < imports.len()
        invariant
            k <= imports.len(),
            iv == imports_view(imports@),
            prefix@ == name_prefix(fn_name@),
            any <==> exists|j: int| 0 <= j < imports.len() && (#[trigger] iv[j]).0 == prefix@,
            chosen == (if any {
                imports_with_prefix(iv.take(k as int), prefix@)
            } else {
                iv.take(k as int)
            }),
            pairs_view(query@) == head + import_params(chosen),
        decreases imports.len() - k,
    {
        let imp = &imports[k];
        proof {
            assert(iv[k as int] == import_view(*imp));
            assert(iv.take(k + 1).drop_last() =~= iv.take(k as int));
            assert(iv.take(k + 1).last() == iv[k as int]);
        }
        if !any || imp.prefix == prefix {
            push_import_params(&mut query, imp);
            proof {
                let next = chosen.push(import_view(*imp));
                assert(next.drop_last() =~= chosen);
                assert(import_params(next) == import_params(chosen) + seq![
                    ("mprefix[]"@, imp.prefix@),
                    ("uri[]"@, imp.uri@),
                    ("source[]"@, imp.source@),
                ]);
                chosen = next;
                assert(head + import_params(next) =~= pairs_view(query@));
            }
        }
        k += 1;
    }
    proof {
        assert(iv.take(imports.len() as int) =~= iv);
        assert(chosen == relevant_imports(iv, fn_name@));
    }
    let r = HttpRequest {
        method: Method::Get,
        url,
        headers,
        query,
        body: None,
        timeouts: None,
    };
    assert(r@.headers =~= seq![("Authorization"@, auth_header_spec(settings@))]);
    assert(r@.query =~= seq![("signature"@, fn_name@ + "#"@ + decimal(arity as nat)), ("base"@, base_path@)]
        + import_params(relevant_imports(iv, fn_name@)));
    r
}

// ---------------------------------------------------------------------------
// Compiling a document
// ---------------------------------------------------------------------------

/// The request that compiles `text` as a module stored in collection `base`.
pub open spec fn compile_request_spec(s: SettingsView, base: Seq<char>, text: Seq<char>) -> RequestView {
    RequestView {
        method: Method::Put,
        url: s.uri + "/apps/atom-editor/compile.xql"@,
        headers: seq![
            ("Content-Type"@, "application/octet-stream"@),
            ("X-BasePath"@, base),
            ("Authorization"@, auth_header_spec(s)),
        ],
        query: Seq::empty(),
        body: Some(vstd::utf8::encode_utf8(text)),
        timeouts: None,
    }
}

/// The request that compiles a document.
pub fn compile_request(settings: &Settings, base_path: &str, text: &str) -> (r: HttpRequest)
    ensures
        r@ == compile_request_spec(settings@, base_path@, text@),
{
    let url = concat2(settings.uri.as_str(), "/apps/atom-editor/compile.xql");
    let mut headers: Vec<(String, String)> = Vec::new();
    headers.push(pair("Content-Type", "application/octet-stream"));
    headers.push(pair("X-BasePath", base_path));
    headers.push((String::from_str("Authorization"), auth_header(settings)));
    let body = text.as_bytes_vec();
    let r = HttpRequest { method: Method::Put, url, headers, query: Vec::new(), body: Some(body), timeouts: None };
    assert(r@.headers =~= seq![
        ("Content-Type"@, "application/octet-stream"@),
        ("X-BasePath"@, base_path@),
        ("Authorization"@, auth_header_spec(settings@)),
    ]);
    assert(r@.query =~= Seq::<(Seq<char>, Seq<char>)>::empty());
    r
}

} // verus!
