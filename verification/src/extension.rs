//! The editor extension's side: which language-server binary to start.
use vstd::prelude::*;
use crate::text::{chars_of, concat2, concat3};

verus! {

/// `name` appended to the path `base` as a component, as `Path::join` does on
/// Unix for a relative `name`: a separator is added unless `base` is empty or
/// already ends in one.
pub open spec fn join_component(base: Seq<char>, name: Seq<char>) -> Seq<char> {
    if base.len() == 0 {
        name
    } else if base.last() == '/' {
        base + name
    } else {
        base + "/"@ + name
    }
}

/// Where `cargo install` puts the server binary under home directory `home`.
pub open spec fn cargo_bin_spec(home: Seq<char>) -> Seq<char> {
    join_component(join_component(join_component(home, ".cargo"@), "bin"@), "xquery-lsp-server"@)
}

fn join(base: &str, name: &str) -> (r: String)
    ensures
        r@ == join_component(base@, name@),
{
    let v = chars_of(base);
    if v.len() == 0 {
        String::from_str(name)
    } else if v[v.len() - 1] == '/' {
        concat2(base, name)
    } else {
        concat3(base, "/", name)
    }
}

/// Where `cargo install` puts the server binary under `home`.
pub fn cargo_bin_path(home: &str) -> (r: String)
    ensures
        r@ == cargo_bin_spec(home@),
{
    let a = join(home, ".cargo");
    let b = join(a.as_str(), "bin");
    join(b.as_str(), "xquery-lsp-server")
}

/// The message shown when no server binary is found.
pub open spec fn not_found_message() -> Seq<char> {
    "xquery-lsp-server not found. Install it with: cargo install --path lsp-server (run from the extension source directory)."@
}

/// The command that starts the server: the binary found on the `PATH` when
/// there is one, else the one that `cargo install` left (`installed` says
/// whether that file exists), else an error telling how to install it.
pub open spec fn server_command_spec(on_path: Option<Seq<char>>, cargo_bin: Option<Seq<char>>, installed: bool) -> Result<
    Seq<char>,
    Seq<char>,
> {
    match on_path {
        Some(p) => Ok(p),
        None => match cargo_bin {
            Some(c) => if installed {
                Ok(c)
            } else {
                Err(not_found_message())
            },
            None => Err(not_found_message()),
        },
    }
}

/// The command that starts the server.
pub fn server_command(on_path: Option<String>, cargo_bin: Option<String>, installed: bool) -> (r: Result<
    String,
    String,
>)
    ensures
        match server_command_spec(
            match on_path {
                Some(p) => Some(p@),
                None => None,
            },
            match cargo_bin {
                Some(c) => Some(c@),
                None => None,
            },
            installed,
        ) {
            Ok(c) => r matches Ok(x) && x@ == c,
            Err(m) => r matches Err(x) && x@ == m,
        },
{
    match on_path {
        Some(p) => Ok(p),
        None => match cargo_bin {
            Some(c) => if installed {
                Ok(c)
            } else {
                Err(
                    String::from_str(
                        "xquery-lsp-server not found. Install it with: cargo install --path lsp-server (run from the extension source directory).",
                    ),
                )
            },
            None => Err(
                String::from_str(
                    "xquery-lsp-server not found. Install it with: cargo install --path lsp-server (run from the extension source directory).",
                ),
            ),
        },
    }
}

} // verus!
