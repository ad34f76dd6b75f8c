//! Which language a file is in, and which server and workspace root serve it.
use vstd::prelude::*;
use crate::text::{path_extension, path_extension_of, str_eq};

verus! {

/// An optional string literal as characters.
pub open spec fn opt_str_view(o: Option<&str>) -> Option<Seq<char>> {
    match o {
        Some(s) => Some(s@),
        None => None,
    }
}

/// The language identifier for a file extension.
pub open spec fn language_of_extension(ext: Seq<char>) -> Option<Seq<char>> {
    if ext == "rs"@ {
        Some("rust"@)
    } else if ext == "py"@ {
        Some("python"@)
    } else if ext == "ts"@ || ext == "tsx"@ {
        Some("typescript"@)
    } else if ext == "js"@ || ext == "jsx"@ {
        Some("javascript"@)
    } else if ext == "go"@ {
        Some("go"@)
    } else if ext == "c"@ || ext == "h"@ {
        Some("c"@)
    } else if ext == "cpp"@ || ext == "cc"@ || ext == "cxx"@ || ext == "hpp"@ {
        Some("cpp"@)
    } else {
        None
    }
}

/// The language identifier for a file extension.
pub fn language_for_extension(ext: &str) -> (lang: Option<&'static str>)
    ensures
        opt_str_view(lang) == language_of_extension(ext@),
{
    if str_eq(ext, "rs") {
        Some("rust")
    } else if str_eq(ext, "py") {
        Some("python")
    } else if str_eq(ext, "ts") || str_eq(ext, "tsx") {
        Some("typescript")
    } else if str_eq(ext, "js") || str_eq(ext, "jsx") {
        Some("javascript")
    } else if str_eq(ext, "go") {
        Some("go")
    } else if str_eq(ext, "c") || str_eq(ext, "h") {
        Some("c")
    } else if str_eq(ext, "cpp") || str_eq(ext, "cc") || str_eq(ext, "cxx") || str_eq(ext, "hpp") {
        Some("cpp")
    } else {
        None
    }
}

/// Maps a file's extension to a language identifier.
pub fn language_for_path(path: &str) -> (lang: Option<&'static str>)
    ensures
        opt_str_view(lang) == match path_extension_of(path@) {
            Some(e) => language_of_extension(e),
            None => None,
        },
{
    match path_extension(path) {
        Some(ext) => language_for_extension(ext.as_str()),
        None => None,
    }
}

/// The string literals of a list, as characters.
pub open spec fn strs_view(v: Seq<&str>) -> Seq<Seq<char>> {
    Seq::new(v.len(), |i: int| v[i]@)
}

/// The server binaries to try for a language, in order.
pub open spec fn server_candidates(language: Seq<char>) -> Seq<Seq<char>> {
    if language == "rust"@ {
        seq!["rust-analyzer"@]
    } else if language == "python"@ {
        seq!["pyright-langserver"@, "pylsp"@]
    } else if language == "typescript"@ || language == "javascript"@ {
        seq!["typescript-language-server"@]
    } else if language == "go"@ {
        seq!["gopls"@]
    } else if language == "c"@ || language == "cpp"@ {
        seq!["clangd"@]
    } else {
        seq![]
    }
}

/// Candidate server binaries, in fallback order, for a language.
pub fn candidates_for(language: &str) -> (c: Vec<&'static str>)
    ensures
        strs_view(c@) == server_candidates(language@),
{
    let mut c: Vec<&'static str> = Vec::new();
    if str_eq(language, "rust") {
        c.push("rust-analyzer");
    } else if str_eq(language, "python") {
        c.push("pyright-langserver");
        c.push("pylsp");
    } else if str_eq(language, "typescript") || str_eq(language, "javascript") {
        c.push("typescript-language-server");
    } else if str_eq(language, "go") {
        c.push("gopls");
    } else if str_eq(language, "c") || str_eq(language, "cpp") {
        c.push("clangd");
    }
    proof {
        assert(strs_view(c@) =~= server_candidates(language@));
    }
    c
}

/// The command-line flags that make a server speak LSP over stdio.
pub open spec fn server_args(binary: Seq<char>) -> Seq<Seq<char>> {
    if binary == "pyright-langserver"@ || binary == "typescript-language-server"@ {
        seq!["--stdio"@]
    } else {
        seq![]
    }
}

/// The flags to start a server binary with.
pub fn args_for(binary: &str) -> (a: Vec<&'static str>)
    ensures
        strs_view(a@) == server_args(binary@),
{
    let mut a: Vec<&'static str> = Vec::new();
    if str_eq(binary, "pyright-langserver") || str_eq(binary, "typescript-language-server") {
        a.push("--stdio");
    }
    proof {
        assert(strs_view(a@) =~= server_args(binary@));
    }
    a
}

/// The file whose directory is the workspace root for a language (empty
/// when the language has none).
pub open spec fn root_marker(language: Seq<char>) -> Seq<char> {
    if language == "rust"@ {
        "Cargo.toml"@
    } else if language == "python"@ {
        "pyproject.toml"@
    } else if language == "typescript"@ || language == "javascript"@ {
        "package.json"@
    } else if language == "go"@ {
        "go.mod"@
    } else if language == "c"@ || language == "cpp"@ {
        "CMakeLists.txt"@
    } else {
        ""@
    }
}

/// The marker file of a language's workspace root.
pub fn root_marker_for(language: &str) -> (m: &'static str)
    ensures
        m@ == root_marker(language@),
{
    if str_eq(language, "rust") {
        "Cargo.toml"
    } else if str_eq(language, "python") {
        "pyproject.toml"
    } else if str_eq(language, "typescript") || str_eq(language, "javascript") {
        "package.json"
    } else if str_eq(language, "go") {
        "go.mod"
    } else if str_eq(language, "c") || str_eq(language, "cpp") {
        "CMakeLists.txt"
    } else {
        ""
    }
}

/// The first `i` for which `found[i]` holds, if any.
pub open spec fn first_found(found: Seq<bool>) -> Option<int> {
    if exists|i: int| 0 <= i < found.len() && found[i] {
        Some(choose|i: int| 0 <= i < found.len() && found[i] && forall|j: int| 0 <= j < i ==> !found[j])
    } else {
        None
    }
}

/// The workspace root for a file in directory `start`: the nearest of its
/// `ancestors` (`start` first, then each parent) that holds the language's
/// marker file (`marker_found[i]` says whether `ancestors[i]` does), or
/// `start` itself when there is none or the language has no marker.
pub fn find_root(start: &str, language: &str, ancestors: &Vec<String>, marker_found: &Vec<bool>) -> (root: String)
    requires
        ancestors@.len() == marker_found@.len(),
    ensures
        root_marker(language@).len() == 0 ==> root@ == start@,
        root_marker(language@).len() > 0 ==> match first_found(marker_found@) {
            Some(i) => root@ == ancestors@[i]@,
            None => root@ == start@,
        },
{
    let marker = root_marker_for(language);
    proof {
        crate::text::lemma_bytes_empty(marker@);
    }
    if marker.as_bytes().len() == 0 {
        return start.to_owned();
    }
    let mut i: usize = 0;
    while i < marker_found.len()
        invariant
            i <= marker_found@.len(),
            ancestors@.len() == marker_found@.len(),
            root_marker(language@).len() > 0,
            forall|j: int| 0 <= j < i ==> !marker_found@[j],
        decreases marker_found@.len() - i,
    {
        if marker_found[i] {
            let root = ancestors[i].clone();
            proof {
                let w = choose|k: int| 0 <= k < marker_found@.len() && marker_found@[k] && forall|j: int|
                    0 <= j < k ==> !marker_found@[j];
                assert(marker_found@[i as int]);
                assert(w == i) by {
                    if w < i {
                    } else if w > i {
                        assert(!marker_found@[i as int]);
                    }
                }
            }
            return root;
        }
        i += 1;
    }
    start.to_owned()
}

/// The first candidate server for `language` that was found (`found[i]`
/// says whether the `i`-th of `candidates_for(language)` is on the search
/// path), with the arguments it needs.
pub fn pick_server(language: &str, found: &Vec<bool>) -> (r: Option<(&'static str, Vec<&'static str>)>)
    requires
        found@.len() == server_candidates(language@).len(),
    ensures
        match first_found(found@) {
            Some(i) => r matches Some((name, args)) && name@ == server_candidates(language@)[i]
                && strs_view(args@) == server_args(name@),
            None => r is None,
        },
{
    let candidates = candidates_for(language);
    let mut i: usize = 0;
    while i < found.len()
        invariant
            i <= found@.len(),
            found@.len() == candidates@.len(),
            strs_view(candidates@) == server_candidates(language@),
            forall|j: int| 0 <= j < i ==> !found@[j],
        decreases found@.len() - i,
    {
        if found[i] {
            let name = candidates[i];
            proof {
                let w = choose|k: int| 0 <= k < found@.len() && found@[k] && forall|j: int| 0 <= j < k ==> !found@[j];
                assert(found@[i as int]);
                assert(w == i) by {
                    if w < i {
                    } else if w > i {
                        assert(!found@[i as int]);
                    }
                }
                assert(name@ == strs_view(candidates@)[i as int]);
            }
            return Some((name, args_for(name)));
        }
        i += 1;
    }
    None
}

/// The directory the language server works in when the editor starts: the
/// nearest of `ancestors` (the opened file's directory first, then each
/// parent) that holds a `Cargo.toml` (`has_cargo_toml[i]` says whether
/// `ancestors[i]` does), or the current directory `"."`.
pub fn project_root(ancestors: &Vec<String>, has_cargo_toml: &Vec<bool>) -> (root: String)
    requires
        ancestors@.len() == has_cargo_toml@.len(),
    ensures
        match first_found(has_cargo_toml@) {
            Some(i) => root@ == ancestors@[i]@,
            None => root@ == "."@,
        },
{
    let mut i: usize = 0;
    while i < has_cargo_toml.len()
        invariant
            i <= has_cargo_toml@.len(),
            ancestors@.len() == has_cargo_toml@.len(),
            forall|j: int| 0 <= j < i ==> !has_cargo_toml@[j],
        decreases has_cargo_toml@.len() - i,
    {
        if has_cargo_toml[i] {
            let root = ancestors[i].clone();
            proof {
                let w = choose|k: int| 0 <= k < has_cargo_toml@.len() && has_cargo_toml@[k] && forall|j: int|
                    0 <= j < k ==> !has_cargo_toml@[j];
                assert(has_cargo_toml@[i as int]);
                assert(w == i) by {
                    if w < i {
                    } else if w > i {
                        assert(!has_cargo_toml@[i as int]);
                    }
                }
            }
            return root;
        }
        i += 1;
    }
    proof {
        reveal_strlit(".");
    }
    ".".to_owned()
}

/// Every language a file extension is mapped to has at least one server to
/// try and a workspace marker; any other language has neither.
pub proof fn law_known_languages_have_servers(ext: Seq<char>, other: Seq<char>)
    requires
        other != "rust"@ && other != "python"@ && other != "typescript"@ && other != "javascript"@ && other
            != "go"@ && other != "c"@ && other != "cpp"@,
    ensures
        language_of_extension(ext) matches Some(l) ==> server_candidates(l).len() >= 1 && root_marker(l).len() > 0,
        server_candidates(other).len() == 0,
        root_marker(other).len() == 0,
        server_candidates("python"@) == seq!["pyright-langserver"@, "pylsp"@],
{
    reveal_strlit("rust");
    reveal_strlit("python");
    reveal_strlit("typescript");
    reveal_strlit("javascript");
    reveal_strlit("go");
    reveal_strlit("c");
    reveal_strlit("cpp");
    reveal_strlit("Cargo.toml");
    reveal_strlit("pyproject.toml");
    reveal_strlit("package.json");
    reveal_strlit("go.mod");
    reveal_strlit("CMakeLists.txt");
    reveal_strlit("");
    assert(""@.len() == 0);
    assert("python"@.len() == 6 && "rust"@.len() == 4);
    assert("python"@ != "rust"@);
    assert(server_candidates("python"@) =~= seq!["pyright-langserver"@, "pylsp"@]);
}

} // verus!
