//! String utilities: equality, URI extension extraction, and the mapping
//! from file extensions to language identifiers announced to the server.

use vstd::prelude::*;
use vstd::string::*;

verus! {

/// Character-by-character string equality, usable wherever a contract needs
/// to speak about view equality of two strings.
pub fn str_eq(a: &str, b: &str) -> (r: bool)
    ensures
        r == (a@ == b@),
{
    let an = a.unicode_len();
    let bn = b.unicode_len();
    if an != bn {
        return false;
    }
    let mut i: usize = 0;
    while i < an
        invariant
            an == a@.len(),
            bn == b@.len(),
            an == bn,
            0 <= i <= an,
            forall|k: int| 0 <= k < i ==> a@[k] == b@[k],
        decreases an - i,
    {
        if a.get_char(i) != b.get_char(i) {
            return false;
        }
        i = i + 1;
    }
    proof {
        assert(a@ =~= b@);
    }
    true
}

/// The suffix of `s` after the last occurrence of `c`; all of `s` when `c`
/// does not occur.
pub open spec fn after_last(s: Seq<char>, c: char) -> Seq<char>
    decreases s.len(),
{
    if s.len() == 0 {
        s
    } else if s.last() == c {
        Seq::empty()
    } else {
        after_last(s.drop_last(), c).push(s.last())
    }
}

/// `after_last` returns the subrange that begins right after the last
/// occurrence of `c` (at position `k - 1`), or the whole of `s` for `k == 0`.
pub proof fn lemma_after_last_subrange(s: Seq<char>, c: char, k: int)
    requires
        0 <= k <= s.len(),
        k == 0 || s[k - 1] == c,
        forall|i: int| k <= i < s.len() ==> s[i] != c,
    ensures
        after_last(s, c) == s.subrange(k, s.len() as int),
    decreases s.len(),
{
    if s.len() == 0 {
        assert(after_last(s, c) =~= s.subrange(0, 0));
    } else if s.last() == c {
        assert(k == s.len());
        assert(after_last(s, c) =~= s.subrange(k, s.len() as int));
    } else {
        assert(k < s.len());
        let t = s.drop_last();
        assert(forall|i: int| k <= i < t.len() ==> t[i] == s[i] && s[i] != c);
        lemma_after_last_subrange(t, c, k);
        assert(after_last(s, c) =~= s.subrange(k, s.len() as int));
    }
}

/// True when the final path component `comp` carries an extension: a dot
/// somewhere past its first character.
pub open spec fn has_extension_dot(comp: Seq<char>) -> bool {
    exists|i: int| 1 <= i < comp.len() && comp[i] == '.'
}

/// Extracts the file extension from a file URI or path string: the part of
/// the final `/`-separated component after its last dot. A component whose
/// only dot is its first character (a hidden file) has no extension.
pub fn extension_from_uri(uri: &str) -> (r: Option<String>)
    ensures
        ({
            let comp = after_last(uri@, '/');
            match r {
                Some(e) => has_extension_dot(comp) && e@ == after_last(comp, '.'),
                None => !has_extension_dot(comp),
            }
        }),
{
    let n = uri.unicode_len();
    let mut comp_start: usize = 0;
    let mut last_dot: usize = 0;
    let mut has_dot: bool = false;
    let mut j: usize = 0;
    while j < n
        invariant
            n == uri@.len(),
            0 <= j <= n,
            comp_start <= j,
            comp_start == 0 || uri@[comp_start - 1] == '/',
            forall|i: int| comp_start <= i < j ==> uri@[i] != '/',
            has_dot ==> last_dot < j && uri@[last_dot as int] == '.',
            has_dot ==> forall|i: int| last_dot < i < j ==> uri@[i] != '.',
            !has_dot ==> forall|i: int| 0 <= i < j ==> uri@[i] != '.',
        decreases n - j,
    {
        let ch = uri.get_char(j);
        if ch == '/' {
            comp_start = j + 1;
        } else if ch == '.' {
            last_dot = j;
            has_dot = true;
        }
        j = j + 1;
    }
    proof {
        lemma_after_last_subrange(uri@, '/', comp_start as int);
    }
    let ghost comp = after_last(uri@, '/');
    proof {
        assert(comp =~= uri@.subrange(comp_start as int, n as int));
    }
    if has_dot && last_dot > comp_start {
        proof {
            lemma_after_last_subrange(comp, '.', last_dot + 1 - comp_start);
            assert(after_last(comp, '.') =~= uri@.subrange(last_dot + 1, n as int));
            assert(has_extension_dot(comp)) by {
                assert(comp[last_dot - comp_start] == '.');
            }
        }
        let ext = uri.substring_char(last_dot + 1, n);
        Some(ext.to_owned())
    } else {
        proof {
            if has_extension_dot(comp) {
                let i = choose|i: int| 1 <= i < comp.len() && comp[i] == '.';
                assert(uri@[comp_start + i] == '.');
            }
        }
        None
    }
}

/// The language identifier announced for a file, keyed on its extension.
/// An unknown extension is announced as itself; a file with no extension
/// (or an empty one) is announced as plain text.
pub open spec fn language_id_spec(ext: Seq<char>) -> Seq<char> {
    if ext == "rs"@ {
        "rust"@
    } else if ext == "go"@ {
        "go"@
    } else if ext == "py"@ {
        "python"@
    } else if ext == "ts"@ {
        "typescript"@
    } else if ext == "tsx"@ {
        "typescriptreact"@
    } else if ext == "js"@ {
        "javascript"@
    } else if ext == "jsx"@ {
        "javascriptreact"@
    } else if ext == "json"@ {
        "json"@
    } else if ext == "toml"@ {
        "toml"@
    } else if ext == "yaml"@ || ext == "yml"@ {
        "yaml"@
    } else if ext == "md"@ {
        "markdown"@
    } else if ext == Seq::<char>::empty() {
        "plaintext"@
    } else {
        ext
    }
}

/// The extension of `path`, or the empty string where it has none.
pub open spec fn extension_or_empty(path: Seq<char>) -> Seq<char> {
    if has_extension_dot(after_last(path, '/')) {
        after_last(after_last(path, '/'), '.')
    } else {
        Seq::empty()
    }
}

/// The local filesystem path a URI text resolves to, where it names one:
/// what `url::Url::parse` followed by `Url::to_file_path` computes, a
/// function of the text alone.
pub uninterp spec fn file_path_of(s: Seq<char>) -> Option<Seq<char>>;

/// Relies on url::Url::parse and url::Url::to_file_path: parsing either
/// fails or yields a URL determined by the text, and the file-path
/// conversion depends on that URL alone, so the composed result is the
/// named function of the text. Empty text has no scheme and never parses.
#[verifier::external_body]
fn resolve_file_uri(s: &str) -> (r: Option<String>)
    ensures
        r matches Some(p) ==> file_path_of(s@) == Some(p@),
        r is None ==> file_path_of(s@) is None,
        s@.len() == 0 ==> r is None,
{
    match url::Url::parse(s) {
        Ok(u) => match u.to_file_path() {
            Ok(p) => p.to_str().map(|t| t.to_string()),
            Err(()) => None,
        },
        Err(_) => None,
    }
}

/// Converts a file scheme URI to a local filesystem path: exactly
/// `file_path_of` of the text. `None` when the text is not a valid
/// absolute URL or does not designate a local file. Whether the path
/// exists is for the caller to check, with the file system at hand.
pub fn uri_to_path(uri: &str) -> (r: Option<String>)
    ensures
        r matches Some(p) ==> file_path_of(uri@) == Some(p@),
        r is None ==> file_path_of(uri@) is None,
        uri@.len() == 0 ==> r is None,
{
    resolve_file_uri(uri)
}

/// Determines the language identifier for a file path, from its extension.
pub fn language_id_for_path(path: &str) -> (r: String)
    ensures
        r@ == language_id_spec(extension_or_empty(path@)),
{
    let ext: String = match extension_from_uri(path) {
        Some(e) => e,
        None => String::new(),
    };
    proof {
        assert(ext@ == extension_or_empty(path@));
        reveal_strlit("");
        assert(""@ =~= Seq::<char>::empty());
    }
    let e = ext.as_str();
    if str_eq(e, "rs") {
        String::from_str("rust")
    } else if str_eq(e, "go") {
        String::from_str("go")
    } else if str_eq(e, "py") {
        String::from_str("python")
    } else if str_eq(e, "ts") {
        String::from_str("typescript")
    } else if str_eq(e, "tsx") {
        String::from_str("typescriptreact")
    } else if str_eq(e, "js") {
        String::from_str("javascript")
    } else if str_eq(e, "jsx") {
        String::from_str("javascriptreact")
    } else if str_eq(e, "json") {
        String::from_str("json")
    } else if str_eq(e, "toml") {
        String::from_str("toml")
    } else if str_eq(e, "yaml") || str_eq(e, "yml") {
        String::from_str("yaml")
    } else if str_eq(e, "md") {
        String::from_str("markdown")
    } else if str_eq(e, "") {
        String::from_str("plaintext")
    } else {
        ext
    }
}

} // verus!
