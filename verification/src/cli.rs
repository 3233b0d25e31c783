//! Command-line values: dependencies and library search paths.
use vstd::prelude::*;
use vstd::string::StrSliceExecFns;

use crate::text::{push_str, same_text};

verus! {

/// Splits `s` at the first `c`: the text before it and the text after it.
pub fn split_once(s: &str, c: char) -> (r: Option<(&str, &str)>)
    ensures
        match r {
            Some((a, b)) => s@ == a@ + seq![c] + b@ && !a@.contains(c),
            None => !s@.contains(c),
        },
{
    let n = s.unicode_len();
    let mut k: usize = 0;
    while k < n
        invariant
            n == s@.len(),
            k <= n,
            forall|i: int| 0 <= i < k ==> s@[i] != c,
        decreases n - k,
    {
        if s.get_char(k) == c {
            let a = s.substring_char(0, k);
            let b = s.substring_char(k + 1, n);
            assert(s@ =~= a@ + seq![c] + b@);
            assert(!a@.contains(c));
            return Some((a, b));
        }
        k = k + 1;
    }
    None
}

/// The error of a `--dep` value without `=`.
pub open spec fn dep_format_message(s: Seq<char>) -> Seq<char> {
    "invalid dep format '"@ + s + "', expected name=path.bengalmod"@
}

/// A `--dep name=path` value: the dependency's name and the path of its interface file.
pub fn parse_dep(s: &str) -> (r: Result<(String, String), String>)
    ensures
        !s@.contains('=') ==> (r matches Err(m) && m@ == dep_format_message(s@)),
        s@.contains('=') ==> match r {
            Ok((name, path)) => s@ == name@ + seq!['='] + path@ && !name@.contains('=') && name@.len() > 0,
            Err(m) => m@ == "dep name cannot be empty"@ && s@.len() > 0 && s@[0] == '=',
        },
{
    match split_once(s, '=') {
        None => {
            let mut m = String::new();
            push_str(&mut m, "invalid dep format '");
            push_str(&mut m, s);
            push_str(&mut m, "', expected name=path.bengalmod");
            Err(m)
        },
        Some((name, path)) => {
            assert(s@[name@.len() as int] == '=');
            assert(s@.contains('='));
            if name.unicode_len() == 0 {
                let mut m = String::new();
                push_str(&mut m, "dep name cannot be empty");
                assert(s@[0] == (seq!['='] + path@)[0]);
                return Err(m);
            }
            Ok((name.to_string(), path.to_string()))
        },
    }
}

/// The error of a `-L` value without `=`.
pub open spec fn search_path_form_message(s: Seq<char>) -> Seq<char> {
    "unsupported -L form: expected '-L bengal=<path>' or '-L native=<path>', got '-L "@ + s + "'"@
}

/// The error of a `-L` value of another kind.
pub open spec fn search_path_kind_message(kind: Seq<char>) -> Seq<char> {
    "unsupported -L kind '"@ + kind + "': expected 'bengal' or 'native'"@
}

/// A `-L kind=path` value, with kind `bengal` or `native`: the kind and the path.
pub fn parse_search_path(s: &str) -> (r: Result<(String, String), String>)
    ensures
        !s@.contains('=') ==> (r matches Err(m) && m@ == search_path_form_message(s@)),
        s@.contains('=') ==> exists|kind: Seq<char>, path: Seq<char>|
            s@ == kind + seq!['='] + path && !kind.contains('=') && match r {
                Ok((k, p)) => k@ == kind && p@ == path && (kind == "bengal"@ || kind == "native"@),
                Err(m) => m@ == search_path_kind_message(kind) && kind != "bengal"@ && kind != "native"@,
            },
{
    match split_once(s, '=') {
        None => {
            let mut m = String::new();
            push_str(&mut m, "unsupported -L form: expected '-L bengal=<path>' or '-L native=<path>', got '-L ");
            push_str(&mut m, s);
            push_str(&mut m, "'");
            Err(m)
        },
        Some((kind, path)) => {
            assert(s@[kind@.len() as int] == '=');
            assert(s@.contains('='));
            if same_text(kind, "bengal") || same_text(kind, "native") {
                Ok((kind.to_string(), path.to_string()))
            } else {
                let mut m = String::new();
                push_str(&mut m, "unsupported -L kind '");
                push_str(&mut m, kind);
                push_str(&mut m, "': expected 'bengal' or 'native'");
                Err(m)
            }
        },
    }
}

} // verus!
