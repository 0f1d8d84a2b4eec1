use vstd::prelude::*;
use vstd::string::StrSliceExecFns;

verus! {

/// The index of the last `/` in `s`, if any.
pub open spec fn last_slash(s: Seq<char>) -> Option<int>
    decreases s.len(),
{
    if s.len() == 0 {
        None
    } else if s.last() == '/' {
        Some(s.len() - 1)
    } else {
        last_slash(s.drop_last())
    }
}

/// The part of `path` after its last `/`; the whole path where it has none.
pub open spec fn file_name_of(path: Seq<char>) -> Seq<char> {
    match last_slash(path) {
        Some(k) => path.subrange(k + 1, path.len() as int),
        None => path,
    }
}

proof fn lemma_last_slash_bounds(s: Seq<char>)
    ensures
        last_slash(s) matches Some(k) ==> 0 <= k < s.len() && s[k] == '/',
    decreases s.len(),
{
    if s.len() > 0 && s.last() != '/' {
        lemma_last_slash_bounds(s.drop_last());
    }
}

/// The file name at the end of a `/`-separated path.
pub fn path_file_name(path: &str) -> (r: String)
    ensures
        r@ == file_name_of(path@),
{
    let ghost s = path@;
    let n = path.unicode_len();
    let mut k = n;
    proof {
        assert(s.subrange(0, n as int) =~= s);
    }
    while k > 0 && path.get_char(k - 1) != '/'
        invariant
            k <= n == s.len(),
            path@ == s,
            last_slash(s) == last_slash(s.subrange(0, k as int)),
        decreases k,
    {
        proof {
            assert(s.subrange(0, k - 1) =~= s.subrange(0, k as int).drop_last());
        }
        k = k - 1;
    }
    proof {
        if k == 0 {
            assert(s.subrange(0, 0) =~= Seq::<char>::empty());
        }
    }
    if k == 0 {
        path.substring_char(0, n).to_owned()
    } else {
        proof {
            assert(s.subrange(0, k as int).last() == '/');
        }
        path.substring_char(k, n).to_owned()
    }
}

/// Whether `s` ends with `suffix`.
pub open spec fn has_suffix(s: Seq<char>, suffix: Seq<char>) -> bool {
    suffix.len() <= s.len() && s.subrange(s.len() - suffix.len(), s.len() as int) == suffix
}

/// Whether `s` ends with the characters of `suffix`.
pub fn ends_with(s: &str, suffix: &[char]) -> (r: bool)
    ensures
        r == has_suffix(s@, suffix@),
{
    let n = s.unicode_len();
    let m = suffix.len();
    if m > n {
        return false;
    }
    let mut k: usize = 0;
    while k < m
        invariant
            m <= n == s@.len(),
            m == suffix@.len(),
            k <= m,
            forall|q: int| 0 <= q < k ==> s@[n - m + q] == suffix@[q],
        decreases m - k,
    {
        if s.get_char(n - m + k) != suffix[k] {
            proof {
                assert(s@.subrange(n - m, n as int)[k as int] != suffix@[k as int]);
            }
            return false;
        }
        k = k + 1;
    }
    proof {
        assert(s@.subrange(n - m, n as int) =~= suffix@);
    }
    true
}

/// The kind of editor a file is opened in.
#[derive(Clone, Copy, Debug, PartialEq, Eq, Structural)]
pub enum EditorKind {
    Rust,
    Js,
    Plain,
}

/// The editor kind for a path's extension: `.rs`, `.toml` and `.ron` open in
/// the Rust editor, `.js` and `.html` in the JavaScript one, the rest as plain text.
pub open spec fn editor_kind_of(path: Seq<char>) -> EditorKind {
    if has_suffix(path, seq!['.', 'r', 's']) || has_suffix(path, seq!['.', 't', 'o', 'm', 'l'])
        || has_suffix(path, seq!['.', 'r', 'o', 'n']) {
        EditorKind::Rust
    } else if has_suffix(path, seq!['.', 'j', 's']) || has_suffix(
        path,
        seq!['.', 'h', 't', 'm', 'l'],
    ) {
        EditorKind::Js
    } else {
        EditorKind::Plain
    }
}

/// Picks the editor kind for a file from its path.
pub fn editor_kind_for_path(path: &str) -> (r: EditorKind)
    ensures
        r == editor_kind_of(path@),
{
    let rs: [char; 3] = ['.', 'r', 's'];
    let toml: [char; 5] = ['.', 't', 'o', 'm', 'l'];
    let ron: [char; 4] = ['.', 'r', 'o', 'n'];
    let js: [char; 3] = ['.', 'j', 's'];
    let html: [char; 5] = ['.', 'h', 't', 'm', 'l'];
    proof {
        assert(rs@ =~= seq!['.', 'r', 's']);
        assert(toml@ =~= seq!['.', 't', 'o', 'm', 'l']);
        assert(ron@ =~= seq!['.', 'r', 'o', 'n']);
        assert(js@ =~= seq!['.', 'j', 's']);
        assert(html@ =~= seq!['.', 'h', 't', 'm', 'l']);
    }
    if ends_with(path, &rs) || ends_with(path, &toml) || ends_with(path, &ron) {
        EditorKind::Rust
    } else if ends_with(path, &js) || ends_with(path, &html) {
        EditorKind::Js
    } else {
        EditorKind::Plain
    }
}

} // verus!
