use vstd::prelude::*;
use crate::text::{contains_seq, contains_str, occurs_at, replace_all, replace_str};

verus! {

pub open spec fn single(c: char) -> Seq<char> {
    seq![c]
}

/// `s` with the shell-special characters `; & | $ ` ( ) < > "` removed,
/// backslashes turned into slashes, and doubled slashes collapsed once.
pub open spec fn strip_special(s: Seq<char>) -> Seq<char> {
    let e = Seq::<char>::empty();
    let s = replace_all(s, single(';'), e);
    let s = replace_all(s, single('&'), e);
    let s = replace_all(s, single('|'), e);
    let s = replace_all(s, single('$'), e);
    let s = replace_all(s, single('`'), e);
    let s = replace_all(s, single('('), e);
    let s = replace_all(s, single(')'), e);
    let s = replace_all(s, single('<'), e);
    let s = replace_all(s, single('>'), e);
    let s = replace_all(s, single('"'), e);
    let s = replace_all(s, single('\\'), single('/'));
    replace_all(s, seq!['/', '/'], single('/'))
}

pub open spec fn dot_dot_slash() -> Seq<char> {
    seq!['.', '.', '/']
}

pub open spec fn dot_slash() -> Seq<char> {
    seq!['.', '/']
}

/// Removing every occurrence of a pattern never lengthens a string, and
/// shortens it when the pattern occurs.
pub proof fn lemma_remove_shrinks(s: Seq<char>, pat: Seq<char>)
    requires
        pat.len() > 0,
    ensures
        replace_all(s, pat, Seq::empty()).len() <= s.len(),
        contains_seq(s, pat) ==> replace_all(s, pat, Seq::empty()).len() < s.len(),
        !contains_seq(s, pat) ==> replace_all(s, pat, Seq::empty()) == s,
    decreases s.len(),
{
    let e = Seq::<char>::empty();
    if s.len() == 0 {
        assert(!contains_seq(s, pat));
    } else if occurs_at(s, pat, 0) {
        lemma_remove_shrinks(s.skip(pat.len() as int), pat);
        assert(e + replace_all(s.skip(pat.len() as int), pat, e) =~= replace_all(s.skip(pat.len() as int), pat, e));
    } else {
        let t = s.drop_first();
        lemma_remove_shrinks(t, pat);
        if contains_seq(s, pat) {
            let i = choose|i: int| occurs_at(s, pat, i);
            assert(i >= 1);
            assert(t.subrange(i - 1, i - 1 + pat.len()) =~= s.subrange(i, i + pat.len()));
            assert(occurs_at(t, pat, i - 1));
        } else {
            assert forall|i: int| !occurs_at(t, pat, i) by {
                if occurs_at(t, pat, i) {
                    assert(t.subrange(i, i + pat.len()) =~= s.subrange(i + 1, i + 1 + pat.len()));
                    assert(occurs_at(s, pat, i + 1));
                }
            }
            assert(seq![s[0]] + t =~= s);
        }
    }
}

/// Repeatedly removes `../` and then `./` until neither occurs.
pub open spec fn drop_traversal(s: Seq<char>) -> Seq<char>
    decreases s.len(),
{
    if contains_seq(s, dot_dot_slash()) || contains_seq(s, dot_slash()) {
        let e = Seq::<char>::empty();
        let t = replace_all(s, dot_dot_slash(), e);
        proof {
            lemma_remove_shrinks(s, dot_dot_slash());
            lemma_remove_shrinks(t, dot_slash());
        }
        drop_traversal(replace_all(t, dot_slash(), e))
    } else {
        s
    }
}

/// The sanitized form of a path: special characters stripped, traversal
/// segments removed, and then one leading slash, if there is one, dropped.
/// Only that one slash goes: a path that starts with several keeps the rest.
pub open spec fn sanitized(s: Seq<char>) -> Seq<char> {
    if s.len() == 0 {
        Seq::empty()
    } else {
        let t = drop_traversal(strip_special(s));
        if t.len() > 0 && t[0] == '/' {
            t.drop_first()
        } else {
            t
        }
    }
}

proof fn lemma_drop_traversal_clean(s: Seq<char>)
    ensures
        !contains_seq(drop_traversal(s), dot_dot_slash()),
        !contains_seq(drop_traversal(s), dot_slash()),
    decreases s.len(),
{
    if contains_seq(s, dot_dot_slash()) || contains_seq(s, dot_slash()) {
        let e = Seq::<char>::empty();
        let t = replace_all(s, dot_dot_slash(), e);
        lemma_remove_shrinks(s, dot_dot_slash());
        lemma_remove_shrinks(t, dot_slash());
        lemma_drop_traversal_clean(replace_all(t, dot_slash(), e));
    }
}

/// A sanitized path holds no `../` or `./` segment: it cannot climb out of
/// the directory it is joined below.
pub proof fn lemma_sanitized_has_no_traversal(s: Seq<char>)
    ensures
        !contains_seq(sanitized(s), dot_dot_slash()),
        !contains_seq(sanitized(s), dot_slash()),
{
    if s.len() > 0 {
        let t = drop_traversal(strip_special(s));
        lemma_drop_traversal_clean(strip_special(s));
        if t.len() > 0 && t[0] == '/' {
            let u = t.drop_first();
            assert forall|i: int| !occurs_at(u, dot_dot_slash(), i) && !occurs_at(u, dot_slash(), i) by {
                if occurs_at(u, dot_dot_slash(), i) {
                    assert(t.subrange(i + 1, i + 4) =~= u.subrange(i, i + 3));
                    assert(occurs_at(t, dot_dot_slash(), i + 1));
                }
                if occurs_at(u, dot_slash(), i) {
                    assert(t.subrange(i + 1, i + 3) =~= u.subrange(i, i + 2));
                    assert(occurs_at(t, dot_slash(), i + 1));
                }
            }
        }
    } else {
        assert forall|i: int| !occurs_at(sanitized(s), dot_dot_slash(), i) && !occurs_at(sanitized(s), dot_slash(), i) by {}
    }
}

/// Removes what could make a path escape the directory it is joined to.
pub trait SanitizePath {
    fn sanitize_path(&self) -> String;
}

fn remove_all(s: &str, pat: &str) -> (res: String)
    requires
        pat@.len() > 0,
    ensures
        res@ == replace_all(s@, pat@, Seq::empty()),
{
    let e = "";
    proof {
        reveal_strlit("");
        assert(e@ =~= Seq::<char>::empty());
    }
    replace_str(s, pat, e)
}

fn strip_special_exec(s: &str) -> (res: String)
    ensures
        res@ == strip_special(s@),
{
    proof {
        reveal_strlit(";");
        reveal_strlit("&");
        reveal_strlit("|");
        reveal_strlit("$");
        reveal_strlit("`");
        reveal_strlit("(");
        reveal_strlit(")");
        reveal_strlit("<");
        reveal_strlit(">");
        reveal_strlit("\"");
        reveal_strlit("\\");
        reveal_strlit("/");
        reveal_strlit("//");
        assert(";"@ =~= single(';'));
        assert("&"@ =~= single('&'));
        assert("|"@ =~= single('|'));
        assert("$"@ =~= single('$'));
        assert("`"@ =~= single('`'));
        assert("("@ =~= single('('));
        assert(")"@ =~= single(')'));
        assert("<"@ =~= single('<'));
        assert(">"@ =~= single('>'));
        assert("\""@ =~= single('"'));
        assert("\\"@ =~= single('\\'));
        assert("/"@ =~= single('/'));
        assert("//"@ =~= seq!['/', '/']);
    }
    let s = remove_all(s, ";");
    let s = remove_all(s.as_str(), "&");
    let s = remove_all(s.as_str(), "|");
    let s = remove_all(s.as_str(), "$");
    let s = remove_all(s.as_str(), "`");
    let s = remove_all(s.as_str(), "(");
    let s = remove_all(s.as_str(), ")");
    let s = remove_all(s.as_str(), "<");
    let s = remove_all(s.as_str(), ">");
    let s = remove_all(s.as_str(), "\"");
    let s = replace_str(s.as_str(), "\\", "/");
    replace_str(s.as_str(), "//", "/")
}

fn drop_traversal_exec(s: String) -> (res: String)
    ensures
        res@ == drop_traversal(s@),
{
    let dds = "../";
    let ds = "./";
    proof {
        reveal_strlit("../");
        reveal_strlit("./");
        assert(dds@ =~= dot_dot_slash());
        assert(ds@ =~= dot_slash());
    }
    let mut t = s;
    while contains_str(t.as_str(), dds) || contains_str(t.as_str(), ds)
        invariant
            dds@ == dot_dot_slash(),
            ds@ == dot_slash(),
            drop_traversal(t@) == drop_traversal(s@),
        decreases t@.len(),
    {
        let u = remove_all(t.as_str(), dds);
        let v = remove_all(u.as_str(), ds);
        proof {
            lemma_remove_shrinks(t@, dot_dot_slash());
            lemma_remove_shrinks(u@, dot_slash());
        }
        t = v;
    }
    t
}

impl SanitizePath for String {
    fn sanitize_path(&self) -> (res: String)
        ensures
            res@ == sanitized(self@),
    {
        if self.unicode_len() == 0 {
            return String::new();
        }
        let stripped = strip_special_exec(self.as_str());
        let t = drop_traversal_exec(stripped);
        let n = t.unicode_len();
        if n > 0 && t.as_str().get_char(0) == '/' {
            let rest = String::from_str(t.as_str().substring_char(1, n));
            proof {
                assert(rest@ =~= t@.drop_first());
            }
            rest
        } else {
            t
        }
    }
}

/// A path as the game sees it: unchanged for native games; for Windows games
/// on drive `Z:` with backslashes.
pub open spec fn os_path(s: Seq<char>, win: bool) -> Seq<char> {
    if win {
        seq!['Z', ':'] + replace_all(s, single('/'), single('\\'))
    } else {
        s
    }
}

/// Formats a path for the game's platform.
pub trait OsFmt {
    fn os_fmt(&self, win: bool) -> String;
}

impl OsFmt for String {
    fn os_fmt(&self, win: bool) -> (res: String)
        ensures
            res@ == os_path(self@, win),
    {
        if !win {
            self.clone()
        } else {
            proof {
                reveal_strlit("/");
                reveal_strlit("\\");
                reveal_strlit("Z:");
                assert("/"@ =~= single('/'));
                assert("\\"@ =~= single('\\'));
            }
            let path_fmt = replace_str(self.as_str(), "/", "\\");
            let mut out = String::from_str("Z:");
            out.append(path_fmt.as_str());
            proof {
                assert(out@ =~= os_path(self@, win));
            }
            out
        }
    }
}

/// `base` joined with `rest` the way `Path::join` does on Unix: an absolute
/// `rest` replaces `base`; otherwise a separator is added when `base` is
/// nonempty and does not already end in one.
pub open spec fn joined(base: Seq<char>, rest: Seq<char>) -> Seq<char> {
    if rest.len() > 0 && rest[0] == '/' {
        rest
    } else if base.len() > 0 && base[base.len() - 1] != '/' {
        base + single('/') + rest
    } else {
        base + rest
    }
}

/// Joins two paths.
pub fn join_path(base: &str, rest: &str) -> (res: String)
    ensures
        res@ == joined(base@, rest@),
{
    let nb = base.unicode_len();
    let nr = rest.unicode_len();
    if nr > 0 && rest.get_char(0) == '/' {
        return String::from_str(rest);
    }
    let mut out = String::from_str(base);
    if nb > 0 && base.get_char(nb - 1) != '/' {
        proof {
            reveal_strlit("/");
            assert("/"@ =~= single('/'));
        }
        out.append("/");
    }
    out.append(rest);
    proof {
        assert(out@ =~= joined(base@, rest@));
    }
    out
}

/// The parent directory of a path, as `Path::parent` computes it.
pub uninterp spec fn path_parent(path: Seq<char>) -> Option<Seq<char>>;

/// `Path::parent`: the path without its last component, or `None` for a
/// root or empty path. The result is named by `path_parent`.
#[verifier::external_body]
pub(crate) fn parent_of(path: &str) -> (res: Option<String>)
    ensures
        match res {
            Some(p) => path_parent(path@) == Some(p@),
            None => path_parent(path@) is None,
        },
{
    std::path::Path::new(path).parent().map(|p| p.to_string_lossy().into_owned())
}

/// The last component of a path, as `Path::file_name` computes it.
pub uninterp spec fn path_file_name(path: Seq<char>) -> Option<Seq<char>>;

/// `Path::file_name`: the final component of a path, or `None` when the
/// path is empty, a root, or ends in `..`. The result is named by
/// `path_file_name`.
#[verifier::external_body]
pub(crate) fn file_name_of(path: &str) -> (res: Option<String>)
    ensures
        match res {
            Some(n) => path_file_name(path@) == Some(n@),
            None => path_file_name(path@) is None,
        },
{
    std::path::Path::new(path).file_name().and_then(|f| f.to_str()).map(String::from)
}

/// A release tag without its leading `v`, if it has one.
pub open spec fn release_version(tag: Seq<char>) -> Seq<char> {
    if tag.len() > 0 && tag[0] == 'v' {
        tag.drop_first()
    } else {
        tag
    }
}

/// Whether the latest release, named by its tag, differs from the running
/// version.
pub fn update_available(tag_name: &str, current_version: &str) -> (res: bool)
    ensures
        res == (release_version(tag_name@) != current_version@),
{
    let n = tag_name.unicode_len();
    let latest = if n > 0 && tag_name.get_char(0) == 'v' {
        tag_name.substring_char(1, n)
    } else {
        tag_name
    };
    proof {
        if n > 0 && tag_name@[0] == 'v' {
            assert(latest@ =~= tag_name@.drop_first());
        }
    }
    !crate::input::str_eq(latest, current_version)
}

} // verus!
