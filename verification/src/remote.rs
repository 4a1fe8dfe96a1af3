//! GitHub repository addresses and the checks made on managed clones before any
//! network access.
use crate::json::{hash, spec_hash};
use crate::text::{
    before_first, in_words, member, spec_split, split_chars, eq_ignore_ascii_case, eq_ignore_case,
    append_chars, chars_of, equal_chars, index_of, is_suffix, slice_chars,
    spec_to_lowercase, string_from, to_lowercase, trim, spec_trim,
    lemma_index_of, is_prefix, starts_with, ends_with, lemma_index_of_bound,
};
use vstd::prelude::*;
use vstd::utf8::encode_utf8;

verus! {

/// What the repository logic reads of a parsed URL.
pub struct UrlParts {
    pub scheme: String,
    pub host: Option<String>,
    pub username: String,
    pub password: Option<String>,
    pub port: Option<u16>,
    pub path: String,
    pub query: Option<String>,
    pub fragment: Option<String>,
}

pub struct UrlPartsView {
    pub scheme: Seq<char>,
    pub host: Option<Seq<char>>,
    pub username: Seq<char>,
    pub password: Option<Seq<char>>,
    pub port: Option<u16>,
    pub path: Seq<char>,
    pub query: Option<Seq<char>>,
    pub fragment: Option<Seq<char>>,
}

pub open spec fn opt_view(o: Option<String>) -> Option<Seq<char>> {
    match o {
        Some(s) => Some(s@),
        None => None,
    }
}

impl View for UrlParts {
    type V = UrlPartsView;

    open spec fn view(&self) -> UrlPartsView {
        UrlPartsView {
            scheme: self.scheme@,
            host: opt_view(self.host),
            username: self.username@,
            password: opt_view(self.password),
            port: self.port,
            path: self.path@,
            query: opt_view(self.query),
            fragment: opt_view(self.fragment),
        }
    }
}

/// Name for what `url::Url::parse` makes of the text (WHATWG URL parsing), read back
/// through the URL's accessors; `None` when the text is not a URL.
pub uninterp spec fn spec_url_parts(input: Seq<char>) -> Option<UrlPartsView>;

/// `url::Url::parse`, read back through `scheme`, `host_str`, `username`, `password`,
/// `port`, `path`, `query` and `fragment`. The parse depends on the text alone.
#[verifier::external_body]
fn parse_url(input: &str) -> (r: Option<UrlParts>)
    ensures
        match r {
            Some(p) => spec_url_parts(input@) == Some(p@),
            None => spec_url_parts(input@) is None,
        },
{
    let u = url::Url::parse(input).ok()?;
    Some(UrlParts {
        scheme: u.scheme().to_string(),
        host: u.host_str().map(|h| h.to_string()),
        username: u.username().to_string(),
        password: u.password().map(|p| p.to_string()),
        port: u.port(),
        path: u.path().to_string(),
        query: u.query().map(|q| q.to_string()),
        fragment: u.fragment().map(|f| f.to_string()),
    })
}

/// `s` without any `c` at either end.
pub open spec fn trim_char(s: Seq<char>, c: char) -> Seq<char>
    decreases s.len(),
{
    if s.len() > 0 && s[0] == c {
        trim_char(s.skip(1), c)
    } else if s.len() > 0 && s.last() == c {
        trim_char(s.drop_last(), c)
    } else {
        s
    }
}

fn trim_char_exec(v: &[char], c: char) -> (r: Vec<char>)
    ensures
        r@ == trim_char(v@, c),
{
    let mut i: usize = 0;
    let mut j: usize = v.len();
    assert(v@.subrange(0, v.len() as int) =~= v@);
    while i < j && (v[i] == c || v[j - 1] == c)
        invariant
            i <= j <= v.len(),
            trim_char(v@, c) == trim_char(v@.subrange(i as int, j as int), c),
        decreases j - i,
    {
        if v[i] == c {
            assert(v@.subrange(i as int, j as int).skip(1) =~= v@.subrange(i + 1, j as int));
            i = i + 1;
        } else {
            assert(v@.subrange(i as int, j as int).drop_last() =~= v@.subrange(i as int, j - 1));
            j = j - 1;
        }
    }
    slice_chars(v, i, j)
}

/// A repository owner or name: non-empty, not `.` or `..`, only ASCII letters,
/// digits, `_`, `-` and `.`.
pub open spec fn repo_part_ok(p: Seq<char>) -> bool {
    &&& p.len() > 0
    &&& p != "."@
    &&& p != ".."@
    &&& forall|i: int|
        0 <= i < p.len() ==> {
            let c = #[trigger] p[i];
            ('a' <= c <= 'z') || ('A' <= c <= 'Z') || ('0' <= c <= '9') || c == '_' || c == '-'
                || c == '.'
        }
}

fn repo_part_ok_exec(p: &[char]) -> (r: bool)
    ensures
        r == repo_part_ok(p@),
{
    if p.len() == 0 || equal_chars(p, &chars_of(".")) || equal_chars(p, &chars_of("..")) {
        return false;
    }
    let mut i: usize = 0;
    while i < p.len()
        invariant
            i <= p.len(),
            forall|j: int|
                0 <= j < i ==> {
                    let c = #[trigger] p@[j];
                    ('a' <= c <= 'z') || ('A' <= c <= 'Z') || ('0' <= c <= '9') || c == '_' || c
                        == '-' || c == '.'
                },
        decreases p.len() - i,
    {
        let c = p[i];
        if !(('a' <= c && c <= 'z') || ('A' <= c && c <= 'Z') || ('0' <= c && c <= '9') || c == '_'
            || c == '-' || c == '.') {
            return false;
        }
        i = i + 1;
    }
    true
}

pub open spec fn use_github_message() -> Seq<char> {
    "Use https://github.com/owner/repository"@
}

/// The URL's path, without slashes at either end, has exactly one `/`: owner, then
/// name.
pub open spec fn two_segments(path: Seq<char>) -> bool {
    let t = trim_char(path, '/');
    index_of(t, '/') >= 0 && index_of(t.skip(index_of(t, '/') + 1), '/') < 0
}

pub open spec fn owner_of(path: Seq<char>) -> Seq<char> {
    let t = trim_char(path, '/');
    t.take(index_of(t, '/'))
}

/// The repository name, without a trailing `.git`.
pub open spec fn name_of(path: Seq<char>) -> Seq<char> {
    let t = trim_char(path, '/');
    let n = t.skip(index_of(t, '/') + 1);
    if is_suffix(".git"@, n) {
        n.take(n.len() - 4)
    } else {
        n
    }
}

/// A plain HTTPS GitHub address: no credentials, port, query or fragment.
pub open spec fn plain_github(u: UrlPartsView) -> bool {
    &&& u.scheme == "https"@
    &&& u.host == Some("github.com"@)
    &&& u.username.len() == 0
    &&& u.password is None
    &&& u.port is None
    &&& u.query is None
    &&& u.fragment is None
    &&& two_segments(u.path)
}

/// The canonical clone URL of a GitHub repository, or why the input is not one.
pub open spec fn spec_github_url(input: Seq<char>) -> Result<Seq<char>, Seq<char>> {
    match spec_url_parts(input) {
        None => Err(use_github_message()),
        Some(u) => if !plain_github(u) {
            Err(use_github_message())
        } else if !repo_part_ok(owner_of(u.path)) || !repo_part_ok(name_of(u.path)) {
            Err("Invalid GitHub repository name"@)
        } else {
            Ok("https://github.com/"@ + owner_of(u.path) + "/"@ + name_of(u.path) + ".git"@)
        },
    }
}

fn opt_equals(o: &Option<String>, s: &str) -> (r: bool)
    ensures
        r == (opt_view(*o) == Some(s@)),
{
    match o {
        Some(v) => {
            let a = chars_of(v.as_str());
            let b = chars_of(s);
            equal_chars(&a, &b)
        },
        None => false,
    }
}

/// Accepts only `https://github.com/owner/repository` (with an optional `.git`) and
/// gives its canonical clone URL.
pub fn github_url(input: &str) -> (r: Result<String, String>)
    ensures
        match r {
            Ok(v) => spec_github_url(input@) == Ok::<Seq<char>, Seq<char>>(v@),
            Err(m) => spec_github_url(input@) == Err::<Seq<char>, Seq<char>>(m@),
        },
{
    let u = match parse_url(input) {
        Some(u) => u,
        None => {
            return Err(String::from_str("Use https://github.com/owner/repository"));
        },
    };
    let path = chars_of(u.path.as_str());
    let t = trim_char_exec(&path, '/');
    let mut split: Option<usize> = None;
    let mut k: usize = 0;
    while k < t.len()
        invariant
            k <= t.len(),
            split is None ==> forall|j: int| 0 <= j < k ==> t@[j] != '/',
            split matches Some(s) ==> s < k && t@[s as int] == '/' && forall|j: int|
                0 <= j < s ==> t@[j] != '/',
        decreases t.len() - k,
    {
        if t[k] == '/' && split.is_none() {
            split = Some(k);
        }
        k = k + 1;
    }
    proof {
        reveal_strlit("https");
        reveal_strlit("github.com");
    }
    let scheme = chars_of(u.scheme.as_str());
    let scheme_ok = equal_chars(&scheme, &chars_of("https"));
    let host_ok = opt_equals(&u.host, "github.com");
    let plain = scheme_ok && host_ok && u.username.unicode_len() == 0 && u.password.is_none()
        && u.port.is_none() && u.query.is_none() && u.fragment.is_none();
    let s = match split {
        Some(s) => s,
        None => {
            proof {
                lemma_index_of(t@, '/', t@.len() as int);
            }
            return Err(String::from_str("Use https://github.com/owner/repository"));
        },
    };
    proof {
        lemma_index_of(t@, '/', s as int);
    }
    let rest = slice_chars(&t, s + 1, t.len());
    let mut second = false;
    let mut m: usize = 0;
    while m < rest.len()
        invariant
            m <= rest.len(),
            !second ==> forall|j: int| 0 <= j < m ==> rest@[j] != '/',
            second ==> rest@.contains('/'),
        decreases rest.len() - m,
    {
        if rest[m] == '/' {
            second = true;
        }
        m = m + 1;
    }
    proof {
        assert(rest@ =~= t@.skip(s + 1));
        if !second {
            lemma_index_of(rest@, '/', rest@.len() as int);
        } else {
            let j = choose|j: int| 0 <= j < rest@.len() && rest@[j] == '/';
            crate::text::lemma_index_of_bound(rest@, '/');
        }
    }
    if !plain || second {
        return Err(String::from_str("Use https://github.com/owner/repository"));
    }
    let owner = slice_chars(&t, 0, s);
    let name0 = rest;
    let name = if ends_with(&name0, ".git") {
        proof {
            reveal_strlit(".git");
        }
        slice_chars(&name0, 0, name0.len() - 4)
    } else {
        slice_chars(&name0, 0, name0.len())
    };
    proof {
        reveal_strlit(".git");
        assert(owner@ =~= owner_of(u@.path));
        assert(name0@.subrange(0, name0@.len() as int) =~= name0@);
        assert(name@ =~= name_of(u@.path));
    }
    if !repo_part_ok_exec(&owner) || !repo_part_ok_exec(&name) {
        return Err(String::from_str("Invalid GitHub repository name"));
    }
    let mut out: Vec<char> = Vec::new();
    append_chars(&mut out, "https://github.com/");
    extend_chars(&mut out, &owner);
    append_chars(&mut out, "/");
    extend_chars(&mut out, &name);
    append_chars(&mut out, ".git");
    Ok(string_from(&out))
}

pub fn extend_chars(out: &mut Vec<char>, more: &Vec<char>)
    ensures
        final(out)@ == old(out)@ + more@,
{
    let ghost start = out@;
    let mut i: usize = 0;
    while i < more.len()
        invariant
            i <= more.len(),
            out@ == start + more@.take(i as int),
        decreases more.len() - i,
    {
        out.push(more[i]);
        i = i + 1;
        assert(out@ =~= start + more@.take(i as int));
    }
    assert(more@.take(more.len() as int) =~= more@);
}

} // verus!

verus! {

/// Configuration a managed clone may hold: what Git itself writes when cloning.
pub open spec fn cloned_config_keys() -> Seq<&'static str> {
    seq![
        "core.repositoryformatversion", "core.filemode", "core.bare", "core.logallrefupdates",
        "core.ignorecase", "core.precomposeunicode", "extensions.objectformat",
        "extensions.refstorage", "remote.origin.url", "remote.origin.fetch",
    ]
}

/// A key Git writes when cloning; credentials, transport helpers, includes and other
/// extensions are not.
pub open spec fn safe_config_key(key: Seq<char>) -> bool {
    in_words(key, cloned_config_keys()) || (is_prefix("branch."@, key) && (is_suffix(
        ".remote"@,
        key,
    ) || is_suffix(".merge"@, key)))
}

/// The keys of the non-empty entries: each entry's text before its first newline.
pub open spec fn entry_keys(es: Seq<Seq<char>>) -> Seq<Seq<char>>
    decreases es.len(),
{
    if es.len() == 0 {
        seq![]
    } else if es[0].len() > 0 {
        seq![before_first(es[0], '\n')] + entry_keys(es.skip(1))
    } else {
        entry_keys(es.skip(1))
    }
}

/// The keys of `git config --null --list` output.
pub open spec fn config_keys(config: Seq<char>) -> Seq<Seq<char>> {
    entry_keys(spec_split(config, '\0'))
}

pub open spec fn unsupported_config_message(key: Seq<char>) -> Seq<char> {
    "Saved repository contains unsupported Git configuration ("@ + key
        + "); use a fresh data directory"@
}

/// The first key, in order, that is not safe.
pub open spec fn first_unsafe(keys: Seq<Seq<char>>) -> Option<Seq<char>>
    decreases keys.len(),
{
    if keys.len() == 0 {
        None
    } else if !safe_config_key(keys[0]) {
        Some(keys[0])
    } else {
        first_unsafe(keys.skip(1))
    }
}

fn safe_config_key_exec(key: &[char]) -> (r: bool)
    ensures
        r == safe_config_key(key@),
{
    let keys: Vec<&str> = vec![
        "core.repositoryformatversion", "core.filemode", "core.bare", "core.logallrefupdates",
        "core.ignorecase", "core.precomposeunicode", "extensions.objectformat",
        "extensions.refstorage", "remote.origin.url", "remote.origin.fetch",
    ];
    assert(keys@ == cloned_config_keys());
    member(key, &keys) || (starts_with(key, "branch.") && (ends_with(key, ".remote") || ends_with(
        key,
        ".merge",
    )))
}

/// Managed clones may hold only the configuration Git writes when cloning, so no
/// credential or transport helper, include or extension added to their local
/// configuration is ever executed.
pub fn check_managed_config(config: &str) -> (r: Result<(), String>)
    ensures
        match first_unsafe(config_keys(config@)) {
            None => r is Ok,
            Some(k) => r matches Err(m) && m@ == unsupported_config_message(k),
        },
{
    let c = chars_of(config);
    let entries = split_chars(&c, '\0');
    let ghost es = entries@.map_values(|l: Vec<char>| l@);
    let ghost keys = config_keys(config@);
    let mut i: usize = 0;
    assert(es.skip(0) =~= es);
    while i < entries.len()
        invariant
            i <= entries.len(),
            es == entries@.map_values(|l: Vec<char>| l@),
            es == spec_split(config@, '\0'),
            keys == config_keys(config@),
            first_unsafe(keys) == first_unsafe(entry_keys(es.skip(i as int))),
        decreases entries.len() - i,
    {
        let e = &entries[i];
        let ghost tail = es.skip(i as int);
        proof {
            assert(tail[0] == e@);
            assert(tail.skip(1) =~= es.skip(i + 1));
        }
        if e.len() > 0 {
            let key = before_first_chars(e, '\n');
            proof {
                let ks = entry_keys(tail);
                assert(ks == seq![key@] + entry_keys(es.skip(i + 1)));
                assert(ks[0] == key@);
                assert(ks.skip(1) =~= entry_keys(es.skip(i + 1)));
            }
            if !safe_config_key_exec(&key) {
                let mut m: Vec<char> = Vec::new();
                append_chars(&mut m, "Saved repository contains unsupported Git configuration (");
                extend_chars(&mut m, &key);
                append_chars(&mut m, "); use a fresh data directory");
                return Err(string_from(&m));
            }
        }
        i = i + 1;
    }
    proof {
        assert(es.skip(i as int) =~= Seq::<Seq<char>>::empty());
    }
    Ok(())
}

fn before_first_chars(v: &[char], c: char) -> (r: Vec<char>)
    ensures
        r@ == before_first(v@, c),
{
    match crate::text::find_from(v, 0, c) {
        Some(k) => {
            proof {
                lemma_index_of(v@, c, k as int);
            }
            let r = slice_chars(v, 0, k);
            assert(r@ =~= v@.take(k as int));
            r
        },
        None => {
            proof {
                lemma_index_of(v@, c, v@.len() as int);
            }
            let r = slice_chars(v, 0, v.len());
            assert(r@ =~= v@);
            r
        },
    }
}

pub open spec fn spec_check_origin(original: Seq<char>, effective: Seq<char>) -> Result<(), Seq<char>> {
    match spec_github_url(spec_trim(original)) {
        Err(m) => Err(m),
        Ok(expected) => match spec_github_url(spec_trim(effective)) {
            Err(m) => Err(m),
            Ok(actual) => if eq_ignore_ascii_case(actual, expected) {
                Ok(())
            } else {
                Err("Git URL rewriting changed the saved repository's origin"@)
            },
        },
    }
}

/// The origin Git would contact must be the saved one: URL rewriting may not move a
/// managed clone to another repository.
pub fn check_origin(original: &str, effective: &str) -> (r: Result<(), String>)
    ensures
        match spec_check_origin(original@, effective@) {
            Ok(_) => r is Ok,
            Err(m) => r matches Err(e) && e@ == m,
        },
{
    let o = trim(&chars_of(original));
    let e = trim(&chars_of(effective));
    let os = string_from(&o);
    let es = string_from(&e);
    let expected = match github_url(os.as_str()) {
        Ok(v) => v,
        Err(m) => {
            return Err(m);
        },
    };
    let actual = match github_url(es.as_str()) {
        Ok(v) => v,
        Err(m) => {
            return Err(m);
        },
    };
    if eq_ignore_case(&chars_of(actual.as_str()), &chars_of(expected.as_str())) {
        Ok(())
    } else {
        Err(String::from_str("Git URL rewriting changed the saved repository's origin"))
    }
}

/// A saved clone's configured origin names the requested repository (trimmed,
/// ASCII case ignored).
pub fn origin_is(configured: &str, remote: &str) -> (r: bool)
    ensures
        r == eq_ignore_ascii_case(spec_trim(configured@), remote@),
{
    let c = trim(&chars_of(configured));
    eq_ignore_case(&c, &chars_of(remote))
}

/// The directory name of a managed clone: the first 20 hex digits of the SHA-256 of
/// the lowercased clone URL.
pub fn managed_name(remote: &str) -> (r: String)
    ensures
        r@ == spec_hash(encode_utf8(spec_to_lowercase(remote@))).take(20),
{
    let lower = to_lowercase(remote);
    let bytes = lower.as_str().as_bytes();
    let h = hash(bytes);
    let c = chars_of(h.as_str());
    let p = slice_chars(&c, 0, 20);
    assert(p@ =~= h@.take(20));
    string_from(&p)
}

/// A character GitHub allows in an owner or repository name: an ASCII letter or
/// digit, `_`, `-` or `.`.
pub open spec fn name_char(c: char) -> bool {
    ('a' <= c && c <= 'z') || ('A' <= c && c <= 'Z') || ('0' <= c && c <= '9') || c == '_' || c
        == '-' || c == '.'
}

proof fn lemma_first_slash(x: Seq<char>, y: Seq<char>)
    requires
        forall|i: int| 0 <= i < x.len() ==> x[i] != '/',
        y.len() > 0,
        y[0] == '/',
    ensures
        index_of(x + y, '/') == x.len(),
{
    let s = x + y;
    lemma_index_of_bound(s, '/');
    assert(s[x.len() as int] == '/');
    let i = index_of(s, '/');
    if i < 0 {
        assert(s[x.len() as int] != '/');
    } else if i < x.len() {
        assert(s[i] == x[i]);
    } else if i > x.len() {
        assert(s[x.len() as int] != '/');
    }
}

proof fn lemma_no_slash(x: Seq<char>)
    requires
        forall|i: int| 0 <= i < x.len() ==> x[i] != '/',
    ensures
        index_of(x, '/') < 0,
{
    lemma_index_of_bound(x, '/');
    if index_of(x, '/') >= 0 {
        assert(x[index_of(x, '/')] == '/');
    }
}

/// Every plain `https://github.com/OWNER/NAME` address (with or without a trailing
/// `.git`) whose owner and name are non-empty, neither `.` nor `..`, and made only of
/// ASCII letters, digits, `_`, `-` and `.` is accepted, as
/// `https://github.com/OWNER/NAME.git`. The address is read through `url::Url::parse`,
/// so the law is stated over what that parse gives.
pub proof fn law_plain_github_addresses_are_accepted(
    input: Seq<char>,
    owner: Seq<char>,
    name: Seq<char>,
    dot_git: bool,
)
    requires
        owner.len() > 0 && owner != "."@ && owner != ".."@,
        name.len() > 0 && name != "."@ && name != ".."@,
        forall|i: int| 0 <= i < owner.len() ==> name_char(#[trigger] owner[i]),
        forall|i: int| 0 <= i < name.len() ==> name_char(#[trigger] name[i]),
        !is_suffix(".git"@, name),
        spec_url_parts(input) == Some(
            UrlPartsView {
                scheme: "https"@,
                host: Some("github.com"@),
                username: seq![],
                password: None,
                port: None,
                path: "/"@ + owner + "/"@ + if dot_git {
                    name + ".git"@
                } else {
                    name
                },
                query: None,
                fragment: None,
            },
        ),
    ensures
        spec_github_url(input) == Ok::<Seq<char>, Seq<char>>(
            "https://github.com/"@ + owner + "/"@ + name + ".git"@,
        ),
{
    reveal_strlit("/");
    reveal_strlit(".git");
    let m = if dot_git {
        name + ".git"@
    } else {
        name
    };
    let path = "/"@ + owner + "/"@ + m;
    let t = owner + "/"@ + m;
    assert forall|i: int| 0 <= i < owner.len() implies owner[i] != '/' by {
        assert(name_char(owner[i]));
    }
    assert forall|i: int| 0 <= i < name.len() implies name[i] != '/' by {
        assert(name_char(name[i]));
    }
    assert forall|i: int| 0 <= i < m.len() implies m[i] != '/' by {
        if i < name.len() {
            assert(m[i] == name[i]);
        }
    }
    // Trimming the slashes leaves `owner/m`.
    assert(path[0] == '/');
    assert(path.skip(1) =~= t);
    assert(t[0] == owner[0]);
    assert(name_char(owner[0]));
    assert(t.last() == m.last());
    assert(m.last() != '/');
    assert(trim_char(t, '/') == t);
    assert(trim_char(path, '/') == t);
    // The one slash left separates owner and name.
    lemma_first_slash(owner, "/"@ + m);
    assert(owner + ("/"@ + m) =~= t);
    assert(t.take(owner.len() as int) =~= owner);
    assert(t.skip(owner.len() as int + 1) =~= m);
    lemma_no_slash(m);
    assert(two_segments(path));
    assert(owner_of(path) == owner);
    if dot_git {
        assert(m.subrange(m.len() - 4, m.len() as int) =~= ".git"@);
        assert(m.take(m.len() - 4) =~= name);
    }
    assert(name_of(path) == name);
}

} // verus!
