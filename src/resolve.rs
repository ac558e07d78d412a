use vstd::prelude::*;
use vstd::string::*;
use crate::url_ops::{parsed_url, joined_url, parse_url, join_url};

verus! {

/// An href or a base that could not be read as a URL reference.
#[derive(Debug, Clone, Copy, PartialEq, Eq, Structural)]
pub enum LinkError {
    MalformedUrl,
}

/// A resolved URL that has a scheme, held as its text.
#[derive(Debug, Clone)]
pub struct AbsoluteUrl {
    text: String,
}

impl View for AbsoluteUrl {
    type V = Seq<char>;

    closed spec fn view(&self) -> Seq<char> {
        self.text@
    }
}

/// Index of the first character at or after `i` that is `a` or `b`, or the
/// length of `s` where there is none.
pub open spec fn first_of(s: Seq<char>, i: int, a: char, b: char) -> int
    decreases s.len() - i,
{
    if i < 0 || i >= s.len() {
        s.len() as int
    } else if s[i] == a || s[i] == b {
        i
    } else {
        first_of(s, i + 1, a, b)
    }
}

/// Index of the last `/` before `end`, or -1 where there is none.
pub open spec fn last_slash(s: Seq<char>, end: int) -> int
    decreases end,
{
    if end <= 0 {
        -1
    } else if s[end - 1] == '/' {
        end - 1
    } else {
        last_slash(s, end - 1)
    }
}

/// Where the path of `t` starts: after `scheme://host` where the scheme is
/// followed by `//`, else right after the scheme's colon (the end of `t`
/// where it has no colon).
pub open spec fn path_start(t: Seq<char>) -> int {
    let c = first_of(t, 0, ':', ':');
    if c + 2 < t.len() && t[c + 1] == '/' && t[c + 2] == '/' {
        first_of(t, c + 3, '/', '/')
    } else if c < t.len() {
        c + 1
    } else {
        t.len() as int
    }
}

/// `s` without its query and fragment.
pub open spec fn without_query(s: Seq<char>) -> Seq<char> {
    s.take(first_of(s, 0, '?', '#'))
}

/// `s` without its fragment.
pub open spec fn without_fragment(s: Seq<char>) -> Seq<char> {
    s.take(first_of(s, 0, '#', '#'))
}

/// The directory of a URL: no query, no fragment, and the path cut after its
/// last `/` (a URL with no path gets the path `/`).
pub open spec fn directory_of(s: Seq<char>) -> Seq<char> {
    let t = without_query(s);
    let k = last_slash(t, t.len() as int);
    if k >= path_start(t) {
        t.take(k + 1)
    } else {
        t.push('/')
    }
}

/// The base URL of a document at `doc` whose first `<base>` tag declares
/// `declared`: an absolute `declared` as it parses, a relative one resolved
/// against the document's URL, and where there is none or it cannot be
/// resolved, the directory of the document's URL.
pub open spec fn base_of(doc: Seq<char>, declared: Option<Seq<char>>) -> Option<Seq<char>> {
    match parsed_url(doc) {
        None => None,
        Some(d) => match declared {
            Some(x) => match parsed_url(x) {
                Some(u) => Some(u),
                None => match joined_url(d, x) {
                    Some(u) => Some(u),
                    None => Some(directory_of(d)),
                },
            },
            None => Some(directory_of(d)),
        },
    }
}

/// The URL that `href` stands for in a document whose base is `base`: an
/// absolute href as it parses, whatever the base, else the href resolved
/// against the base.
pub open spec fn link_of(base: Seq<char>, href: Seq<char>) -> Option<Seq<char>> {
    match parsed_url(href) {
        Some(u) => Some(u),
        None => joined_url(base, href),
    }
}

proof fn lemma_first_of_bounds(s: Seq<char>, i: int, a: char, b: char)
    requires
        0 <= i <= s.len(),
    ensures
        i <= first_of(s, i, a, b) <= s.len(),
    decreases s.len() - i,
{
    if i < s.len() && !(s[i] == a || s[i] == b) {
        lemma_first_of_bounds(s, i + 1, a, b);
    }
}

proof fn lemma_last_slash_bounds(s: Seq<char>, end: int)
    ensures
        -1 <= last_slash(s, end) < end || (end <= 0 && last_slash(s, end) == -1),
    decreases end,
{
    if end > 0 && s[end - 1] != '/' {
        lemma_last_slash_bounds(s, end - 1);
    }
}

/// Index of the first `a` or `b` in `s` at or after `from`, or its length.
fn find_first(s: &str, from: usize, a: char, b: char) -> (r: usize)
    requires
        from <= s@.len(),
    ensures
        r == first_of(s@, from as int, a, b),
        from <= r <= s@.len(),
{
    proof {
        lemma_first_of_bounds(s@, from as int, a, b);
    }
    let n = s.unicode_len();
    let mut i: usize = from;
    while i < n
        invariant
            from <= i <= n,
            n == s@.len(),
            first_of(s@, from as int, a, b) == first_of(s@, i as int, a, b),
        decreases n - i,
    {
        let c = s.get_char(i);
        if c == a || c == b {
            return i;
        }
        i = i + 1;
    }
    i
}

/// Index of the last `/` in `s`.
fn find_last_slash(s: &str) -> (r: Option<usize>)
    ensures
        match r {
            Some(k) => k as int == last_slash(s@, s@.len() as int),
            None => last_slash(s@, s@.len() as int) == -1,
        },
        r matches Some(k) ==> k < s@.len(),
{
    proof {
        lemma_last_slash_bounds(s@, s@.len() as int);
    }
    let n = s.unicode_len();
    let mut end: usize = n;
    while end > 0
        invariant
            end <= n,
            n == s@.len(),
            last_slash(s@, n as int) == last_slash(s@, end as int),
        decreases end,
    {
        if s.get_char(end - 1) == '/' {
            return Some(end - 1);
        }
        end = end - 1;
    }
    None
}

/// Where the path of the URL text `t` starts.
fn find_path_start(t: &str) -> (r: usize)
    ensures
        r as int == path_start(t@),
{
    let n = t.unicode_len();
    let c = find_first(t, 0, ':', ':');
    if c < n && n - c > 2 && t.get_char(c + 1) == '/' && t.get_char(c + 2) == '/' {
        find_first(t, c + 3, '/', '/')
    } else if c < n {
        c + 1
    } else {
        n
    }
}

impl AbsoluteUrl {
    /// Parses an absolute URL.
    pub fn parse(s: &str) -> (r: Result<AbsoluteUrl, LinkError>)
        ensures
            match r {
                Ok(u) => parsed_url(s@) == Some(u@),
                Err(e) => parsed_url(s@) is None && e == LinkError::MalformedUrl,
            },
    {
        match parse_url(s) {
            Some(t) => Ok(AbsoluteUrl { text: t }),
            None => Err(LinkError::MalformedUrl),
        }
    }

    /// The URL's text.
    pub fn as_str(&self) -> (r: &str)
        ensures
            r@ == self@,
    {
        self.text.as_str()
    }

    /// A second URL with the same text.
    pub fn clone_url(&self) -> (r: AbsoluteUrl)
        ensures
            r@ == self@,
    {
        AbsoluteUrl { text: self.text.clone() }
    }

    /// Whether the two URLs have the same text.
    pub fn same_as(&self, other: &AbsoluteUrl) -> (r: bool)
        ensures
            r == (self@ == other@),
    {
        self.text == other.text
    }

    /// This URL without its fragment.
    pub fn strip_fragment(&self) -> (r: AbsoluteUrl)
        ensures
            r@ == without_fragment(self@),
    {
        let s = self.text.as_str();
        let cut = find_first(s, 0, '#', '#');
        AbsoluteUrl { text: String::from_str(s.substring_char(0, cut)) }
    }

    /// The URL's text, as an owned string.
    pub fn to_string(&self) -> (r: String)
        ensures
            r@ == self@,
    {
        self.text.clone()
    }

    /// The directory of this URL: query and fragment removed, path cut after
    /// its last `/`.
    pub fn directory(&self) -> (r: AbsoluteUrl)
        ensures
            r@ == directory_of(self@),
    {
        let s = self.text.as_str();
        let cut = find_first(s, 0, '?', '#');
        let t = s.substring_char(0, cut);
        let k = find_last_slash(t);
        let p = find_path_start(t);
        match k {
            Some(k) => {
                if k >= p {
                    let d = t.substring_char(0, k + 1);
                    return AbsoluteUrl { text: String::from_str(d) };
                }
            },
            None => {},
        }
        let mut d = String::from_str(t);
        d.append("/");
        proof {
            reveal_strlit("/");
            assert(d@ =~= t@.push('/'));
        }
        AbsoluteUrl { text: d }
    }
}

/// The base URL of a document at `document_url` whose first `<base>` tag
/// carries `declared_base`; fails only where the document's URL does not
/// parse.
pub fn resolve_base(document_url: &str, declared_base: Option<&str>) -> (r: Result<
    AbsoluteUrl,
    LinkError,
>)
    ensures
        match r {
            Ok(u) => base_of(document_url@, declared_base.deep_view()) == Some(u@),
            Err(e) => base_of(document_url@, declared_base.deep_view()) is None && e
                == LinkError::MalformedUrl,
        },
{
    let doc = match AbsoluteUrl::parse(document_url) {
        Ok(d) => d,
        Err(e) => return Err(e),
    };
    match declared_base {
        Some(x) => {
            match parse_url(x) {
                Some(u) => {
                    return Ok(AbsoluteUrl { text: u });
                },
                None => {},
            }
            match join_url(doc.as_str(), x) {
                Some(u) => {
                    return Ok(AbsoluteUrl { text: u });
                },
                None => {},
            }
            Ok(doc.directory())
        },
        None => Ok(doc.directory()),
    }
}

/// Resolves `href` against `base`.
pub fn resolve_link(base: &AbsoluteUrl, href: &str) -> (r: Result<AbsoluteUrl, LinkError>)
    ensures
        match r {
            Ok(u) => link_of(base@, href@) == Some(u@),
            Err(e) => link_of(base@, href@) is None && e == LinkError::MalformedUrl,
        },
{
    match parse_url(href) {
        Some(u) => Ok(AbsoluteUrl { text: u }),
        None => match join_url(base.as_str(), href) {
            Some(u) => Ok(AbsoluteUrl { text: u }),
            None => Err(LinkError::MalformedUrl),
        },
    }
}

} // verus!

verus! {

proof fn lemma_first_of_skips(s: Seq<char>, i: int, a: char, b: char, k: int)
    requires
        0 <= i <= k < first_of(s, i, a, b),
    ensures
        s[k] != a && s[k] != b,
    decreases s.len() - i,
{
    if i < k {
        lemma_first_of_skips(s, i + 1, a, b, k);
    }
}

proof fn lemma_last_slash_found(s: Seq<char>, end: int)
    requires
        last_slash(s, end) >= 0,
    ensures
        s[last_slash(s, end)] == '/',
    decreases end,
{
    if end > 0 && s[end - 1] != '/' {
        lemma_last_slash_found(s, end - 1);
    }
}

/// A declared base that is an absolute URL becomes the base as it parses; a
/// relative one is resolved against the document's own URL.
pub proof fn lemma_declared_base(doc: Seq<char>, x: Seq<char>)
    requires
        parsed_url(doc) is Some,
    ensures
        parsed_url(x) is Some ==> base_of(doc, Some(x)) == parsed_url(x),
        parsed_url(x) is None && joined_url(parsed_url(doc)->0, x) is Some ==> base_of(
            doc,
            Some(x),
        ) == joined_url(parsed_url(doc)->0, x),
{
}

/// Without a declared base, the base is the document's URL with query and
/// fragment removed and its path cut to its directory: it holds no `?` or
/// `#`, ends in `/`, and is the URL up to a `/` of its path, or the whole URL
/// with `/` added where the URL has no path.
pub proof fn lemma_default_base(doc: Seq<char>)
    requires
        parsed_url(doc) is Some,
    ensures
        ({
            let d = parsed_url(doc)->0;
            let t = without_query(d);
            let b = base_of(doc, None)->0;
            &&& base_of(doc, None) is Some
            &&& forall|k: int| 0 <= k < b.len() ==> b[k] != '?' && b[k] != '#'
            &&& b.len() > 0 && b.last() == '/'
            &&& (b.is_prefix_of(t) && b.len() > path_start(t)) || b == t.push('/')
        }),
{
    let d = parsed_url(doc)->0;
    let n = first_of(d, 0, '?', '#');
    lemma_first_of_bounds(d, 0, '?', '#');
    let t = without_query(d);
    let b = directory_of(d);
    assert forall|k: int| 0 <= k < t.len() implies t[k] != '?' && t[k] != '#' by {
        lemma_first_of_skips(d, 0, '?', '#', k);
    }
    let k = last_slash(t, t.len() as int);
    lemma_last_slash_bounds(t, t.len() as int);
    let c = first_of(t, 0, ':', ':');
    lemma_first_of_bounds(t, 0, ':', ':');
    if c + 2 < t.len() && t[c + 1] == '/' && t[c + 2] == '/' {
        lemma_first_of_bounds(t, c + 3, '/', '/');
    }
    assert(path_start(t) >= 0);
    if k >= path_start(t) {
        lemma_last_slash_found(t, t.len() as int);
        assert(b =~= t.take(k + 1));
        assert(b.is_prefix_of(t));
        assert(b.last() == t[k]);
        assert forall|j: int| 0 <= j < b.len() implies b[j] != '?' && b[j] != '#' by {
            assert(b[j] == t[j]);
        }
    } else {
        assert(b =~= t.push('/'));
        assert forall|j: int| 0 <= j < b.len() implies b[j] != '?' && b[j] != '#' by {
            if j < t.len() {
                assert(b[j] == t[j]);
            }
        }
    }
}

/// An href that is an absolute URL resolves to that URL as it parses, on
/// whatever base.
pub proof fn lemma_absolute_link_ignores_base(base1: Seq<char>, base2: Seq<char>, h: Seq<char>)
    requires
        parsed_url(h) is Some,
    ensures
        link_of(base1, h) == parsed_url(h),
        link_of(base1, h) == link_of(base2, h),
{
}

} // verus!
