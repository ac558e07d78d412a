use vstd::prelude::*;
use crate::resolve::{AbsoluteUrl, link_of, without_fragment, resolve_link};

verus! {

/// Whether two links that differ only in their fragment count as one.
#[derive(Debug, Clone, Copy, PartialEq, Eq, Structural)]
pub enum FragmentPolicy {
    /// Fragments are kept: `a#x` and `a#y` are two links.
    Keep,
    /// Fragments are dropped: `a#x` and `a#y` are the one link `a`.
    Ignore,
}

/// The text that starts every `http` URL.
pub open spec fn http_prefix() -> Seq<char> {
    seq!['h', 't', 't', 'p', ':', '/', '/']
}

/// The text that starts every `https` URL.
pub open spec fn https_prefix() -> Seq<char> {
    seq!['h', 't', 't', 'p', 's', ':', '/', '/']
}

/// Whether a URL is one that an HTTP client can probe.
pub open spec fn is_web(u: Seq<char>) -> bool {
    http_prefix().is_prefix_of(u) || https_prefix().is_prefix_of(u)
}

/// The form in which a URL is kept in a link set.
pub open spec fn keyed(u: Seq<char>, policy: FragmentPolicy) -> Seq<char> {
    match policy {
        FragmentPolicy::Keep => u,
        FragmentPolicy::Ignore => without_fragment(u),
    }
}

/// What one anchor's href adds to the link set: nothing where it is absent,
/// malformed, or not an HTTP(S) URL.
pub open spec fn link_candidate(
    base: Seq<char>,
    href: Option<Seq<char>>,
    policy: FragmentPolicy,
) -> Option<Seq<char>> {
    match href {
        None => None,
        Some(h) => match link_of(base, h) {
            Some(u) => if is_web(u) {
                Some(keyed(u, policy))
            } else {
                None
            },
            None => None,
        },
    }
}

/// The links of a document whose anchors carry `hrefs`, each once, in the
/// order of their first appearance.
pub open spec fn collected(
    base: Seq<char>,
    hrefs: Seq<Option<Seq<char>>>,
    policy: FragmentPolicy,
) -> Seq<Seq<char>>
    decreases hrefs.len(),
{
    if hrefs.len() == 0 {
        Seq::empty()
    } else {
        let prev = collected(base, hrefs.drop_last(), policy);
        match link_candidate(base, hrefs.last(), policy) {
            Some(u) => if prev.contains(u) {
                prev
            } else {
                prev.push(u)
            },
            None => prev,
        }
    }
}

/// A set of absolute URLs, each held once, in the order they were added.
pub struct LinkSet {
    urls: Vec<AbsoluteUrl>,
}

impl View for LinkSet {
    type V = Seq<Seq<char>>;

    closed spec fn view(&self) -> Seq<Seq<char>> {
        self.urls@.map_values(|u: AbsoluteUrl| u@)
    }
}

impl LinkSet {
    /// No URL is held twice.
    pub open spec fn wf(&self) -> bool {
        self@.no_duplicates()
    }

    /// An empty set.
    pub fn new() -> (r: LinkSet)
        ensures
            r@ == Seq::<Seq<char>>::empty(),
            r.wf(),
    {
        let r = LinkSet { urls: Vec::new() };
        assert(r@ =~= Seq::<Seq<char>>::empty());
        r
    }

    /// How many URLs the set holds.
    pub fn len(&self) -> (r: usize)
        ensures
            r == self@.len(),
    {
        self.urls.len()
    }

    /// The URL at position `i`.
    pub fn get(&self, i: usize) -> (r: &AbsoluteUrl)
        requires
            i < self@.len(),
        ensures
            r@ == self@[i as int],
    {
        &self.urls[i]
    }

    /// Whether the set holds `u`.
    pub fn contains(&self, u: &AbsoluteUrl) -> (r: bool)
        ensures
            r == self@.contains(u@),
    {
        let mut i: usize = 0;
        while i < self.urls.len()
            invariant
                i <= self@.len(),
                forall|k: int| 0 <= k < i ==> self@[k] != u@,
            decreases self@.len() - i,
        {
            if self.urls[i].same_as(u) {
                assert(self@[i as int] == u@);
                return true;
            }
            i = i + 1;
        }
        false
    }

    /// Adds `u` unless the set holds it already; says whether it was added.
    pub fn insert(&mut self, u: AbsoluteUrl) -> (r: bool)
        requires
            old(self).wf(),
        ensures
            final(self).wf(),
            r == !old(self)@.contains(u@),
            r ==> final(self)@ == old(self)@.push(u@),
            !r ==> final(self)@ == old(self)@,
    {
        if self.contains(&u) {
            false
        } else {
            let ghost u_view = u@;
            self.urls.push(u);
            assert(self@ =~= old(self)@.push(u_view));
            true
        }
    }
}

/// Whether `u` can be probed over HTTP: its scheme is `http` or `https`.
pub fn is_web_url(u: &AbsoluteUrl) -> (r: bool)
    ensures
        r == is_web(u@),
{
    let s = u.as_str();
    proof {
        reveal_strlit("http://");
        reveal_strlit("https://");
        assert("http://"@ =~= http_prefix());
        assert("https://"@ =~= https_prefix());
    }
    has_prefix(s, "http://") || has_prefix(s, "https://")
}

/// Whether `s` starts with `p`.
fn has_prefix(s: &str, p: &str) -> (r: bool)
    ensures
        r == p@.is_prefix_of(s@),
{
    let n = p.unicode_len();
    if n > s.unicode_len() {
        return false;
    }
    let mut i: usize = 0;
    while i < n
        invariant
            i <= n,
            n == p@.len(),
            n <= s@.len(),
            forall|k: int| 0 <= k < i ==> s@[k] == p@[k],
        decreases n - i,
    {
        if s.get_char(i) != p.get_char(i) {
            return false;
        }
        i = i + 1;
    }
    assert(p@ =~= s@.subrange(0, n as int));
    true
}

/// The link set of a document whose base is `base` and whose anchors carry
/// `hrefs`: every href that resolves to an HTTP(S) URL, each URL once, kept
/// in the form `policy` gives; a malformed href is skipped.
pub fn extract(base: &AbsoluteUrl, hrefs: &Vec<Option<String>>, policy: FragmentPolicy) -> (r:
    LinkSet)
    ensures
        r.wf(),
        r@ == collected(base@, hrefs.deep_view(), policy),
{
    let mut set = LinkSet::new();
    let mut i: usize = 0;
    while i < hrefs.len()
        invariant
            i <= hrefs@.len(),
            set.wf(),
            set@ == collected(base@, hrefs.deep_view().take(i as int), policy),
        decreases hrefs@.len() - i,
    {
        proof {
            let t = hrefs.deep_view().take(i as int + 1);
            assert(t.drop_last() =~= hrefs.deep_view().take(i as int));
            assert(t.last() == hrefs.deep_view()[i as int]);
        }
        match &hrefs[i] {
            Some(h) => {
                match resolve_link(base, h.as_str()) {
                    Ok(u) => {
                        if is_web_url(&u) {
                            let k = match policy {
                                FragmentPolicy::Keep => u,
                                FragmentPolicy::Ignore => u.strip_fragment(),
                            };
                            set.insert(k);
                        }
                    },
                    Err(_) => {},
                }
            },
            None => {},
        }
        i = i + 1;
    }
    assert(hrefs.deep_view().take(i as int) =~= hrefs.deep_view());
    set
}

proof fn lemma_collected_no_duplicates(
    base: Seq<char>,
    hrefs: Seq<Option<Seq<char>>>,
    policy: FragmentPolicy,
)
    ensures
        collected(base, hrefs, policy).no_duplicates(),
    decreases hrefs.len(),
{
    if hrefs.len() > 0 {
        lemma_collected_no_duplicates(base, hrefs.drop_last(), policy);
    }
}

proof fn lemma_collected_contains(
    base: Seq<char>,
    hrefs: Seq<Option<Seq<char>>>,
    policy: FragmentPolicy,
    i: int,
)
    requires
        0 <= i < hrefs.len(),
        link_candidate(base, hrefs[i], policy) is Some,
    ensures
        collected(base, hrefs, policy).contains(link_candidate(base, hrefs[i], policy)->0),
    decreases hrefs.len(),
{
    let prev = collected(base, hrefs.drop_last(), policy);
    let k = link_candidate(base, hrefs[i], policy)->0;
    if i < hrefs.len() - 1 {
        lemma_collected_contains(base, hrefs.drop_last(), policy, i);
        let w = choose|m: int| 0 <= m < prev.len() && prev[m] == k;
        match link_candidate(base, hrefs.last(), policy) {
            Some(u) => if !prev.contains(u) {
                assert(prev.push(u)[w] == k);
            },
            None => {},
        }
    } else {
        if !prev.contains(k) {
            assert(prev.push(k)[prev.len() as int] == k);
        }
    }
}

/// A link that a document carries twice, or twice up to a fragment that the
/// policy ignores, stands in its link set exactly once.
pub proof fn lemma_repeated_link_once(
    base: Seq<char>,
    hrefs: Seq<Option<Seq<char>>>,
    policy: FragmentPolicy,
    i: int,
    j: int,
)
    requires
        0 <= i < j < hrefs.len(),
        link_candidate(base, hrefs[i], policy) is Some,
        link_candidate(base, hrefs[i], policy) == link_candidate(base, hrefs[j], policy),
    ensures
        ({
            let c = collected(base, hrefs, policy);
            let k = link_candidate(base, hrefs[i], policy)->0;
            exists|m: int|
                0 <= m < c.len() && c[m] == k && forall|n: int|
                    0 <= n < c.len() && c[n] == k ==> n == m
        }),
{
    let c = collected(base, hrefs, policy);
    let k = link_candidate(base, hrefs[i], policy)->0;
    lemma_collected_contains(base, hrefs, policy, i);
    lemma_collected_no_duplicates(base, hrefs, policy);
    let m = choose|m: int| 0 <= m < c.len() && c[m] == k;
    assert(forall|n: int| 0 <= n < c.len() && c[n] == k ==> n == m);
}

} // verus!
