use vstd::prelude::*;

pub mod url_ops;
pub mod resolve;
pub mod html;
pub mod extract;
pub mod checker;
pub mod coordinator;
pub mod report;

use crate::resolve::{AbsoluteUrl, LinkError, base_of, resolve_base};
use crate::html::{tag_attributes, attribute_values, first_present, first_present_value};
use crate::extract::{FragmentPolicy, LinkSet, collected, extract};

verus! {

/// The `href` values of the `<base>` tags of the document `body`.
pub open spec fn base_hrefs(body: Seq<char>) -> Seq<Option<Seq<char>>> {
    tag_attributes(body, seq!['b', 'a', 's', 'e'], seq!['h', 'r', 'e', 'f'])
}

/// The `href` values of the `<a>` tags of the document `body`.
pub open spec fn anchor_hrefs(body: Seq<char>) -> Seq<Option<Seq<char>>> {
    tag_attributes(body, seq!['a'], seq!['h', 'r', 'e', 'f'])
}

/// The base URL and the link set of the page at `page_url` whose HTML is
/// `body`; fails only where `page_url` does not parse.
pub fn collect_links(page_url: &str, body: &str, policy: FragmentPolicy) -> (r: Result<
    (AbsoluteUrl, LinkSet),
    LinkError,
>)
    ensures
        match r {
            Ok((base, links)) => {
                &&& base_of(page_url@, first_present(base_hrefs(body@))) == Some(base@)
                &&& links.wf()
                &&& links@ == collected(base@, anchor_hrefs(body@), policy)
            },
            Err(e) => base_of(page_url@, first_present(base_hrefs(body@))) is None && e
                == LinkError::MalformedUrl,
        },
{
    proof {
        reveal_strlit("base");
        reveal_strlit("href");
        reveal_strlit("a");
        assert("base"@ =~= seq!['b', 'a', 's', 'e']);
        assert("href"@ =~= seq!['h', 'r', 'e', 'f']);
        assert("a"@ =~= seq!['a']);
    }
    let bases = attribute_values(body, "base", "href");
    let declared = first_present_value(&bases);
    let base = match resolve_base(page_url, declared) {
        Ok(b) => b,
        Err(e) => return Err(e),
    };
    let anchors = attribute_values(body, "a", "href");
    let links = extract(&base, &anchors, policy);
    Ok((base, links))
}

} // verus!
