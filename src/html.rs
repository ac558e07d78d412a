use vstd::prelude::*;

verus! {

/// The values of the attribute `attr` on the elements named `tag` of the HTML
/// document `body`, in document order, with `None` for an element that lacks
/// the attribute.
pub uninterp spec fn tag_attributes(body: Seq<char>, tag: Seq<char>, attr: Seq<char>) -> Seq<
    Option<Seq<char>>,
>;

/// Relies on select's `Document::from`, which parses an HTML document,
/// `Document::find` with `predicate::Name`, which walks the elements of a
/// given name in document order, and `Node::attr`, which reads one attribute.
#[verifier::external_body]
pub(crate) fn attribute_values(body: &str, tag: &str, attr: &str) -> (r: Vec<Option<String>>)
    ensures
        r.deep_view() == tag_attributes(body@, tag@, attr@),
{
    let doc = select::document::Document::from(body);
    let mut out = Vec::new();
    for node in doc.find(select::predicate::Name(tag)) {
        out.push(node.attr(attr).map(String::from));
    }
    out
}

/// The first present value of `v` at or after `i`.
pub open spec fn first_present_from(v: Seq<Option<Seq<char>>>, i: int) -> Option<Seq<char>>
    decreases v.len() - i,
{
    if i < 0 || i >= v.len() {
        None
    } else if v[i] is Some {
        v[i]
    } else {
        first_present_from(v, i + 1)
    }
}

/// The first present value of `v`.
pub open spec fn first_present(v: Seq<Option<Seq<char>>>) -> Option<Seq<char>> {
    first_present_from(v, 0)
}

/// The first value that is present, as a document's first `<base>` tag with
/// an `href` gives its base.
pub fn first_present_value(v: &Vec<Option<String>>) -> (r: Option<&str>)
    ensures
        r.deep_view() == first_present(v.deep_view()),
{
    let mut i: usize = 0;
    while i < v.len()
        invariant
            i <= v@.len(),
            first_present(v.deep_view()) == first_present_from(v.deep_view(), i as int),
        decreases v@.len() - i,
    {
        match &v[i] {
            Some(s) => {
                return Some(s.as_str());
            },
            None => {},
        }
        i = i + 1;
    }
    None
}

} // verus!
