use vstd::prelude::*;
use vstd::string::*;
use vstd::seq_lib::to_multiset_insert;
use crate::checker::CheckStatus;
use crate::coordinator::CheckOutcome;

verus! {

/// A link that was found broken, and why.
#[derive(Debug, Clone)]
pub struct BrokenLink {
    pub url: String,
    pub reason: String,
}

impl View for BrokenLink {
    type V = (Seq<char>, Seq<char>);

    open spec fn view(&self) -> (Seq<char>, Seq<char>) {
        (self.url@, self.reason@)
    }
}

/// The decimal digit for `d` (below 10).
pub open spec fn digit_char(d: nat) -> char {
    if d == 0 {
        '0'
    } else if d == 1 {
        '1'
    } else if d == 2 {
        '2'
    } else if d == 3 {
        '3'
    } else if d == 4 {
        '4'
    } else if d == 5 {
        '5'
    } else if d == 6 {
        '6'
    } else if d == 7 {
        '7'
    } else if d == 8 {
        '8'
    } else {
        '9'
    }
}

/// The decimal digits of `n`.
pub open spec fn decimal(n: nat) -> Seq<char>
    decreases n,
{
    if n < 10 {
        seq![digit_char(n)]
    } else {
        decimal(n / 10).push(digit_char(n % 10))
    }
}

/// The reason a broken link is reported with: the HTTP status in decimal, or
/// the transport failure's own text; `None` for a reachable link.
pub open spec fn reason_of(status: CheckStatus) -> Option<Seq<char>> {
    match status {
        CheckStatus::Reachable => None,
        CheckStatus::Unreachable(code) => Some(decimal(code as nat)),
        CheckStatus::TransportFailure(r) => Some(r@),
    }
}

/// The broken links among `outs`, in their order.
pub open spec fn broken_of(outs: Seq<(Seq<char>, CheckStatus)>) -> Seq<(Seq<char>, Seq<char>)>
    decreases outs.len(),
{
    if outs.len() == 0 {
        Seq::empty()
    } else {
        let prev = broken_of(outs.drop_last());
        match reason_of(outs.last().1) {
            Some(r) => prev.push((outs.last().0, r)),
            None => prev,
        }
    }
}

/// Lexicographic order on the characters of `a` and `b` from index `i` on.
pub open spec fn lex_le_from(a: Seq<char>, b: Seq<char>, i: int) -> bool
    decreases a.len() - i,
{
    if i < 0 || i >= a.len() {
        true
    } else if i >= b.len() {
        false
    } else if (a[i] as u32) != (b[i] as u32) {
        (a[i] as u32) < (b[i] as u32)
    } else {
        lex_le_from(a, b, i + 1)
    }
}

/// `a` comes no later than `b` in lexicographic order.
pub open spec fn lex_le(a: Seq<char>, b: Seq<char>) -> bool {
    lex_le_from(a, b, 0)
}

/// Each entry's URL comes no later than the next one's.
pub open spec fn sorted_by_url(s: Seq<(Seq<char>, Seq<char>)>) -> bool {
    forall|i: int| 0 <= i < s.len() - 1 ==> lex_le(#[trigger] s[i].0, s[i + 1].0)
}

proof fn lemma_lex_total(a: Seq<char>, b: Seq<char>, i: int)
    requires
        0 <= i,
    ensures
        lex_le_from(a, b, i) || lex_le_from(b, a, i),
    decreases a.len() - i,
{
    if i < a.len() && i < b.len() && (a[i] as u32) == (b[i] as u32) {
        lemma_lex_total(a, b, i + 1);
    }
}

/// The one-digit string for `d`.
fn digit_str(d: u16) -> (r: &'static str)
    requires
        d < 10,
    ensures
        r@ == seq![digit_char(d as nat)],
{
    proof {
        reveal_strlit("0");
        reveal_strlit("1");
        reveal_strlit("2");
        reveal_strlit("3");
        reveal_strlit("4");
        reveal_strlit("5");
        reveal_strlit("6");
        reveal_strlit("7");
        reveal_strlit("8");
        reveal_strlit("9");
    }
    let r = if d == 0 {
        "0"
    } else if d == 1 {
        "1"
    } else if d == 2 {
        "2"
    } else if d == 3 {
        "3"
    } else if d == 4 {
        "4"
    } else if d == 5 {
        "5"
    } else if d == 6 {
        "6"
    } else if d == 7 {
        "7"
    } else if d == 8 {
        "8"
    } else {
        "9"
    };
    assert(r@ =~= seq![digit_char(d as nat)]);
    r
}

/// The decimal digits of `n`.
pub fn decimal_string(n: u16) -> (r: String)
    ensures
        r@ == decimal(n as nat),
    decreases n,
{
    if n < 10 {
        String::from_str(digit_str(n))
    } else {
        let mut s = decimal_string(n / 10);
        s.append(digit_str(n % 10));
        s
    }
}

/// The reason a broken link is reported with, or `None` for a reachable one.
pub fn reason(status: &CheckStatus) -> (r: Option<String>)
    ensures
        r.deep_view() == reason_of(*status),
{
    match status {
        CheckStatus::Reachable => None,
        CheckStatus::Unreachable(code) => Some(decimal_string(*code)),
        CheckStatus::TransportFailure(t) => Some(t.clone()),
    }
}

/// Whether `a` comes no later than `b` in lexicographic order.
pub fn url_le(a: &str, b: &str) -> (r: bool)
    ensures
        r == lex_le(a@, b@),
{
    let na = a.unicode_len();
    let nb = b.unicode_len();
    let mut i: usize = 0;
    while i < na
        invariant
            i <= na,
            na == a@.len(),
            nb == b@.len(),
            i <= nb,
            lex_le(a@, b@) == lex_le_from(a@, b@, i as int),
        decreases na - i,
    {
        if i >= nb {
            return false;
        }
        let ca = a.get_char(i);
        let cb = b.get_char(i);
        if (ca as u32) != (cb as u32) {
            return (ca as u32) < (cb as u32);
        }
        i = i + 1;
    }
    true
}

/// The broken links among `outcomes`: every one that is not reachable, with
/// its reason, sorted by URL.
pub fn aggregate(outcomes: &Vec<CheckOutcome>) -> (r: Vec<BrokenLink>)
    ensures
        r@.map_values(|b: BrokenLink| b@).to_multiset() == broken_of(
            outcomes@.map_values(|o: CheckOutcome| o@),
        ).to_multiset(),
        sorted_by_url(r@.map_values(|b: BrokenLink| b@)),
{
    let ghost outs = outcomes@.map_values(|o: CheckOutcome| o@);
    let mut res: Vec<BrokenLink> = Vec::new();
    let mut i: usize = 0;
    proof {
        broadcast use vstd::seq_lib::group_to_multiset_ensures;

        assert(outs.take(0) =~= Seq::<(Seq<char>, CheckStatus)>::empty());
        assert(res@.map_values(|b: BrokenLink| b@) =~= Seq::<(Seq<char>, Seq<char>)>::empty());
    }
    while i < outcomes.len()
        invariant
            i <= outcomes@.len(),
            outs == outcomes@.map_values(|o: CheckOutcome| o@),
            res@.map_values(|b: BrokenLink| b@).to_multiset() == broken_of(
                outs.take(i as int),
            ).to_multiset(),
            sorted_by_url(res@.map_values(|b: BrokenLink| b@)),
        decreases outcomes@.len() - i,
    {
        proof {
            let t = outs.take(i as int + 1);
            assert(t.drop_last() =~= outs.take(i as int));
            assert(t.last() == outs[i as int]);
        }
        let o = &outcomes[i];
        match reason(&o.status) {
            Some(why) => {
                let entry = BrokenLink { url: o.url.to_string(), reason: why };
                insert_sorted(&mut res, entry);
                proof {
                    broken_of(outs.take(i as int)).to_multiset_ensures();
                }
            },
            None => {},
        }
        i = i + 1;
    }
    assert(outs.take(i as int) =~= outs);
    res
}

/// Inserts `e` into `v`, which is sorted by URL, after every entry whose URL
/// comes no later than its own.
fn insert_sorted(v: &mut Vec<BrokenLink>, e: BrokenLink)
    requires
        sorted_by_url(old(v)@.map_values(|b: BrokenLink| b@)),
    ensures
        sorted_by_url(final(v)@.map_values(|b: BrokenLink| b@)),
        final(v)@.map_values(|b: BrokenLink| b@).to_multiset() == old(v)@.map_values(
            |b: BrokenLink| b@,
        ).to_multiset().insert(e@),
{
    let ghost s = old(v)@.map_values(|b: BrokenLink| b@);
    let mut p: usize = 0;
    let mut found = false;
    while p < v.len() && !found
        invariant
            p <= v@.len(),
            v@ == old(v)@,
            s == v@.map_values(|b: BrokenLink| b@),
            forall|k: int| 0 <= k < p ==> lex_le(#[trigger] s[k].0, e@.0),
            found ==> p < s.len() && !lex_le(s[p as int].0, e@.0),
        decreases v@.len() - p + if found {
            0int
        } else {
            1int
        },
    {
        if url_le(v[p].url.as_str(), e.url.as_str()) {
            p = p + 1;
        } else {
            found = true;
        }
    }
    proof {
        if p < s.len() {
            lemma_lex_total(s[p as int].0, e@.0, 0);
        }
    }
    let ghost ev = e@;
    v.insert(p, e);
    proof {
        let t = v@.map_values(|b: BrokenLink| b@);
        assert(t =~= s.insert(p as int, ev));
        to_multiset_insert(s, p as int, ev);
        assert forall|i: int| 0 <= i < t.len() - 1 implies lex_le(#[trigger] t[i].0, t[i + 1].0) by {
            if i < p - 1 {
                assert(t[i] == s[i] && t[i + 1] == s[i + 1]);
            } else if i == p - 1 {
                assert(t[i] == s[i] && t[i + 1] == ev);
            } else if i == p {
                assert(t[i] == ev && t[i + 1] == s[i]);
            } else {
                assert(t[i] == s[i - 1] && t[i + 1] == s[i]);
            }
        }
    }
}

} // verus!
