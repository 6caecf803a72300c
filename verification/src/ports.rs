//! Which serial ports to offer the operator, and in what order.
//!
//! macOS lists every USB serial device twice: a `/dev/cu.*` call-out half and
//! a `/dev/tty.*` dial-in half. Opening the dial-in half blocks until the far
//! end asserts carrier, which a USB CDC device never does, so on macOS only
//! the call-out halves are offered.

use vstd::prelude::*;

use vstd::relations::{sorted_by, total_ordering};
use vstd::seq_lib::{lemma_sorted_unique, to_multiset_insert};

use crate::text::chars_of;

verus! {

/// Whether text `a` sorts no later than text `b`: character by character by
/// code point, a prefix before anything it is a prefix of. This is the order
/// of `String`'s own comparison, since UTF-8 keeps code-point order byte by
/// byte.
pub open spec fn text_le(a: Seq<char>, b: Seq<char>) -> bool
    decreases a.len(),
{
    if a.len() == 0 {
        true
    } else if b.len() == 0 {
        false
    } else if a[0] != b[0] {
        (a[0] as int) < (b[0] as int)
    } else {
        text_le(a.drop_first(), b.drop_first())
    }
}

/// [`text_le`] as a relation.
pub open spec fn text_order() -> spec_fn(Seq<char>, Seq<char>) -> bool {
    |a: Seq<char>, b: Seq<char>| text_le(a, b)
}

/// The texts of a run of strings.
pub open spec fn texts(v: Seq<String>) -> Seq<Seq<char>> {
    v.map_values(|s: String| s@)
}

/// Whether a port is the dial-in half of a macOS serial device.
pub open spec fn is_dial_in(port: Seq<char>) -> bool {
    "/dev/tty."@.is_prefix_of(port)
}

/// Whether a port is worth offering on a system that is (`macos`) or is not
/// macOS.
pub open spec fn worth_offering(macos: bool) -> spec_fn(Seq<char>) -> bool {
    |port: Seq<char>| !(macos && is_dial_in(port))
}

/// The ports to offer, in the order to offer them.
pub open spec fn offered(ports: Seq<Seq<char>>, macos: bool) -> Seq<Seq<char>> {
    ports.filter(worth_offering(macos)).sort_by(text_order())
}

proof fn lemma_text_le_reflexive(a: Seq<char>)
    ensures
        text_le(a, a),
    decreases a.len(),
{
    if a.len() > 0 {
        lemma_text_le_reflexive(a.drop_first());
    }
}

proof fn lemma_text_le_antisymmetric(a: Seq<char>, b: Seq<char>)
    requires
        text_le(a, b),
        text_le(b, a),
    ensures
        a == b,
    decreases a.len(),
{
    if a.len() > 0 && b.len() > 0 {
        lemma_text_le_antisymmetric(a.drop_first(), b.drop_first());
        assert(a =~= seq![a[0]] + a.drop_first());
        assert(b =~= seq![b[0]] + b.drop_first());
    }
}

proof fn lemma_text_le_transitive(a: Seq<char>, b: Seq<char>, c: Seq<char>)
    requires
        text_le(a, b),
        text_le(b, c),
    ensures
        text_le(a, c),
    decreases a.len(),
{
    if a.len() > 0 && b.len() > 0 && c.len() > 0 && a[0] == b[0] && b[0] == c[0] {
        lemma_text_le_transitive(a.drop_first(), b.drop_first(), c.drop_first());
    }
}

proof fn lemma_text_le_total(a: Seq<char>, b: Seq<char>)
    ensures
        text_le(a, b) || text_le(b, a),
    decreases a.len(),
{
    if a.len() > 0 && b.len() > 0 && a[0] == b[0] {
        lemma_text_le_total(a.drop_first(), b.drop_first());
    }
}

/// Text order is a total order, so there is exactly one way to sort by it.
pub proof fn lemma_text_order_is_total()
    ensures
        total_ordering(text_order()),
{
    assert forall|a: Seq<char>| #[trigger] text_order()(a, a) by {
        lemma_text_le_reflexive(a);
    }
    assert forall|a: Seq<char>, b: Seq<char>|
        #[trigger] text_order()(a, b) && #[trigger] text_order()(b, a) implies a == b by {
        lemma_text_le_antisymmetric(a, b);
    }
    assert forall|a: Seq<char>, b: Seq<char>, c: Seq<char>|
        #[trigger] text_order()(a, b) && #[trigger] text_order()(b, c) implies text_order()(
        a,
        c,
    ) by {
        lemma_text_le_transitive(a, b, c);
    }
    assert forall|a: Seq<char>, b: Seq<char>|
        #[trigger] text_order()(a, b) || #[trigger] text_order()(b, a) by {
        lemma_text_le_total(a, b);
    }
}

/// Whether `a` sorts no later than `b`.
pub fn text_at_most(a: &str, b: &str) -> (r: bool)
    ensures
        r == text_le(a@, b@),
{
    let x = chars_of(a);
    let y = chars_of(b);
    let mut k: usize = 0;
    assert(x@.skip(0) =~= x@);
    assert(y@.skip(0) =~= y@);
    while k < x.len() && k < y.len()
        invariant
            k <= x@.len(),
            k <= y@.len(),
            x@ == a@,
            y@ == b@,
            text_le(x@, y@) == text_le(x@.skip(k as int), y@.skip(k as int)),
        decreases x.len() - k,
    {
        assert(x@.skip(k as int)[0] == x@[k as int]);
        assert(y@.skip(k as int)[0] == y@[k as int]);
        if x[k] != y[k] {
            return x[k] < y[k];
        }
        assert(x@.skip(k as int).drop_first() =~= x@.skip(k + 1));
        assert(y@.skip(k as int).drop_first() =~= y@.skip(k + 1));
        k = k + 1;
    }
    k == x.len()
}

/// Whether `port` is the dial-in half of a macOS serial device.
pub fn dial_in(port: &str) -> (r: bool)
    ensures
        r == is_dial_in(port@),
{
    let p = chars_of(port);
    let prefix = chars_of("/dev/tty.");
    if p.len() < prefix.len() {
        return false;
    }
    let mut k: usize = 0;
    while k < prefix.len()
        invariant
            k <= prefix@.len() <= p@.len(),
            p@ == port@,
            prefix@ == "/dev/tty."@,
            forall|i: int| 0 <= i < k ==> prefix@[i] == p@[i],
        decreases prefix.len() - k,
    {
        if prefix[k] != p[k] {
            assert(prefix@[k as int] != p@.subrange(0, prefix@.len() as int)[k as int]);
            assert(prefix@ != p@.subrange(0, prefix@.len() as int));
            return false;
        }
        k = k + 1;
    }
    assert(prefix@ =~= p@.subrange(0, prefix@.len() as int));
    true
}

/// The serial ports worth offering the operator, sorted: every port named,
/// less the dial-in halves when the system is macOS.
pub fn offered_ports(ports: Vec<String>, macos: bool) -> (r: Vec<String>)
    ensures
        texts(r@) == offered(texts(ports@), macos),
{
    let ghost keep = worth_offering(macos);
    let ghost leq = text_order();
    proof {
        lemma_text_order_is_total();
    }
    let mut sorted: Vec<String> = Vec::new();
    let mut k: usize = 0;
    let n = ports.len();
    let ghost all = texts(ports@);
    proof {
        reveal(Seq::filter);
        assert(all.take(0) =~= Seq::<Seq<char>>::empty());
        assert(texts(sorted@) =~= Seq::<Seq<char>>::empty());
    }
    while k < n
        invariant
            k <= n == all.len(),
            texts(ports@) == all,
            total_ordering(leq),
            leq == text_order(),
            keep == worth_offering(macos),
            sorted_by(texts(sorted@), leq),
            texts(sorted@).to_multiset() == all.take(k as int).filter(keep).to_multiset(),
        decreases n - k,
    {
        let port = ports[k].clone();
        assert(port@ == all[k as int]);
        proof {
            reveal(Seq::filter);
            assert(all.take(k + 1).drop_last() =~= all.take(k as int));
            assert(all.take(k + 1).last() == all[k as int]);
        }
        let skip = macos && dial_in(port.as_str());
        if !skip {
            let mut p: usize = 0;
            while p < sorted.len() && text_at_most(sorted[p].as_str(), port.as_str())
                invariant
                    p <= sorted@.len(),
                    forall|i: int| 0 <= i < p ==> text_le(#[trigger] texts(sorted@)[i], port@),
                decreases sorted.len() - p,
            {
                p = p + 1;
            }
            let ghost before = texts(sorted@);
            proof {
                if p < sorted@.len() {
                    lemma_text_le_total(before[p as int], port@);
                }
                assert forall|i: int, j: int|
                    0 <= i < j < before.len() + 1 implies #[trigger] leq(
                    before.insert(p as int, port@)[i],
                    before.insert(p as int, port@)[j],
                ) by {
                    let s = before.insert(p as int, port@);
                    if j < p {
                        assert(s[i] == before[i] && s[j] == before[j]);
                    } else if j == p {
                        assert(s[i] == before[i] && s[j] == port@);
                    } else if i == p {
                        assert(s[j] == before[j - 1]);
                        if j - 1 > p {
                            assert(leq(before[p as int], before[j - 1]));
                            lemma_text_le_transitive(port@, before[p as int], before[j - 1]);
                        }
                    } else if i < p {
                        assert(s[i] == before[i] && s[j] == before[j - 1]);
                        assert(text_le(before[i], port@));
                        if j - 1 > p {
                            assert(leq(before[p as int], before[j - 1]));
                            lemma_text_le_transitive(port@, before[p as int], before[j - 1]);
                        }
                        lemma_text_le_transitive(before[i], port@, before[j - 1]);
                    } else {
                        assert(s[i] == before[i - 1] && s[j] == before[j - 1]);
                    }
                }
                to_multiset_insert(before, p as int, port@);
            }
            sorted.insert(p, port);
            proof {
                assert(texts(sorted@) =~= before.insert(p as int, all[k as int]));
                assert(all.take(k + 1).filter(keep) == all.take(k as int).filter(keep).push(
                    all[k as int],
                ));
                all.take(k as int).filter(keep).to_multiset_ensures();
            }
        } else {
            proof {
                assert(!keep(all[k as int]));
            }
        }
        k = k + 1;
    }
    proof {
        assert(all.take(n as int) =~= all);
        all.filter(keep).lemma_sort_by_ensures(leq);
        lemma_sorted_unique(texts(sorted@), all.filter(keep).sort_by(leq), leq);
    }
    sorted
}

} // verus!
