//! Snapshots of the stored offers, in the order of their identifiers.

use crate::scan::lemma_filter_step;
use crate::state::{OfferObj, Offers};
use vstd::prelude::*;

verus! {

/// The offers that a run of references points to.
pub open spec fn targets(v: Seq<&OfferObj>) -> Seq<OfferObj> {
    Seq::new(v.len(), |i: int| *v[i])
}

/// The condition of being assigned.
pub open spec fn is_taken() -> spec_fn(OfferObj) -> bool {
    |e: OfferObj| e.requestor_id is Some
}

/// The condition of being free.
pub open spec fn is_free() -> spec_fn(OfferObj) -> bool {
    |e: OfferObj| e.requestor_id is None
}

/// All offers.
pub fn list_offers(offers: &Offers) -> (r: Vec<&OfferObj>)
    ensures
        targets(r@) == offers@,
{
    let mut out: Vec<&OfferObj> = Vec::new();
    let n = offers.len();
    let mut i: usize = 0;
    while i < n
        invariant
            n == offers@.len(),
            i <= n,
            out@.len() == i,
            targets(out@) == offers@.take(i as int),
        decreases n - i,
    {
        let ghost listed = out@;
        out.push(offers.entry(i));
        proof {
            assert forall|j: int| 0 <= j < i + 1 implies targets(out@)[j] == offers@[j] by {
                if j < i {
                    assert(targets(listed)[j] == offers@.take(i as int)[j]);
                }
            }
            assert(targets(out@) =~= offers@.take(i + 1));
        }
        i += 1;
    }
    proof {
        assert(offers@.take(n as int) =~= offers@);
    }
    out
}

/// The offers that are assigned.
pub fn list_taken_offers(offers: &Offers) -> (r: Vec<&OfferObj>)
    ensures
        targets(r@) == offers@.filter(is_taken()),
{
    let mut out: Vec<&OfferObj> = Vec::new();
    let n = offers.len();
    let mut i: usize = 0;
    proof {
        assert(offers@.take(0).filter(is_taken()) =~= Seq::<OfferObj>::empty()) by {
            reveal(Seq::filter);
        }
    }
    while i < n
        invariant
            n == offers@.len(),
            i <= n,
            out@.len() == offers@.take(i as int).filter(is_taken()).len(),
            targets(out@) == offers@.take(i as int).filter(is_taken()),
        decreases n - i,
    {
        let e = offers.entry(i);
        proof {
            lemma_filter_step(offers@, is_taken(), i as int);
        }
        if e.requestor_id.is_some() {
            let ghost listed = out@;
            out.push(e);
            proof {
                let kept = offers@.take(i as int).filter(is_taken());
                assert forall|j: int| 0 <= j < out@.len() implies targets(out@)[j] == kept.push(
                    *e,
                )[j] by {
                    if j < listed.len() {
                        assert(targets(listed)[j] == kept[j]);
                    }
                }
                assert(targets(out@) =~= kept.push(*e));
            }
        }
        i += 1;
    }
    proof {
        assert(offers@.take(n as int) =~= offers@);
    }
    out
}

/// The offers that are free.
pub fn list_available_offers(offers: &Offers) -> (r: Vec<&OfferObj>)
    ensures
        targets(r@) == offers@.filter(is_free()),
{
    let mut out: Vec<&OfferObj> = Vec::new();
    let n = offers.len();
    let mut i: usize = 0;
    proof {
        assert(offers@.take(0).filter(is_free()) =~= Seq::<OfferObj>::empty()) by {
            reveal(Seq::filter);
        }
    }
    while i < n
        invariant
            n == offers@.len(),
            i <= n,
            out@.len() == offers@.take(i as int).filter(is_free()).len(),
            targets(out@) == offers@.take(i as int).filter(is_free()),
        decreases n - i,
    {
        let e = offers.entry(i);
        proof {
            lemma_filter_step(offers@, is_free(), i as int);
        }
        if e.requestor_id.is_none() {
            let ghost listed = out@;
            out.push(e);
            proof {
                let kept = offers@.take(i as int).filter(is_free());
                assert forall|j: int| 0 <= j < out@.len() implies targets(out@)[j] == kept.push(
                    *e,
                )[j] by {
                    if j < listed.len() {
                        assert(targets(listed)[j] == kept[j]);
                    }
                }
                assert(targets(out@) =~= kept.push(*e));
            }
        }
        i += 1;
    }
    proof {
        assert(offers@.take(n as int) =~= offers@);
    }
    out
}

} // verus!
