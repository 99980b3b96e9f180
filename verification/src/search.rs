//! The search read path: decoding the payloads that come back from the
//! vector store, in their rank order.
//!
//! A payload that carries no entry — written, perhaps, by an incompatible
//! schema version — is dropped from the result rather than failing the
//! whole request.

use vstd::prelude::*;
use crate::command::{entries_view, SubCommand, SubCommandView};
use crate::payload::{decode_payload, entry_of_text};

verus! {

/// The entries among a ranked list of payload texts, in rank order,
/// payloads that carry no entry dropped.
pub open spec fn decoded_entries(payloads: Seq<Seq<char>>) -> Seq<SubCommandView>
    decreases payloads.len(),
{
    if payloads.len() == 0 {
        Seq::empty()
    } else {
        decoded_entries(payloads.drop_last()) + (match entry_of_text(payloads.last()) {
            Ok(e) => seq![e],
            Err(_) => Seq::<SubCommandView>::empty(),
        })
    }
}

/// Decodes ranked search payloads, keeping their order and dropping every
/// payload that carries no entry.
#[verifier::loop_isolation(false)]
pub fn decode_results(payloads: &Vec<String>) -> (r: Vec<SubCommand>)
    ensures
        entries_view(r@) == decoded_entries(payloads@.map_values(|s: String| s@)),
{
    let ghost pv = payloads@.map_values(|s: String| s@);
    let mut r: Vec<SubCommand> = Vec::new();
    proof {
        assert(pv.subrange(0, 0) =~= Seq::<Seq<char>>::empty());
        assert(entries_view(r@) =~= decoded_entries(pv.subrange(0, 0)));
    }
    let mut i: usize = 0;
    while i < payloads.len()
        invariant
            i <= payloads.len(),
            pv.len() == payloads.len(),
            entries_view(r@) == decoded_entries(pv.subrange(0, i as int)),
        decreases payloads.len() - i,
    {
        proof {
            assert(pv.subrange(0, i + 1).drop_last() =~= pv.subrange(0, i as int));
            assert(pv.subrange(0, i + 1).last() == pv[i as int]);
            assert(pv[i as int] == payloads@[i as int]@);
        }
        match decode_payload(payloads[i].as_str()) {
            Ok(e) => {
                proof {
                    assert(entries_view(r@.push(e)) =~= entries_view(r@) + seq![e@]);
                }
                r.push(e);
            },
            Err(_) => {
                proof {
                    assert(entries_view(r@) + Seq::<SubCommandView>::empty() =~= entries_view(r@));
                }
            },
        }
        i = i + 1;
    }
    proof {
        assert(pv.subrange(0, payloads.len() as int) =~= pv);
    }
    r
}

} // verus!
