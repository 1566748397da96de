//! What the listing commands print: the workloads on disk, and the
//! implementations of one of them. A pure function of the tree; the binary
//! writes it out.
use vstd::prelude::*;

use crate::discovery::Implementation;
use crate::machine::text_or_na;
use crate::runner::{mode_names, mode_strings};
use crate::text::{decimal, join, join_strings, lemma_views_push, owned, push_str, push_u128, views};
use crate::workload::{value_text, Param, Workload};

verus! {

/// `name=value` for each param, in declaration order.
pub open spec fn assignments(params: Seq<Param>) -> Seq<Seq<char>> {
    params.map_values(|p: Param| p.name@ + "="@ + value_text(p.value@))
}

/// What the workload listing says of one workload.
pub open spec fn workload_listing_of(w: Workload) -> Seq<char> {
    w.id@ + "\n  "@ + w.description@ + "\n  implementations: "@ + decimal(
        w.implementations@.len(),
    ) + "\n  params: "@ + join(assignments(w.params@), " "@) + "\n"@
}

/// What the implementation listing says of one implementation.
pub open spec fn implementation_listing_of(i: Implementation) -> Seq<char> {
    i.slug_spec() + "\n  language: "@ + i.language@ + "\n  compiler: "@ + text_or_na(i.compiler)
        + "\n  interpreter: "@ + text_or_na(i.interpreter) + "\n  modes: "@ + join(
        mode_names(i.fp_modes@),
        ", "@,
    ) + "\n"@
}

/// One workload, as `workload list` prints it: what could be measured, and
/// how it is sized.
pub fn workload_listing(w: &Workload) -> (r: String)
    ensures
        r@ == workload_listing_of(*w),
{
    let mut params: Vec<String> = Vec::new();
    let mut i: usize = 0;
    while i < w.params.len()
        invariant
            i <= w.params@.len(),
            views(params@) == assignments(w.params@.take(i as int)),
        decreases w.params.len() - i,
    {
        let mut a = w.params[i].name.clone();
        push_str(&mut a, "=");
        push_str(&mut a, w.params[i].value.to_text().as_str());
        proof {
            lemma_views_push(params@, a);
            assert(assignments(w.params@.take(i + 1)) =~= assignments(w.params@.take(i as int)).push(
                a@,
            ));
        }
        params.push(a);
        i += 1;
    }
    assert(w.params@.take(i as int) =~= w.params@);
    let mut r = w.id.clone();
    push_str(&mut r, "\n  ");
    push_str(&mut r, w.description.as_str());
    push_str(&mut r, "\n  implementations: ");
    push_u128(&mut r, w.implementations.len() as u128);
    push_str(&mut r, "\n  params: ");
    push_str(&mut r, join_strings(&params, " ").as_str());
    push_str(&mut r, "\n");
    assert(r@ =~= workload_listing_of(*w));
    r
}

/// One implementation, as `implementation list` prints it.
pub fn implementation_listing(i: &Implementation) -> (r: String)
    ensures
        r@ == implementation_listing_of(*i),
{
    let mut r = i.slug();
    push_str(&mut r, "\n  language: ");
    push_str(&mut r, i.language.as_str());
    push_str(&mut r, "\n  compiler: ");
    push_str(&mut r, crate::report::or_na(&i.compiler).as_str());
    push_str(&mut r, "\n  interpreter: ");
    push_str(&mut r, crate::report::or_na(&i.interpreter).as_str());
    push_str(&mut r, "\n  modes: ");
    push_str(&mut r, join_strings(&mode_strings(&i.fp_modes), ", ").as_str());
    push_str(&mut r, "\n");
    assert(r@ =~= implementation_listing_of(*i));
    r
}

} // verus!
