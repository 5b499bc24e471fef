//! Thread records that dangle.

use crate::findings::{report, Anomaly, AnomalyKind, KindModel};
use std::collections::HashSet;
use vstd::prelude::*;

verus! {

broadcast use {vstd::slice::axiom_spec_len, vstd::std_specs::hash::group_hash_axioms};

/// A finding for each thread whose CNID no file or folder record has.
pub open spec fn thread_findings(threads: Seq<(u32, u32, Seq<char>)>, recorded: Set<u32>) -> Seq<
    KindModel,
>
    decreases threads.len(),
{
    if threads.len() == 0 {
        Seq::empty()
    } else {
        let (cnid, parent, name) = threads[0];
        crate::findings::finding_if(
            !recorded.contains(cnid),
            KindModel::DeletedButReferenced { cnid, parent, name },
        ) + thread_findings(threads.drop_first(), recorded)
    }
}

/// Reports each thread whose CNID is not among `cnids`.
pub fn audit_threads(
    threads: &Vec<(u32, u32, String)>,
    cnids: &HashSet<u32>,
    out: &mut Vec<Anomaly>,
)
    ensures
        crate::findings::appended(old(out)@, final(out)@),
        crate::findings::kind_models(final(out)@) == crate::findings::kind_models(old(out)@)
            + thread_findings(crate::audit::records::thread_models(threads@), cnids@),
{
    let ghost models = crate::audit::records::thread_models(threads@);
    let mut i: usize = 0;
    assert(models.skip(0) =~= models);
    while i < threads.len()
        invariant
            i <= threads@.len(),
            models == crate::audit::records::thread_models(threads@),
            crate::findings::appended(old(out)@, out@),
            crate::findings::kind_models(out@) + thread_findings(models.skip(i as int), cnids@)
                =~= crate::findings::kind_models(old(out)@) + thread_findings(models, cnids@),
        decreases threads@.len() - i,
    {
        let thread = &threads[i];
        proof {
            assert(models.skip(i as int)[0] == (thread.0, thread.1, thread.2@));
            assert(models.skip(i as int).drop_first() =~= models.skip(i + 1));
        }
        if !cnids.contains(&thread.0) {
            report(
                out,
                AnomalyKind::DeletedButReferenced {
                    cnid: thread.0,
                    parent: thread.1,
                    name: thread.2.clone(),
                },
            );
        }
        i = i + 1;
    }
}

} // verus!
