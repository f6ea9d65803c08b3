//! Order-independence of the fan-in.
//!
//! Merging per-language tallies is commutative and associative, so the
//! final per-language totals do not depend on how the counted files
//! were split among workers, on scheduling, or on arrival order.

use vstd::prelude::*;

use crate::lang::Language;
use crate::tally::{
    lemma_merge_bump, lemma_merge_maps_empty, merge_maps, merge_seq_maps, obs_tally,
};

verus! {

/// Merging two tallies is commutative.
pub proof fn lemma_merge_maps_comm(a: Map<Language, (nat, nat)>, b: Map<Language, (nat, nat)>)
    ensures
        merge_maps(a, b) == merge_maps(b, a),
{
    assert(merge_maps(a, b) =~= merge_maps(b, a));
}

/// Merging tallies is associative.
pub proof fn lemma_merge_maps_assoc(
    a: Map<Language, (nat, nat)>,
    b: Map<Language, (nat, nat)>,
    c: Map<Language, (nat, nat)>,
)
    ensures
        merge_maps(merge_maps(a, b), c) == merge_maps(a, merge_maps(b, c)),
{
    assert(merge_maps(merge_maps(a, b), c) =~= merge_maps(a, merge_maps(b, c)));
}

/// Two workers that count the two halves of a run tally, merged, what
/// one worker tallies in a single pass over the whole.
pub proof fn lemma_obs_tally_concat(s: Seq<(Language, u64)>, t: Seq<(Language, u64)>)
    ensures
        obs_tally(s + t) == merge_maps(obs_tally(s), obs_tally(t)),
    decreases t.len(),
{
    if t.len() == 0 {
        assert(s + t =~= s);
        lemma_merge_maps_empty(obs_tally(s));
    } else {
        lemma_obs_tally_concat(s, t.drop_last());
        assert((s + t).drop_last() =~= s + t.drop_last());
        assert((s + t).last() == t.last());
        lemma_merge_bump(obs_tally(s), obs_tally(t.drop_last()), t.last().0, 1, t.last().1 as nat);
    }
}

/// However a run of counted files is split into parts, one part per
/// worker, merging the workers' tallies yields the tally of a single
/// pass over the whole run: the partition does not matter.
pub proof fn lemma_partition_independent(parts: Seq<Seq<(Language, u64)>>)
    ensures
        obs_tally(parts.flatten()) == merge_seq_maps(
            parts.map_values(|p: Seq<(Language, u64)>| obs_tally(p)),
        ),
    decreases parts.len(),
{
    parts.lemma_flatten_and_flatten_alt_are_equivalent();
    if parts.len() == 0 {
    } else {
        lemma_partition_independent(parts.drop_last());
        parts.drop_last().lemma_flatten_and_flatten_alt_are_equivalent();
        lemma_obs_tally_concat(parts.drop_last().flatten_alt(), parts.last());
        let vs = parts.map_values(|p: Seq<(Language, u64)>| obs_tally(p));
        assert(vs.drop_last() =~= parts.drop_last().map_values(
            |p: Seq<(Language, u64)>| obs_tally(p),
        ));
        assert(vs.last() == obs_tally(parts.last()));
        assert(merge_seq_maps(vs) == merge_maps(merge_seq_maps(vs.drop_last()), vs.last()));
    }
}

} // verus!
