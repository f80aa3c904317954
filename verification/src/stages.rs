//! The ring of stages as a table: for every stage the stage it chases.

use vstd::prelude::*;
use crate::config::ring_prev;

verus! {

/// For each of `stages` stages, in order, the number of the stage it
/// chases.
pub fn ring_chases(stages: usize) -> (chases: Vec<usize>)
    ensures
        chases.len() == stages,
        forall|i: int| 0 <= i < stages ==> chases[i] == ring_prev(i as nat, stages as nat),
        forall|i: int| 0 <= i < stages ==> chases[i] < stages,
{
    let mut chases: Vec<usize> = Vec::new();
    let mut stage: usize = 0;
    while stage < stages
        invariant
            stage <= stages,
            chases.len() == stage,
            forall|i: int| 0 <= i < stage ==> chases[i] == ring_prev(i as nat, stages as nat),
            forall|i: int| 0 <= i < stage ==> chases[i] < stages,
        decreases stages - stage,
    {
        proof {
            crate::lap::lemma_ring_prev(stage as nat, stages as nat);
        }
        chases.push(
            if stage == 0 {
                stages - 1
            } else {
                stage - 1
            },
        );
        stage = stage + 1;
    }
    chases
}

/// For each stage what `values` holds for the stage it chases:
/// `values` read in the order of `chases`.
pub fn get_chases<T: Clone>(chases: &Vec<usize>, values: &Vec<T>) -> (picked: Vec<T>)
    requires
        forall|i: int| 0 <= i < chases.len() ==> chases[i] < values.len(),
    ensures
        picked.len() == chases.len(),
        forall|i: int| 0 <= i < chases.len() ==> cloned(values[chases[i] as int], picked[i]),
{
    let mut picked: Vec<T> = Vec::new();
    let mut i: usize = 0;
    while i < chases.len()
        invariant
            i <= chases.len(),
            picked.len() == i,
            forall|j: int| 0 <= j < chases.len() ==> chases[j] < values.len(),
            forall|j: int| 0 <= j < i ==> cloned(values[chases[j] as int], picked[j]),
        decreases chases.len() - i,
    {
        picked.push(values[chases[i]].clone());
        i = i + 1;
    }
    picked
}

} // verus!
