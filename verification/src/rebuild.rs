//! The incremental-rebuild rule of a build step: a step rebuilds only the
//! inputs whose recorded hash is missing or stale, performs nothing when
//! every input is unchanged, and records the hashes of what it rebuilt.
use vstd::prelude::*;

verus! {

/// What a step does on a run.
#[derive(Debug)]
pub enum ConductPlan {
    /// Every input is unchanged: the outputs are only tagged.
    TagOnly,
    /// The inputs at these positions are rebuilt, then the outputs tagged.
    Rebuild(Vec<usize>),
}

/// The positions of the inputs that are not ready, in order.
pub open spec fn not_ready_positions(ready: Seq<bool>) -> Seq<usize>
    decreases ready.len(),
{
    if ready.len() == 0 {
        Seq::empty()
    } else {
        let before = not_ready_positions(ready.drop_last());
        if ready.last() {
            before
        } else {
            before.push((ready.len() - 1) as usize)
        }
    }
}

/// A position is listed exactly when its input is not ready.
pub proof fn lemma_not_ready_positions(ready: Seq<bool>)
    requires
        ready.len() <= usize::MAX + 1,
    ensures
        forall|i: int|
            0 <= i < ready.len() ==> (not_ready_positions(ready).contains(i as usize) <==> !ready[i]),
        forall|k: int|
            0 <= k < not_ready_positions(ready).len() ==> #[trigger] not_ready_positions(ready)[k]
                < ready.len(),
        not_ready_positions(ready).len() == 0 <==> forall|i: int| 0 <= i < ready.len() ==> ready[i],
        forall|a: int, b: int|
            0 <= a < b < not_ready_positions(ready).len() ==> #[trigger] not_ready_positions(ready)[a]
                < #[trigger] not_ready_positions(ready)[b],
    decreases ready.len(),
{
    if ready.len() > 0 {
        let d = ready.drop_last();
        lemma_not_ready_positions(d);
        let before = not_ready_positions(d);
        let last = (ready.len() - 1) as int;
        assert forall|i: int|
            0 <= i < ready.len() implies (not_ready_positions(ready).contains(i as usize)
            <==> !ready[i]) by {
            if i < last {
                assert(ready[i] == d[i]);
                if !ready.last() {
                    if not_ready_positions(ready).contains(i as usize) {
                        let k = choose|k: int|
                            0 <= k < not_ready_positions(ready).len()
                                && not_ready_positions(ready)[k] == i as usize;
                        if k < before.len() {
                            assert(before[k] == i as usize);
                        }
                    }
                    if before.contains(i as usize) {
                        let k = choose|k: int| 0 <= k < before.len() && before[k] == i as usize;
                        assert(not_ready_positions(ready)[k] == i as usize);
                    }
                }
            } else {
                if !ready.last() {
                    assert(not_ready_positions(ready)[before.len() as int] == last as usize);
                } else {
                    assert(!before.contains(last as usize)) by {
                        if before.contains(last as usize) {
                            let k = choose|k: int| 0 <= k < before.len() && before[k] == last as usize;
                            assert(before[k] < d.len());
                        }
                    }
                }
            }
        }
        if forall|i: int| 0 <= i < ready.len() ==> ready[i] {
            assert(ready[last]);
            assert forall|i: int| 0 <= i < d.len() implies d[i] by {
                assert(ready[i]);
            }
        }
        if not_ready_positions(ready).len() == 0 {
            assert forall|i: int| 0 <= i < ready.len() implies ready[i] by {
                if !ready[i] {
                    assert(!not_ready_positions(ready).contains(i as usize));
                }
            }
        }
    }
}

/// The plan of a run from whether each input is ready (its hash recorded
/// and current): only tagging when every input is ready, otherwise a
/// rebuild of exactly the inputs that are not, in order.
pub fn plan_conduct(ready: &Vec<bool>) -> (r: ConductPlan)
    ensures
        r is TagOnly <==> forall|i: int| 0 <= i < ready@.len() ==> ready@[i],
        r matches ConductPlan::Rebuild(v) ==> v@ == not_ready_positions(ready@) && v@.len() > 0,
        r matches ConductPlan::Rebuild(v) ==> (forall|i: int|
            0 <= i < ready@.len() ==> (v@.contains(i as usize) <==> !ready@[i])) && (forall|k: int|
            0 <= k < v@.len() ==> #[trigger] v@[k] < ready@.len()) && (forall|a: int, b: int|
            0 <= a < b < v@.len() ==> v@[a] < v@[b]),
{
    let mut v: Vec<usize> = Vec::new();
    let mut i: usize = 0;
    while i < ready.len()
        invariant
            i <= ready@.len(),
            v@ == not_ready_positions(ready@.take(i as int)),
        decreases ready@.len() - i,
    {
        assert(ready@.take(i + 1).drop_last() =~= ready@.take(i as int));
        if !ready[i] {
            v.push(i);
        }
        i = i + 1;
    }
    assert(ready@.take(ready@.len() as int) =~= ready@);
    proof {
        lemma_not_ready_positions(ready@);
    }
    if v.len() == 0 {
        ConductPlan::TagOnly
    } else {
        ConductPlan::Rebuild(v)
    }
}

/// The inputs whose hashes are recorded after a run: those rebuilt, when
/// the rebuild was performed; none otherwise.
pub fn hashes_to_record(plan: &ConductPlan, performed: bool) -> (r: Vec<usize>)
    ensures
        r@ == match plan {
            ConductPlan::Rebuild(v) => if performed {
                v@
            } else {
                Seq::empty()
            },
            ConductPlan::TagOnly => Seq::empty(),
        },
{
    match plan {
        ConductPlan::Rebuild(v) => if performed {
            v.clone()
        } else {
            Vec::new()
        },
        ConductPlan::TagOnly => Vec::new(),
    }
}

/// Whether each input is ready: a hash is recorded and it is the current
/// one.
pub open spec fn ready_of(recorded: Seq<Option<Seq<char>>>, current: Seq<Seq<char>>) -> Seq<bool> {
    Seq::new(recorded.len(), |i: int| recorded[i] == Some(current[i]))
}

/// The recorded hashes after the current ones were recorded at `positions`.
pub open spec fn recorded_after(
    recorded: Seq<Option<Seq<char>>>,
    current: Seq<Seq<char>>,
    positions: Seq<usize>,
) -> Seq<Option<Seq<char>>> {
    Seq::new(
        recorded.len(),
        |i: int|
            if positions.contains(i as usize) {
                Some(current[i])
            } else {
                recorded[i]
            },
    )
}

/// After a performed rebuild records the hashes of what it rebuilt, a
/// second run on unchanged inputs finds every input ready and rebuilds
/// nothing.
pub proof fn law_second_run_rebuilds_nothing(
    recorded: Seq<Option<Seq<char>>>,
    current: Seq<Seq<char>>,
)
    requires
        recorded.len() == current.len(),
        recorded.len() <= usize::MAX,
    ensures
        ({
            let rebuilt = not_ready_positions(ready_of(recorded, current));
            not_ready_positions(ready_of(recorded_after(recorded, current, rebuilt), current)).len()
                == 0
        }),
{
    let ready = ready_of(recorded, current);
    let rebuilt = not_ready_positions(ready);
    let after = ready_of(recorded_after(recorded, current, rebuilt), current);
    lemma_not_ready_positions(ready);
    lemma_not_ready_positions(after);
    assert forall|i: int| 0 <= i < after.len() implies after[i] by {
        if !rebuilt.contains(i as usize) {
            assert(ready[i]);
        }
    }
}

} // verus!
