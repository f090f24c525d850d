//! Availability bitfields: which of them go into a block, and what they say of a core.

use std::collections::BTreeMap;

use vstd::prelude::*;
use vstd::std_specs::cmp::OrdSpec;
use vstd::std_specs::iter::IteratorSpec;

use crate::bits::{
    law_ones_counts_the_set_bits, lemma_ones_at_most_len, lemma_ones_monotone, ones, Bitfield,
};
use crate::primitives::{bitfield_views, CoreState, SignedAvailabilityBitfield, SignedBitfieldView};

verus! {

/// Whether a bitfield may go into a block: it has one bit per core, and each bit that is set
/// belongs to an occupied core.
pub open spec fn admissible(cores: Seq<CoreState>, bitfield: SignedBitfieldView) -> bool {
    &&& bitfield.bits.len() == cores.len()
    &&& forall|core: int|
        #![trigger bitfield.bits[core]]
        0 <= core < cores.len() && bitfield.bits[core] ==> cores[core] is Occupied
}

/// Whether the bitfield at position `i` is to be preferred to the one at position `j`: it has more
/// bits set, or as many and came no later.
pub open spec fn outranks(bitfields: Seq<SignedBitfieldView>, i: int, j: int) -> bool {
    ||| ones(bitfields[j].bits) < ones(bitfields[i].bits)
    ||| ones(bitfields[j].bits) == ones(bitfields[i].bits) && i <= j
}

/// Whether the bitfield at position `i` is the one that goes into a block for its validator: it may,
/// and it outranks each that may and that the same validator signed.
pub open spec fn preferred(
    cores: Seq<CoreState>,
    bitfields: Seq<SignedBitfieldView>,
    i: int,
) -> bool {
    &&& 0 <= i < bitfields.len()
    &&& admissible(cores, bitfields[i])
    &&& forall|j: int|
        0 <= j < bitfields.len() && #[trigger] admissible(cores, bitfields[j])
            && bitfields[j].validator_index == bitfields[i].validator_index ==> outranks(
            bitfields,
            i,
            j,
        )
}

/// Whether `bitfield` is one of those that are preferred.
pub open spec fn among_preferred(
    cores: Seq<CoreState>,
    bitfields: Seq<SignedBitfieldView>,
    bitfield: SignedBitfieldView,
) -> bool {
    exists|i: int| #[trigger] preferred(cores, bitfields, i) && bitfields[i] == bitfield
}

/// Whether `selected` are the bitfields that go into a block: those that are preferred, in ascending
/// order of the validators.
pub open spec fn is_selection(
    cores: Seq<CoreState>,
    bitfields: Seq<SignedBitfieldView>,
    selected: Seq<SignedBitfieldView>,
) -> bool {
    &&& forall|a: int, b: int|
        0 <= a < b < selected.len() ==> selected[a].validator_index.0
            < selected[b].validator_index.0
    &&& forall|a: int|
        0 <= a < selected.len() ==> among_preferred(cores, bitfields, #[trigger] selected[a])
    &&& forall|i: int| #[trigger]
        preferred(cores, bitfields, i) ==> selected.contains(bitfields[i])
}

/// The bitfields that go into a block.
pub open spec fn selected_bitfields(
    cores: Seq<CoreState>,
    bitfields: Seq<SignedBitfieldView>,
) -> Seq<SignedBitfieldView> {
    choose|selected: Seq<SignedBitfieldView>| is_selection(cores, bitfields, selected)
}

/// The entries of `map` in ascending order of their keys.
fn in_key_order(map: &BTreeMap<u32, usize>) -> (order: Vec<(u32, usize)>)
    ensures
        forall|a: int, b: int| 0 <= a < b < order@.len() ==> order@[a].0 < order@[b].0,
        forall|a: int| 0 <= a < order@.len() ==> map@.contains_pair(#[trigger] order@[a].0, order@[a].1),
        forall|k: u32| map@.contains_key(k) ==> order@.contains((k, #[trigger] map@[k])),
{
    broadcast use vstd::laws_cmp::group_laws_cmp;

    assert(vstd::laws_cmp::obeys_cmp::<u32>());
    let mut order: Vec<(u32, usize)> = Vec::new();
    let iter = map.iter();
    let ghost all = iter.remaining();
    let ghost keys = all.map_values(|entry: (&u32, &usize)| *entry.0);
    assert(vstd::std_specs::btree::increasing_seq(keys));
    for entry in it: iter
        invariant
            it.seq() == all,
            order@.len() == it.index(),
            forall|a: int| 0 <= a < order@.len() ==> order@[a] == (*all[a].0, *all[a].1),
    {
        order.push((*entry.0, *entry.1));
    }
    proof {
        assert forall|a: int, b: int| 0 <= a < b < order@.len() implies order@[a].0 < order@[b].0 by {
            assert(keys[a].cmp_spec(&keys[b]) is Less);
        }
        assert forall|k: u32| map@.contains_key(k) implies order@.contains(
            (k, #[trigger] map@[k]),
        ) by {
            assert(all.contains((&k, &map@[k])));
            let a = choose|a: int| 0 <= a < all.len() && all[a] == (&k, &map@[k]);
            assert(order@[a] == (k, map@[k]));
        }
    }
    order
}

/// Whether `best` has, for each validator that signed one of the first `n` bitfields that may go into
/// a block, the position of the one that outranks the others.
spec fn best_so_far(
    cores: Seq<CoreState>,
    bitfields: Seq<SignedBitfieldView>,
    n: int,
    best: Map<u32, usize>,
) -> bool {
    &&& forall|v: u32|
        #![trigger best[v]]
        best.contains_key(v) ==> {
            &&& best[v] < n
            &&& admissible(cores, bitfields[best[v] as int])
            &&& bitfields[best[v] as int].validator_index.0 == v
        }
    &&& forall|j: int|
        0 <= j < n && #[trigger] admissible(cores, bitfields[j]) ==> {
            let v = bitfields[j].validator_index.0;
            best.contains_key(v) && outranks(bitfields, best[v] as int, j)
        }
}

/// Once all bitfields have been looked at, what is best for a validator is what is preferred.
proof fn lemma_best_is_preferred(
    cores: Seq<CoreState>,
    bitfields: Seq<SignedBitfieldView>,
    best: Map<u32, usize>,
)
    requires
        best_so_far(cores, bitfields, bitfields.len() as int, best),
    ensures
        forall|v: u32| #[trigger]
            best.contains_key(v) ==> preferred(cores, bitfields, best[v] as int),
        forall|i: int| #[trigger]
            preferred(cores, bitfields, i) ==> best.contains_pair(
                bitfields[i].validator_index.0,
                i as usize,
            ) && i as usize == i,
{
    assert forall|v: u32| #[trigger] best.contains_key(v) implies preferred(
        cores,
        bitfields,
        best[v] as int,
    ) by {
        assert(best[v] < bitfields.len());
    }
    assert forall|i: int| #[trigger] preferred(cores, bitfields, i) implies best.contains_pair(
        bitfields[i].validator_index.0,
        i as usize,
    ) && i as usize == i by {
        let v = bitfields[i].validator_index.0;
        assert(best.contains_key(v) && outranks(bitfields, best[v] as int, i));
        assert(admissible(cores, bitfields[best[v] as int]));
        assert(outranks(bitfields, i, best[v] as int));
    }
}

/// Whether each bit of `bitfield` that is set belongs to an occupied core.
fn only_occupied_cores(cores: &[CoreState], bitfield: &Bitfield) -> (only: bool)
    requires
        bitfield@.len() == cores@.len(),
    ensures
        only == (forall|core: int|
            #![trigger bitfield@[core]]
            0 <= core < cores@.len() && bitfield@[core] ==> cores@[core] is Occupied),
{
    let mut core: usize = 0;
    while core < cores.len()
        invariant
            core <= cores@.len(),
            bitfield@.len() == cores@.len(),
            forall|c: int|
                #![trigger bitfield@[c]]
                0 <= c < core && bitfield@[c] ==> cores@[c] is Occupied,
        decreases cores@.len() - core,
    {
        if !cores[core].is_occupied() {
            if let Some(bit) = bitfield.get(core) {
                if bit {
                    assert(bitfield@[core as int]);
                    return false;
                }
            }
        }
        core = core + 1;
    }
    true
}

/// Picks the bitfields that go into a block.
///
/// In general, all bitfields are wanted. However, these constraints hold:
///
/// - not more than one per validator
/// - each 1 bit must correspond to an occupied core
///
/// If a validator signed several, the one with the greatest number of 1 bits is picked, to maximize
/// availability; among equals, the one that came first. The bitfields come out in ascending order of
/// their validators, whatever the order in which they came in.
pub fn select_availability_bitfields(
    cores: &[CoreState],
    bitfields: &[SignedAvailabilityBitfield],
) -> (selected: Vec<SignedAvailabilityBitfield>)
    ensures
        is_selection(cores@, bitfield_views(bitfields@), bitfield_views(selected@)),
        bitfield_views(selected@) == selected_bitfields(cores@, bitfield_views(bitfields@)),
{
    let ghost views = bitfield_views(bitfields@);
    let mut best: BTreeMap<u32, usize> = BTreeMap::new();

    let mut n: usize = 0;
    while n < bitfields.len()
        invariant
            n <= bitfields@.len(),
            views == bitfield_views(bitfields@),
            best_so_far(cores@, views, n as int, best@),
        decreases bitfields@.len() - n,
    {
        let bitfield = &bitfields[n];
        let validator: u32 = bitfield.validator_index.0;
        assert(views[n as int] == bitfield@);
        if bitfield.payload.len() == cores.len() {
            let is_better = match best.get(&validator) {
                None => true,
                Some(held) => {
                    assert(views[*held as int] == bitfields@[*held as int]@);
                    bitfields[*held].payload.count_ones() < bitfield.payload.count_ones()
                },
            };
            if is_better && only_occupied_cores(cores, &bitfield.payload) {
                best.insert(validator, n);
            }
        }
        n = n + 1;
    }

    let order = in_key_order(&best);
    proof {
        lemma_best_is_preferred(cores@, views, best@);
        assert forall|b: int| 0 <= b < order@.len() implies preferred(
            cores@,
            views,
            (#[trigger] order@[b]).1 as int,
        ) && views[order@[b].1 as int].validator_index.0 == order@[b].0 by {
            assert(best@.contains_key(order@[b].0) && best@[order@[b].0] == order@[b].1);
        }
    }
    let mut selected: Vec<SignedAvailabilityBitfield> = Vec::with_capacity(order.len());
    let mut a: usize = 0;
    while a < order.len()
        invariant
            a <= order@.len(),
            selected@.len() == a,
            forall|b: int| 0 <= b < order@.len() ==> (#[trigger] order@[b]).1 < bitfields@.len(),
            forall|b: int| 0 <= b < a ==> (#[trigger] selected@[b])@ == bitfields@[order@[b].1 as int]@,
        decreases order@.len() - a,
    {
        selected.push(bitfields[order[a].1].clone());
        a = a + 1;
    }
    proof {
        let chosen = bitfield_views(selected@);
        assert forall|b: int| 0 <= b < chosen.len() implies among_preferred(
            cores@,
            views,
            #[trigger] chosen[b],
        ) by {
            assert(preferred(cores@, views, order@[b].1 as int));
            assert(chosen[b] == selected@[b]@);
        }
        assert forall|i: int| #[trigger] preferred(cores@, views, i) implies chosen.contains(
            views[i],
        ) by {
            let v = views[i].validator_index.0;
            assert(order@.contains((v, best@[v])));
            let b = choose|b: int| 0 <= b < order@.len() && order@[b] == (v, best@[v]);
            assert(chosen[b] == selected@[b]@);
        }
        assert forall|b: int, c: int| 0 <= b < c < chosen.len() implies chosen[b].validator_index.0
            < chosen[c].validator_index.0 by {
            assert(chosen[b] == selected@[b]@ && chosen[c] == selected@[c]@);
            assert(order@[b].0 < order@[c].0);
        }
        assert(is_selection(cores@, views, chosen));
        law_selection_is_determined(cores@, views, chosen, selected_bitfields(cores@, views));
    }
    selected
}

/// Whether validator `validator` is known to hold its part of the candidate on core `core_idx`: it
/// was known before, or one of its bitfields says so.
pub open spec fn holds_part(
    core_idx: int,
    bitfields: Seq<SignedBitfieldView>,
    availability: Seq<bool>,
    validator: int,
) -> bool {
    ||| availability[validator]
    ||| exists|i: int|
        #![trigger bitfields[i]]
        0 <= i < bitfields.len() && bitfields[i].validator_index.0 == validator
            && bitfields[i].bits[core_idx]
}

/// The availability record of core `core_idx` with what the bitfields say of the core added to it.
pub open spec fn merged_availability(
    core_idx: int,
    bitfields: Seq<SignedBitfieldView>,
    availability: Seq<bool>,
) -> Seq<bool> {
    Seq::new(
        availability.len(),
        |validator: int| holds_part(core_idx, bitfields, availability, validator),
    )
}

/// Whether the first `n` bitfields are all signed by validators of which there are `validators`.
pub open spec fn validators_known(
    bitfields: Seq<SignedBitfieldView>,
    n: int,
    validators: nat,
) -> bool {
    forall|i: int| 0 <= i < n ==> (#[trigger] bitfields[i]).validator_index.0 < validators
}

/// Whether the bitfields, added to the availability record of core `core_idx`, show that two thirds
/// of the validators hold their part of the candidate on the core. They show nothing if one of them
/// is signed by an unknown validator.
pub open spec fn indicate_availability(
    core_idx: int,
    bitfields: Seq<SignedBitfieldView>,
    availability: Seq<bool>,
) -> bool {
    &&& validators_known(bitfields, bitfields.len() as int, availability.len())
    &&& 3 * ones(merged_availability(core_idx, bitfields, availability)) >= 2 * availability.len()
}

/// Whether each bitfield has a bit for core `core_idx`, up to the first that is signed by an unknown
/// validator.
pub open spec fn bits_present(
    core_idx: int,
    bitfields: Seq<SignedBitfieldView>,
    validators: nat,
) -> bool {
    forall|i: int|
        0 <= i < bitfields.len() && validators_known(bitfields, i + 1, validators) ==> core_idx
            < (#[trigger] bitfields[i]).bits.len()
}

/// The availability bitfield for a given core is the transpose
/// of a set of signed availability bitfields. It goes like this:
///
/// - construct a transverse slice along `core_idx`
/// - bitwise-or it with the availability slice
/// - count the 1 bits, compare to the total length; true on 2/3+
///
/// A bitfield that is signed by a validator for which `availability` has no bit makes the answer
/// false.
pub fn bitfields_indicate_availability(
    core_idx: usize,
    bitfields: &[SignedAvailabilityBitfield],
    availability: &Bitfield,
) -> (available: bool)
    requires
        bits_present(core_idx as int, bitfield_views(bitfields@), availability@.len()),
    ensures
        available == indicate_availability(
            core_idx as int,
            bitfield_views(bitfields@),
            availability@,
        ),
{
    let ghost views = bitfield_views(bitfields@);
    let mut merged = availability.clone();
    let len: usize = merged.len();

    let mut n: usize = 0;
    while n < bitfields.len()
        invariant
            n <= bitfields@.len(),
            views == bitfield_views(bitfields@),
            len == availability@.len(),
            bits_present(core_idx as int, views, availability@.len()),
            validators_known(views, n as int, availability@.len()),
            merged@.len() == availability@.len(),
            forall|v: int|
                0 <= v < availability@.len() ==> merged@[v] == #[trigger] holds_part(
                    core_idx as int,
                    views.take(n as int),
                    availability@,
                    v,
                ),
        decreases bitfields@.len() - n,
    {
        let bitfield = &bitfields[n];
        assert(views[n as int] == bitfield@);
        let validator_idx: usize = bitfield.validator_index.0 as usize;
        match merged.get(validator_idx) {
            None => {
                return false;
            },
            Some(known) => {
                let told = match bitfield.payload.get(core_idx) {
                    Some(bit) => bit,
                    None => false,
                };
                let ghost before = merged@;
                merged.set(validator_idx, known || told);
                proof {
                    let seen = views.take(n as int);
                    let next = views.take(n + 1);
                    assert forall|v: int| 0 <= v < availability@.len() implies merged@[v]
                        == #[trigger] holds_part(core_idx as int, next, availability@, v) by {
                        assert(before[v] == holds_part(core_idx as int, seen, availability@, v));
                        assert(next[n as int] == views[n as int]);
                        assert(forall|i: int| 0 <= i < n ==> seen[i] == #[trigger] next[i]);
                        assert(forall|i: int| 0 <= i < n ==> #[trigger] seen[i] == next[i]);
                    }
                }
            },
        }
        n = n + 1;
    }
    proof {
        assert(views.take(n as int) =~= views);
        assert(merged@ =~= merged_availability(core_idx as int, views, availability@));
        lemma_ones_at_most_len(merged@);
    }
    3 * merged.count_ones() >= 2 * len
}

/// Not more than one bitfield is picked per validator.
pub proof fn law_one_bitfield_per_validator(
    cores: Seq<CoreState>,
    bitfields: Seq<SignedBitfieldView>,
    selected: Seq<SignedBitfieldView>,
    a: int,
    b: int,
)
    requires
        is_selection(cores, bitfields, selected),
        0 <= a < selected.len(),
        0 <= b < selected.len(),
        selected[a].validator_index == selected[b].validator_index,
    ensures
        a == b,
{
}

/// Each bit that is set in a picked bitfield belongs to an occupied core, and the bitfield is one of
/// those that were handed in.
pub proof fn law_picked_bits_belong_to_occupied_cores(
    cores: Seq<CoreState>,
    bitfields: Seq<SignedBitfieldView>,
    selected: Seq<SignedBitfieldView>,
    a: int,
)
    requires
        is_selection(cores, bitfields, selected),
        0 <= a < selected.len(),
    ensures
        bitfields.contains(selected[a]),
        selected[a].bits.len() == cores.len(),
        forall|core: int|
            #![trigger selected[a].bits[core]]
            0 <= core < cores.len() && selected[a].bits[core] ==> cores[core] is Occupied,
{
    assert(among_preferred(cores, bitfields, selected[a]));
    let i = choose|i: int| #[trigger]
        preferred(cores, bitfields, i) && bitfields[i] == selected[a];
    assert(admissible(cores, bitfields[i]));
}

/// Among the first `n` bitfields of one validator that may go into a block, one outranks the others.
proof fn lemma_best_exists(
    cores: Seq<CoreState>,
    bitfields: Seq<SignedBitfieldView>,
    n: int,
    j: int,
) -> (i: int)
    requires
        0 <= j < n <= bitfields.len(),
        admissible(cores, bitfields[j]),
    ensures
        0 <= i < n,
        admissible(cores, bitfields[i]),
        bitfields[i].validator_index == bitfields[j].validator_index,
        forall|k: int|
            0 <= k < n && #[trigger] admissible(cores, bitfields[k])
                && bitfields[k].validator_index == bitfields[j].validator_index ==> outranks(
                bitfields,
                i,
                k,
            ),
    decreases n,
{
    let last = n - 1;
    let rival = admissible(cores, bitfields[last]) && bitfields[last].validator_index
        == bitfields[j].validator_index;
    if j < last {
        let best = lemma_best_exists(cores, bitfields, last, j);
        if rival && !outranks(bitfields, best, last) {
            last
        } else {
            best
        }
    } else if exists|k: int|
        0 <= k < last && #[trigger] admissible(cores, bitfields[k]) && bitfields[k].validator_index
            == bitfields[j].validator_index {
        let k = choose|k: int|
            0 <= k < last && #[trigger] admissible(cores, bitfields[k])
                && bitfields[k].validator_index == bitfields[j].validator_index;
        let best = lemma_best_exists(cores, bitfields, last, k);
        if outranks(bitfields, best, last) {
            best
        } else {
            last
        }
    } else {
        last
    }
}

/// Availability is maximized: for each bitfield with one bit per core whose set bits all belong to
/// occupied cores, one of the same validator is picked that has at least as many bits set.
pub proof fn law_picked_bitfields_maximize_availability(
    cores: Seq<CoreState>,
    bitfields: Seq<SignedBitfieldView>,
    selected: Seq<SignedBitfieldView>,
    j: int,
)
    requires
        is_selection(cores, bitfields, selected),
        0 <= j < bitfields.len(),
        bitfields[j].bits.len() == cores.len(),
        forall|core: int|
            #![trigger bitfields[j].bits[core]]
            0 <= core < cores.len() && bitfields[j].bits[core] ==> cores[core] is Occupied,
    ensures
        exists|a: int|
            #![trigger selected[a]]
            0 <= a < selected.len() && selected[a].validator_index == bitfields[j].validator_index
                && ones(selected[a].bits) >= ones(bitfields[j].bits),
{
    assert(admissible(cores, bitfields[j]));
    let i = lemma_best_exists(cores, bitfields, bitfields.len() as int, j);
    assert(preferred(cores, bitfields, i));
    assert(selected.contains(bitfields[i]));
    let a = choose|a: int| 0 <= a < selected.len() && selected[a] == bitfields[i];
    assert(outranks(bitfields, i, j));
    assert(selected[a].validator_index == bitfields[j].validator_index);
}

/// All bitfields are wanted: one with one bit per core whose set bits all belong to occupied cores is
/// picked if its validator signed no other such bitfield.
pub proof fn law_sole_bitfield_is_picked(
    cores: Seq<CoreState>,
    bitfields: Seq<SignedBitfieldView>,
    selected: Seq<SignedBitfieldView>,
    j: int,
)
    requires
        is_selection(cores, bitfields, selected),
        0 <= j < bitfields.len(),
        bitfields[j].bits.len() == cores.len(),
        forall|core: int|
            #![trigger bitfields[j].bits[core]]
            0 <= core < cores.len() && bitfields[j].bits[core] ==> cores[core] is Occupied,
        forall|k: int|
            0 <= k < bitfields.len() && k != j && (#[trigger] bitfields[k]).validator_index
                == bitfields[j].validator_index ==> bitfields[k].bits.len() != cores.len() || exists|
                core: int,
            |
                #![trigger bitfields[k].bits[core]]
                0 <= core < cores.len() && bitfields[k].bits[core] && cores[core] !is Occupied,
    ensures
        selected.contains(bitfields[j]),
{
    assert(admissible(cores, bitfields[j]));
    assert(preferred(cores, bitfields, j));
}

/// The cores and the bitfields determine what is picked, and in which order it comes out.
pub proof fn law_selection_is_determined(
    cores: Seq<CoreState>,
    bitfields: Seq<SignedBitfieldView>,
    one: Seq<SignedBitfieldView>,
    other: Seq<SignedBitfieldView>,
)
    requires
        is_selection(cores, bitfields, one),
        is_selection(cores, bitfields, other),
    ensures
        one == other,
{
    assert forall|b: SignedBitfieldView| one.contains(b) implies other.contains(b) by {
        lemma_selection_contains(cores, bitfields, one, other, b);
    }
    assert forall|b: SignedBitfieldView| other.contains(b) implies one.contains(b) by {
        lemma_selection_contains(cores, bitfields, other, one, b);
    }
    lemma_ordered_equal(one, other);
}

/// The preferred bitfields of the validators below `v`, in ascending order of the validators.
spec fn preferred_below(
    cores: Seq<CoreState>,
    bitfields: Seq<SignedBitfieldView>,
    v: nat,
) -> Seq<SignedBitfieldView>
    decreases v,
{
    if v == 0 {
        Seq::empty()
    } else {
        let rest = preferred_below(cores, bitfields, (v - 1) as nat);
        if exists|i: int| #[trigger]
            preferred(cores, bitfields, i) && bitfields[i].validator_index.0 == v - 1 {
            rest.push(
                bitfields[choose|i: int| #[trigger]
                    preferred(cores, bitfields, i) && bitfields[i].validator_index.0 == v - 1],
            )
        } else {
            rest
        }
    }
}

/// The preferred bitfields of the validators below `v` are in order and complete.
proof fn lemma_preferred_below(
    cores: Seq<CoreState>,
    bitfields: Seq<SignedBitfieldView>,
    v: nat,
)
    ensures
        ({
            let some = preferred_below(cores, bitfields, v);
            &&& ordered(some)
            &&& forall|a: int|
                0 <= a < some.len() ==> (#[trigger] some[a]).validator_index.0 < v
                    && among_preferred(cores, bitfields, some[a])
            &&& forall|i: int| #[trigger]
                preferred(cores, bitfields, i) && bitfields[i].validator_index.0 < v
                    ==> some.contains(bitfields[i])
        }),
    decreases v,
{
    if v > 0 {
        lemma_preferred_below(cores, bitfields, (v - 1) as nat);
        let rest = preferred_below(cores, bitfields, (v - 1) as nat);
        let some = preferred_below(cores, bitfields, v);
        assert forall|i: int| #[trigger]
            preferred(cores, bitfields, i) && bitfields[i].validator_index.0
                < v implies some.contains(bitfields[i]) by {
            if bitfields[i].validator_index.0 == v - 1 {
                let k = choose|k: int| #[trigger]
                    preferred(cores, bitfields, k) && bitfields[k].validator_index.0 == v - 1;
                assert(admissible(cores, bitfields[i]) && admissible(cores, bitfields[k]));
                assert(outranks(bitfields, i, k) && outranks(bitfields, k, i));
                assert(some[rest.len() as int] == bitfields[i]);
            } else {
                assert(rest.contains(bitfields[i]));
                let a = choose|a: int| 0 <= a < rest.len() && rest[a] == bitfields[i];
                assert(some[a] == bitfields[i]);
            }
        }
    }
}

/// There are always bitfields that go into a block, if only none.
pub proof fn law_selection_exists(cores: Seq<CoreState>, bitfields: Seq<SignedBitfieldView>)
    ensures
        is_selection(cores, bitfields, selected_bitfields(cores, bitfields)),
{
    lemma_preferred_below(cores, bitfields, 0x1_0000_0000);
    assert(is_selection(cores, bitfields, preferred_below(cores, bitfields, 0x1_0000_0000)));
}

/// What one selection holds, each other holds.
proof fn lemma_selection_contains(
    cores: Seq<CoreState>,
    bitfields: Seq<SignedBitfieldView>,
    one: Seq<SignedBitfieldView>,
    other: Seq<SignedBitfieldView>,
    bitfield: SignedBitfieldView,
)
    requires
        is_selection(cores, bitfields, one),
        is_selection(cores, bitfields, other),
        one.contains(bitfield),
    ensures
        other.contains(bitfield),
{
    let a = choose|a: int| 0 <= a < one.len() && one[a] == bitfield;
    assert(among_preferred(cores, bitfields, one[a]));
}

/// Whether `bitfields` are in strictly ascending order of their validators.
spec fn ordered(bitfields: Seq<SignedBitfieldView>) -> bool {
    forall|a: int, b: int|
        0 <= a < b < bitfields.len() ==> bitfields[a].validator_index.0
            < bitfields[b].validator_index.0
}

/// Two sequences in order that hold the same bitfields are equal.
proof fn lemma_ordered_equal(one: Seq<SignedBitfieldView>, other: Seq<SignedBitfieldView>)
    requires
        ordered(one),
        ordered(other),
        forall|b: SignedBitfieldView| one.contains(b) <==> other.contains(b),
    ensures
        one == other,
    decreases one.len(),
{
    if one.len() == 0 {
        if other.len() > 0 {
            assert(other.contains(other[0]));
        }
        assert(one =~= other);
    } else {
        assert(one.contains(one.last()));
        let b = choose|b: int| 0 <= b < other.len() && other[b] == one.last();
        assert(other.contains(other.last()));
        let a = choose|a: int| 0 <= a < one.len() && one[a] == other.last();
        assert(one.last() == other.last());
        let one_rest = one.drop_last();
        let other_rest = other.drop_last();
        assert forall|v: SignedBitfieldView| one_rest.contains(v) <==> other_rest.contains(v) by {
            if one_rest.contains(v) {
                let k = choose|k: int| 0 <= k < one_rest.len() && one_rest[k] == v;
                assert(one[k] == v);
                assert(other.contains(v));
                let m = choose|m: int| 0 <= m < other.len() && other[m] == v;
                assert(other_rest[m] == v);
            }
            if other_rest.contains(v) {
                let k = choose|k: int| 0 <= k < other_rest.len() && other_rest[k] == v;
                assert(other[k] == v);
                assert(one.contains(v));
                let m = choose|m: int| 0 <= m < one.len() && one[m] == v;
                assert(one_rest[m] == v);
            }
        }
        lemma_ordered_equal(one_rest, other_rest);
        assert(one =~= one_rest.push(one.last()));
        assert(other =~= other_rest.push(other.last()));
    }
}

/// Picking from what has been picked changes nothing.
pub proof fn law_selecting_again_changes_nothing(
    cores: Seq<CoreState>,
    bitfields: Seq<SignedBitfieldView>,
    selected: Seq<SignedBitfieldView>,
)
    requires
        is_selection(cores, bitfields, selected),
    ensures
        is_selection(cores, selected, selected),
{
    assert forall|a: int| 0 <= a < selected.len() implies #[trigger] preferred(
        cores,
        selected,
        a,
    ) by {
        assert(among_preferred(cores, bitfields, selected[a]));
    }
    assert forall|a: int| 0 <= a < selected.len() implies among_preferred(
        cores,
        selected,
        #[trigger] selected[a],
    ) by {
        assert(preferred(cores, selected, a));
    }
}

/// Each picked bitfield has a bit for each core, so what the picked bitfields say of a core can
/// always be asked.
pub proof fn law_picked_bitfields_cover_each_core(
    cores: Seq<CoreState>,
    bitfields: Seq<SignedBitfieldView>,
    selected: Seq<SignedBitfieldView>,
    core_idx: int,
    validators: nat,
)
    requires
        is_selection(cores, bitfields, selected),
        0 <= core_idx < cores.len(),
    ensures
        bits_present(core_idx, selected, validators),
{
    assert forall|a: int|
        0 <= a < selected.len() && validators_known(selected, a + 1, validators) implies core_idx
        < (#[trigger] selected[a]).bits.len() by {
        law_picked_bits_belong_to_occupied_cores(cores, bitfields, selected, a);
    }
}

/// Further bitfields of known validators never make an available core unavailable.
pub proof fn law_more_bitfields_keep_availability(
    core_idx: int,
    fewer: Seq<SignedBitfieldView>,
    more: Seq<SignedBitfieldView>,
    availability: Seq<bool>,
)
    requires
        forall|bitfield: SignedBitfieldView| #[trigger]
            fewer.contains(bitfield) ==> more.contains(bitfield),
        validators_known(more, more.len() as int, availability.len()),
        indicate_availability(core_idx, fewer, availability),
    ensures
        indicate_availability(core_idx, more, availability),
{
    let before = merged_availability(core_idx, fewer, availability);
    let after = merged_availability(core_idx, more, availability);
    assert forall|v: int| 0 <= v < before.len() && before[v] implies after[v] by {
        if !availability[v] {
            assert(holds_part(core_idx, fewer, availability, v));
            let i = choose|i: int|
                #![trigger fewer[i]]
                0 <= i < fewer.len() && fewer[i].validator_index.0 == v && fewer[i].bits[core_idx];
            assert(fewer.contains(fewer[i]));
            assert(more.contains(fewer[i]));
            let k = choose|k: int| 0 <= k < more.len() && more[k] == fewer[i];
            assert(more[k].validator_index.0 == v);
            assert(holds_part(core_idx, more, availability, v));
        }
    }
    lemma_ones_monotone(before, after);
}

/// What the bitfields say of a core does not depend on their order.
pub proof fn law_order_of_bitfields_is_irrelevant(
    core_idx: int,
    one: Seq<SignedBitfieldView>,
    other: Seq<SignedBitfieldView>,
    availability: Seq<bool>,
)
    requires
        forall|bitfield: SignedBitfieldView| #[trigger]
            one.contains(bitfield) <==> #[trigger] other.contains(bitfield),
    ensures
        indicate_availability(core_idx, one, availability) == indicate_availability(
            core_idx,
            other,
            availability,
        ),
{
    assert forall|i: int| 0 <= i < one.len() implies other.contains(#[trigger] one[i]) by {
        assert(one.contains(one[i]));
    }
    assert forall|i: int| 0 <= i < other.len() implies one.contains(#[trigger] other[i]) by {
        assert(other.contains(other[i]));
    }
    if indicate_availability(core_idx, one, availability) {
        law_more_bitfields_keep_availability(core_idx, one, other, availability);
    }
    if indicate_availability(core_idx, other, availability) {
        law_more_bitfields_keep_availability(core_idx, other, one, availability);
    }
}

/// What comes out is in strictly ascending order of the validators.
pub proof fn law_picked_bitfields_ascend_the_validators(
    cores: Seq<CoreState>,
    bitfields: Seq<SignedBitfieldView>,
    a: int,
    b: int,
)
    requires
        0 <= a < b < selected_bitfields(cores, bitfields).len(),
    ensures
        selected_bitfields(cores, bitfields)[a].validator_index.0 < selected_bitfields(
            cores,
            bitfields,
        )[b].validator_index.0,
{
    law_selection_exists(cores, bitfields);
}

/// Each picked bitfield is one of those that were handed in, has one bit per core and only bits of
/// occupied cores set. No such bitfield of the same validator has more bits set, and each that came
/// earlier has fewer.
pub proof fn law_picked_bitfield_is_the_first_of_the_fullest(
    cores: Seq<CoreState>,
    bitfields: Seq<SignedBitfieldView>,
    a: int,
) -> (i: int)
    requires
        0 <= a < selected_bitfields(cores, bitfields).len(),
    ensures
        0 <= i < bitfields.len(),
        selected_bitfields(cores, bitfields)[a] == bitfields[i],
        bitfields[i].bits.len() == cores.len(),
        forall|core: int|
            #![trigger bitfields[i].bits[core]]
            0 <= core < cores.len() && bitfields[i].bits[core] ==> cores[core] is Occupied,
        forall|j: int|
            0 <= j < bitfields.len() && (#[trigger] bitfields[j]).validator_index
                == bitfields[i].validator_index && bitfields[j].bits.len() == cores.len() && (
            forall|core: int|
                #![trigger bitfields[j].bits[core]]
                0 <= core < cores.len() && bitfields[j].bits[core] ==> cores[core] is Occupied)
                ==> ones(bitfields[j].bits) <= ones(bitfields[i].bits) && (j < i ==> ones(
                bitfields[j].bits,
            ) < ones(bitfields[i].bits)),
{
    law_selection_exists(cores, bitfields);
    let selected = selected_bitfields(cores, bitfields);
    assert(among_preferred(cores, bitfields, selected[a]));
    let i = choose|i: int| #[trigger]
        preferred(cores, bitfields, i) && bitfields[i] == selected[a];
    assert(admissible(cores, bitfields[i]));
    assert forall|j: int|
        0 <= j < bitfields.len() && (#[trigger] bitfields[j]).validator_index
            == bitfields[i].validator_index && bitfields[j].bits.len() == cores.len() && (forall|
            core: int,
        |
            #![trigger bitfields[j].bits[core]]
            0 <= core < cores.len() && bitfields[j].bits[core]
                ==> cores[core] is Occupied) implies ones(bitfields[j].bits) <= ones(
        bitfields[i].bits,
    ) && (j < i ==> ones(bitfields[j].bits) < ones(bitfields[i].bits)) by {
        assert(admissible(cores, bitfields[j]));
        assert(outranks(bitfields, i, j));
    }
    i
}

/// No validator is left out: if it signed a bitfield with one bit per core whose set bits all belong
/// to occupied cores, one of its bitfields is picked, with at least as many bits set.
pub proof fn law_no_validator_is_left_out(
    cores: Seq<CoreState>,
    bitfields: Seq<SignedBitfieldView>,
    j: int,
) -> (a: int)
    requires
        0 <= j < bitfields.len(),
        bitfields[j].bits.len() == cores.len(),
        forall|core: int|
            #![trigger bitfields[j].bits[core]]
            0 <= core < cores.len() && bitfields[j].bits[core] ==> cores[core] is Occupied,
    ensures
        0 <= a < selected_bitfields(cores, bitfields).len(),
        selected_bitfields(cores, bitfields)[a].validator_index == bitfields[j].validator_index,
        ones(selected_bitfields(cores, bitfields)[a].bits) >= ones(bitfields[j].bits),
{
    law_selection_exists(cores, bitfields);
    let selected = selected_bitfields(cores, bitfields);
    law_picked_bitfields_maximize_availability(cores, bitfields, selected, j);
    choose|a: int|
        #![trigger selected[a]]
        0 <= a < selected.len() && selected[a].validator_index == bitfields[j].validator_index
            && ones(selected[a].bits) >= ones(bitfields[j].bits)
}

/// A core is available exactly if each bitfield is signed by a validator of the record and at least
/// two thirds of the validators of the record hold their part: those that are set in the record or
/// signed a bitfield with the bit of the core set.
pub proof fn law_core_is_available_at_two_thirds(
    core_idx: int,
    bitfields: Seq<SignedBitfieldView>,
    availability: Seq<bool>,
    holders: Set<int>,
)
    requires
        forall|v: int| #[trigger]
            holders.contains(v) <==> 0 <= v < availability.len() && (availability[v] || exists|
                i: int,
            |
                #![trigger bitfields[i]]
                0 <= i < bitfields.len() && bitfields[i].validator_index.0 == v
                    && bitfields[i].bits[core_idx]),
    ensures
        indicate_availability(core_idx, bitfields, availability) <==> (forall|i: int|
            0 <= i < bitfields.len() ==> (#[trigger] bitfields[i]).validator_index.0
                < availability.len()) && 3 * holders.len() >= 2 * availability.len(),
{
    let merged = merged_availability(core_idx, bitfields, availability);
    assert forall|v: int| #[trigger] holders.contains(v) <==> 0 <= v < merged.len()
        && merged[v] by {
        if 0 <= v < availability.len() {
            assert(merged[v] == holds_part(core_idx, bitfields, availability, v));
        }
    }
    law_ones_counts_the_set_bits(merged, holders);
}

/// What the bitfields say of a core can be asked if they have a bit for it, at least those before the
/// first that is signed by an unknown validator.
pub proof fn law_core_can_be_asked_about(
    core_idx: int,
    bitfields: Seq<SignedBitfieldView>,
    validators: nat,
    n: int,
)
    requires
        0 <= n <= bitfields.len(),
        forall|i: int| 0 <= i < n ==> core_idx < (#[trigger] bitfields[i]).bits.len(),
        n < bitfields.len() ==> bitfields[n].validator_index.0 >= validators,
    ensures
        bits_present(core_idx, bitfields, validators),
{
    assert forall|i: int|
        0 <= i < bitfields.len() && validators_known(bitfields, i + 1, validators) implies core_idx
        < (#[trigger] bitfields[i]).bits.len() by {
        if n <= i {
            assert(bitfields[n].validator_index.0 < validators);
        }
    }
}

} // verus!
