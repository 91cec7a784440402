use vstd::arithmetic::div_mod::lemma_div_denominator;
use vstd::arithmetic::power2::{lemma2_to64, lemma_pow2_pos, lemma_pow2_strictly_increases, lemma_pow2_unfold, pow2};
use vstd::prelude::*;

use crate::evaluation::Assignment;

verus! {

/// The largest number of variables for which a truth table is built: it has
/// `2^MAX_VARIABLES` rows.
pub const MAX_VARIABLES: usize = 24;

/// Bit `j` of `i`, bit 0 being the least significant.
pub open spec fn bit(i: nat, j: nat) -> bool {
    (i / pow2(j)) % 2 == 1
}

/// Row `i` of the truth table over `names`: the name at position `j` gets bit
/// `j` of `i` (where a name stands twice, its last position counts).
pub open spec fn table_row(names: Seq<Seq<char>>, i: nat) -> Map<Seq<char>, bool>
    decreases names.len(),
{
    if names.len() == 0 {
        Map::empty()
    } else {
        table_row(names.drop_last(), i).insert(names.last(), bit(i, (names.len() - 1) as nat))
    }
}

/// For distinct names, row `i` of the table gives the name at position `j` bit
/// `j` of `i`, and gives no other name a value.
pub proof fn lemma_table_row_bits(names: Seq<Seq<char>>, i: nat)
    requires
        names.no_duplicates(),
    ensures
        forall|j: int|
            0 <= j < names.len() ==> #[trigger] table_row(names, i).contains_key(names[j])
                && table_row(names, i)[names[j]] == bit(i, j as nat),
        table_row(names, i).dom() == names.to_set(),
    decreases names.len(),
{
    if names.len() > 0 {
        let rest = names.drop_last();
        assert(rest.no_duplicates()) by {
            assert forall|a: int, b: int| 0 <= a < b < rest.len() implies rest[a] != rest[b] by {
                assert(rest[a] == names[a] && rest[b] == names[b]);
            }
        }
        lemma_table_row_bits(rest, i);
        assert forall|j: int| 0 <= j < names.len() implies #[trigger] table_row(
            names,
            i,
        ).contains_key(names[j]) && table_row(names, i)[names[j]] == bit(i, j as nat) by {
            if j < names.len() - 1 {
                assert(rest[j] == names[j]);
                assert(names[j] != names.last());
            }
        }
        assert forall|x: Seq<char>| names.to_set().contains(x) <==> rest.to_set().insert(
            names.last(),
        ).contains(x) by {
            if names.contains(x) && x != names.last() {
                let j = choose|j: int| 0 <= j < names.len() && names[j] == x;
                assert(rest[j] == x);
            }
            if rest.contains(x) {
                let j = choose|j: int| 0 <= j < rest.len() && rest[j] == x;
                assert(names[j] == x);
            }
            if x == names.last() {
                assert(names[names.len() - 1] == x);
            }
        }
        assert(names.to_set() =~= rest.to_set().insert(names.last()));
    } else {
        assert(names.to_set() =~= Set::<Seq<char>>::empty());
    }
}

/// The names of a list of strings, as sequences of characters.
pub open spec fn names_view(v: Vec<String>) -> Seq<Seq<char>> {
    v@.map_values(|s: String| s@)
}

/// The assignments of a table.
pub open spec fn rows_view(t: Vec<Assignment>) -> Seq<Map<Seq<char>, bool>> {
    t@.map_values(|a: Assignment| a@)
}

/// Every assignment of the variables, `2^k` rows for `k` names; row `i` gives
/// the name at position `j` bit `j` of `i`.
pub fn generate_table(variables: &Vec<String>) -> (r: Vec<Assignment>)
    requires
        variables.len() <= MAX_VARIABLES,
    ensures
        r.len() == pow2(variables.len() as nat),
        forall|i: int|
            0 <= i < r.len() ==> #[trigger] r[i]@ == table_row(names_view(*variables), i as nat),
{
    let k = variables.len();
    let mut size: usize = 1;
    proof {
        lemma2_to64();
    }
    for j in 0..k
        invariant
            k <= MAX_VARIABLES,
            size == pow2(j as nat),
    {
        proof {
            lemma_pow2_unfold((j + 1) as nat);
            lemma_pow2_strictly_increases((j + 1) as nat, 64);
            lemma2_to64();
        }
        size = size * 2;
    }
    let mut table: Vec<Assignment> = Vec::new();
    for i in 0..size
        invariant
            size == pow2(k as nat),
            k == variables.len(),
            table.len() == i,
            forall|r: int|
                0 <= r < i ==> #[trigger] table[r]@ == table_row(names_view(*variables), r as nat),
    {
        let mut row = Assignment::new();
        let mut rest = i;
        proof {
            lemma2_to64();
            assert(names_view(*variables).take(0) =~= Seq::<Seq<char>>::empty());
        }
        for position in 0..k
            invariant
                k == variables.len(),
                rest == i as nat / pow2(position as nat),
                row@ == table_row(names_view(*variables).take(position as int), i as nat),
        {
            proof {
                lemma_pow2_pos(position as nat);
                lemma_pow2_unfold((position + 1) as nat);
                lemma_div_denominator(i as int, pow2(position as nat) as int, 2);
                assert(names_view(*variables).take(position + 1).drop_last() =~= names_view(
                    *variables,
                ).take(position as int));
            }
            row.insert(variables[position].clone(), rest % 2 == 1);
            rest = rest / 2;
        }
        assert(names_view(*variables).take(k as int) =~= names_view(*variables));
        table.push(row);
    }
    table
}

} // verus!
