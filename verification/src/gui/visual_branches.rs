//! Where the branches of the commit graph are drawn.
use vstd::prelude::*;

verus! {

/// Horizontal distance between two branches of the graph.
pub const BRANCHES_DISTANCE: i32 = 70;

/// Horizontal position of the first branch of the graph.
pub const FIRST_BRANCH_X: i32 = 20;

/// The name of the branch that is drawn first.
pub open spec fn master_name() -> Seq<char> {
    seq!['m', 'a', 's', 't', 'e', 'r']
}

/// The positions that the branches `branches` other than `master` are
/// given, one after the other, after the positions `start`, from `x` on:
/// each takes the next position, and a name seen again moves to it.
/// Also gives the position that comes next.
pub open spec fn other_positions(branches: Seq<Seq<char>>, start: Map<Seq<char>, int>, x: int) -> (
    Map<Seq<char>, int>,
    int,
)
    decreases branches.len(),
{
    if branches.len() == 0 {
        (start, x)
    } else {
        let (m, next) = other_positions(branches.drop_last(), start, x);
        if branches.last() == master_name() {
            (m, next)
        } else {
            (m.insert(branches.last(), next), next + BRANCHES_DISTANCE)
        }
    }
}

/// The horizontal position of each branch: `master` first, if it is one
/// of them, then the others in order, `BRANCHES_DISTANCE` apart.
pub open spec fn branch_positions(branches: Seq<Seq<char>>) -> Map<Seq<char>, int> {
    if branches.contains(master_name()) {
        other_positions(
            branches,
            Map::empty().insert(master_name(), FIRST_BRANCH_X as int),
            FIRST_BRANCH_X + BRANCHES_DISTANCE,
        ).0
    } else {
        other_positions(branches, Map::empty(), FIRST_BRANCH_X as int).0
    }
}

/// The names and positions as a map.
pub open spec fn positions_map(v: Seq<(String, i32)>) -> Map<Seq<char>, int>
    decreases v.len(),
{
    if v.len() == 0 {
        Map::empty()
    } else {
        positions_map(v.drop_last()).insert(v.last().0@, v.last().1 as int)
    }
}

/// No name is given two positions.
pub open spec fn names_distinct(v: Seq<(String, i32)>) -> bool {
    forall|i: int, j: int| 0 <= i < j < v.len() ==> #[trigger] v[i].0@ != #[trigger] v[j].0@
}

proof fn lemma_positions_map_has(v: Seq<(String, i32)>)
    requires
        names_distinct(v),
    ensures
        forall|i: int| 0 <= i < v.len() ==> #[trigger] positions_map(v).contains_key(v[i].0@)
            && positions_map(v)[v[i].0@] == v[i].1 as int,
        forall|k: Seq<char>| #[trigger] positions_map(v).contains_key(k) ==> exists|i: int| 0 <= i < v.len() && v[i].0@ == k,
    decreases v.len(),
{
    if v.len() > 0 {
        let d = v.drop_last();
        assert forall|i: int, j: int| 0 <= i < j < d.len() implies #[trigger] d[i].0@ != #[trigger] d[j].0@ by {
            assert(d[i] == v[i] && d[j] == v[j]);
        }
        lemma_positions_map_has(d);
        assert forall|i: int| 0 <= i < v.len() implies #[trigger] positions_map(v).contains_key(v[i].0@)
            && positions_map(v)[v[i].0@] == v[i].1 as int by {
            if i < v.len() - 1 {
                assert(d[i] == v[i]);
                assert(positions_map(d).contains_key(d[i].0@));
                assert(v[i].0@ != v[v.len() - 1].0@);
            } else {
                assert(v.last() == v[i]);
            }
        }
        assert forall|k: Seq<char>| #[trigger] positions_map(v).contains_key(k) implies exists|i: int|
            0 <= i < v.len() && v[i].0@ == k by {
            if k != v.last().0@ {
                assert(positions_map(d).contains_key(k));
                let i = choose|i: int| 0 <= i < d.len() && d[i].0@ == k;
                assert(v[i] == d[i]);
            } else {
                assert(v[v.len() - 1].0@ == k);
            }
        }
    }
}

/// Gives `name` the position `x`, replacing the position it had.
fn set_position(positions: &mut Vec<(String, i32)>, name: &String, x: i32)
    requires
        names_distinct(old(positions)@),
    ensures
        names_distinct(final(positions)@),
        positions_map(final(positions)@) == positions_map(old(positions)@).insert(name@, x as int),
{
    let mut i: usize = 0;
    while i < positions.len()
        invariant
            i <= positions@.len(),
            positions@ == old(positions)@,
            names_distinct(positions@),
            forall|k: int| 0 <= k < i ==> #[trigger] positions@[k].0@ != name@,
        decreases positions@.len() - i,
    {
        if positions[i].0 == *name {
            let ghost before = positions@;
            proof {
                lemma_positions_map_has(before);
            }
            let entry = (name.clone(), x);
            assert(entry.0@ == name@);
            positions.set(i, entry);
            proof {
                assert(before[i as int].0@ == name@);
                assert(positions@[i as int].0@ == name@);
                let after = positions@;
                assert forall|a: int, b: int| 0 <= a < b < after.len() implies #[trigger] after[a].0@
                    != #[trigger] after[b].0@ by {
                    assert(before[a].0@ != before[b].0@);
                }
                lemma_positions_map_has(after);
                let m1 = positions_map(after);
                let m2 = positions_map(before).insert(name@, x as int);
                assert forall|k: Seq<char>| m1.contains_key(k) <==> m2.contains_key(k) by {
                    if m1.contains_key(k) {
                        let j = choose|j: int| 0 <= j < after.len() && after[j].0@ == k;
                        if j != i {
                            assert(after[j] == before[j]);
                            assert(positions_map(before).contains_key(before[j].0@));
                        }
                    }
                    if m2.contains_key(k) {
                        if k == name@ {
                            assert(positions_map(after).contains_key(after[i as int].0@));
                        } else {
                            let j = choose|j: int| 0 <= j < before.len() && before[j].0@ == k;
                            assert(j != i);
                            assert(after[j] == before[j]);
                            assert(positions_map(after).contains_key(after[j].0@));
                        }
                    }
                }
                assert forall|k: Seq<char>| m1.contains_key(k) implies m1[k] == m2[k] by {
                    let j = choose|j: int| 0 <= j < after.len() && after[j].0@ == k;
                    if j != i {
                        assert(after[j] == before[j]);
                    }
                }
                assert(m1 =~= m2);
            }
            return;
        }
        i = i + 1;
    }
    let ghost before = positions@;
    let entry = (name.clone(), x);
    assert(entry.0@ == name@);
    positions.push(entry);
    proof {
        assert(positions@.drop_last() == before);
        assert(positions@.last().0@ == name@);
        assert forall|a: int, b: int| 0 <= a < b < positions@.len() implies #[trigger] positions@[a].0@
            != #[trigger] positions@[b].0@ by {
            if b == positions@.len() - 1 {
                assert(positions@[a] == before[a]);
            } else {
                assert(positions@[a] == before[a] && positions@[b] == before[b]);
            }
        }
    }
}

fn is_master(name: &String) -> (b: bool)
    ensures
        b == (name@ == master_name()),
{
    let master = "master".to_string();
    proof {
        reveal_strlit("master");
    }
    assert(master@ == master_name());
    *name == master
}

/// Defines the horizontal positions of the branches: `master` first, if it
/// is one of them, then the others in order. Each name appears once.
pub fn define_branch_positions(branches: &Vec<String>) -> (positions: Vec<(String, i32)>)
    requires
        branches@.len() < 30_000_000,
    ensures
        names_distinct(positions@),
        positions_map(positions@) == branch_positions(branches@.map_values(|b: String| b@)),
{
    let ghost names = branches@.map_values(|b: String| b@);
    let mut positions: Vec<(String, i32)> = Vec::new();
    let mut x_pos: i32 = FIRST_BRANCH_X;
    let mut has_master = false;
    let mut k: usize = 0;
    while k < branches.len()
        invariant
            k <= branches@.len(),
            names == branches@.map_values(|b: String| b@),
            has_master == (exists|j: int| 0 <= j < k && #[trigger] names[j] == master_name()),
        decreases branches@.len() - k,
    {
        assert(names[k as int] == branches@[k as int]@);
        if is_master(&branches[k]) {
            has_master = true;
        }
        k = k + 1;
    }
    assert(has_master == names.contains(master_name()));
    let ghost start: Map<Seq<char>, int> = Map::empty();
    assert(positions_map(positions@) == start);
    if has_master {
        let master = "master".to_string();
        proof {
            reveal_strlit("master");
        }
        assert(master@ == master_name());
        positions.push((master, x_pos));
        proof {
            start = Map::empty().insert(master_name(), FIRST_BRANCH_X as int);
            assert(positions@.drop_last().len() == 0);
            assert(positions_map(positions@.drop_last()) == Map::<Seq<char>, int>::empty());
            assert(positions@.last().0@ == master_name());
        }
        x_pos = x_pos + BRANCHES_DISTANCE;
    }
    assert(positions_map(positions@) == start);
    let ghost x0 = x_pos as int;
    let mut i: usize = 0;
    while i < branches.len()
        invariant
            i <= branches@.len(),
            branches@.len() < 30_000_000,
            names == branches@.map_values(|b: String| b@),
            names_distinct(positions@),
            (positions_map(positions@), x_pos as int) == other_positions(names.take(i as int), start, x0),
            x0 <= x_pos <= x0 + BRANCHES_DISTANCE * i,
            x0 <= FIRST_BRANCH_X + BRANCHES_DISTANCE,
        decreases branches@.len() - i,
    {
        assert(names.take(i + 1).drop_last() == names.take(i as int));
        assert(names.take(i + 1).last() == branches@[i as int]@);
        if !is_master(&branches[i]) {
            set_position(&mut positions, &branches[i], x_pos);
            x_pos = x_pos + BRANCHES_DISTANCE;
        }
        i = i + 1;
    }
    assert(names.take(branches@.len() as int) == names);
    positions
}

} // verus!
