//! Filling generated rooms with npcs and items.

use vstd::prelude::*;

use rand::rngs::StdRng;

use crate::proc_gen::proc_gen_room::{spec_is_floor_point, ProcGenRoom};
use crate::util::random::{rng_choose, rng_range_i32, rng_shuffle};
use crate::world::coordinate_system::Point;
use crate::world::world_data::{SpawnData, SpawnKind};
use crate::world::worldspace::point_lex_lt;

verus! {

/// How a room is populated.
#[derive(Clone, Copy, Debug, PartialEq, Eq, Structural)]
pub enum RoomEncounter {
    Empty,
    Enemy,
    EnemyTreasure,
    Treasure,
}

/// The encounter a percentile roll (0 to 99) gives: 30% enemies, 20%
/// enemies with treasure, 25% treasure, 25% nothing.
pub open spec fn spec_encounter_for(n: int) -> RoomEncounter {
    if n <= 29 {
        RoomEncounter::Enemy
    } else if n <= 49 {
        RoomEncounter::EnemyTreasure
    } else if n <= 74 {
        RoomEncounter::Treasure
    } else {
        RoomEncounter::Empty
    }
}

impl RoomEncounter {
    /// The encounter of a percentile roll.
    pub fn from_percentile(n: i32) -> (e: RoomEncounter)
        requires
            0 <= n < 100,
        ensures
            e == spec_encounter_for(n as int),
    {
        if n <= 29 {
            RoomEncounter::Enemy
        } else if n <= 49 {
            RoomEncounter::EnemyTreasure
        } else if n <= 74 {
            RoomEncounter::Treasure
        } else {
            RoomEncounter::Empty
        }
    }

    /// An encounter drawn by a percentile roll.
    pub fn random(rng: &mut StdRng) -> (e: RoomEncounter)
        ensures
            exists|n: int| 0 <= n < 100 && e == spec_encounter_for(n),
    {
        let n = rng_range_i32(rng, 0, 100);
        RoomEncounter::from_percentile(n)
    }
}

/// The npc definitions' identifiers, in sorted order.
pub open spec fn sorted_npc_ids() -> Seq<&'static str> {
    seq!["assassin", "bandit", "cultist", "dark_mage", "funny_frog", "giant_rat", "goblin", "orc", "skeleton",
        "slime", "wolf", "zombie"]
}

/// The item definitions' identifiers, in sorted order.
pub open spec fn sorted_item_ids() -> Seq<&'static str> {
    seq!["armor_chainmail", "armor_cloak", "armor_gauntlets", "armor_helmet", "armor_leather", "armor_plate",
        "armor_shield", "food_apple", "food_bread", "food_cake", "food_cheese", "food_fish", "food_grapefruit",
        "food_honey", "food_meat", "food_mushroom", "potion_dexterity", "potion_healing_small", "potion_strength",
        "weapon_axe_iron", "weapon_bow_long", "weapon_bow_short", "weapon_dagger", "weapon_mace", "weapon_short_sword",
        "weapon_spear", "weapon_sword_rusty", "weapon_warhammer"]
}

/// The npc definitions' identifiers, sorted (so that a draw from them
/// depends on the generator alone).
pub fn sorted_npc_def_ids() -> (ids: Vec<&'static str>)
    ensures
        ids@ == sorted_npc_ids(),
{
    let ids = vec!["assassin", "bandit", "cultist", "dark_mage", "funny_frog", "giant_rat", "goblin", "orc",
        "skeleton", "slime", "wolf", "zombie"];
    proof {
        assert(ids@ =~= sorted_npc_ids());
    }
    ids
}

/// The item definitions' identifiers, sorted.
pub fn sorted_item_def_ids() -> (ids: Vec<&'static str>)
    ensures
        ids@ == sorted_item_ids(),
{
    let ids = vec!["armor_chainmail", "armor_cloak", "armor_gauntlets", "armor_helmet", "armor_leather",
        "armor_plate", "armor_shield", "food_apple", "food_bread", "food_cake", "food_cheese", "food_fish",
        "food_grapefruit", "food_honey", "food_meat", "food_mushroom", "potion_dexterity", "potion_healing_small",
        "potion_strength", "weapon_axe_iron", "weapon_bow_long", "weapon_bow_short", "weapon_dagger", "weapon_mace",
        "weapon_short_sword", "weapon_spear", "weapon_sword_rusty", "weapon_warhammer"];
    proof {
        assert(ids@ =~= sorted_item_ids());
    }
    ids
}

/// Where a spawn is.
pub open spec fn spawn_point(s: SpawnData) -> Point {
    Point { x: s.x, y: s.y }
}

/// Whether the spawns were placed on the last points of `before`, from the
/// end backwards, which leaves `after`.
pub open spec fn taken_from_end(before: Seq<Point>, after: Seq<Point>, spawns: Seq<SpawnData>) -> bool {
    &&& after.len() + spawns.len() == before.len()
    &&& after == before.take(after.len() as int)
    &&& forall|i: int| 0 <= i < spawns.len() ==> spawn_point(#[trigger] spawns[i]) == before[before.len() - 1 - i]
}

/// Whether a spawn is of an npc named in the sorted npc identifiers.
pub open spec fn is_npc_spawn(s: SpawnData) -> bool {
    s.kind matches SpawnKind::Npc { def_id } && exists|k: int| 0 <= k < sorted_npc_ids().len()
        && def_id@ == sorted_npc_ids()[k]@
}

/// Whether a spawn is of an item named in the sorted item identifiers.
pub open spec fn is_item_spawn(s: SpawnData) -> bool {
    s.kind matches SpawnKind::Item { def_id } && exists|k: int| 0 <= k < sorted_item_ids().len()
        && def_id@ == sorted_item_ids()[k]@
}

/// Whether every spawn is of an npc.
pub open spec fn all_npcs(spawns: Seq<SpawnData>) -> bool {
    forall|i: int| 0 <= i < spawns.len() ==> is_npc_spawn(#[trigger] spawns[i])
}

/// Whether every spawn is of an item.
pub open spec fn all_items(spawns: Seq<SpawnData>) -> bool {
    forall|i: int| 0 <= i < spawns.len() ==> is_item_spawn(#[trigger] spawns[i])
}

/// One or two npcs (as the generator draws), each of a kind drawn from the
/// sorted npc identifiers, placed on points taken from the end of
/// `available` while points last.
pub fn random_npcs(available: &mut Vec<Point>, rng: &mut StdRng) -> (spawns: Vec<SpawnData>)
    ensures
        spawns@.len() <= 2,
        old(available)@.len() >= 1 ==> spawns@.len() >= 1,
        taken_from_end(old(available)@, final(available)@, spawns@),
        all_npcs(spawns@),
{
    let spawns_amount = rng_range_i32(rng, 1, 3);
    let mut spawns: Vec<SpawnData> = Vec::new();
    let mut k: i32 = 0;
    proof {
        assert(available@ =~= available@.take(available@.len() as int));
    }
    while k < spawns_amount
        invariant
            0 <= k <= spawns_amount < 3,
            1 <= spawns_amount,
            spawns@.len() <= k,
            old(available)@.len() >= 1 && k >= 1 ==> spawns@.len() >= 1,
            taken_from_end(old(available)@, available@, spawns@),
            all_npcs(spawns@),
        decreases spawns_amount - k,
    {
        let npcs = sorted_npc_def_ids();
        if let Some(npc_def_id) = rng_choose(rng, npcs.as_slice()) {
            if let Some(point) = available.pop() {
                let ghost before = spawns@;
                let spawn = SpawnData { kind: SpawnKind::Npc { def_id: npc_def_id.to_owned() }, x: point.x, y: point.y };
                spawns.push(spawn);
                proof {
                    let j = choose|j: int| 0 <= j < npcs@.len() && npcs@[j] == npc_def_id;
                    assert(sorted_npc_ids()[j]@ == npc_def_id@);
                    assert forall|i: int| 0 <= i < spawns@.len() implies is_npc_spawn(#[trigger] spawns@[i]) by {
                        if i < before.len() {
                            assert(spawns@[i] == before[i]);
                        }
                    }
                    assert forall|i: int| 0 <= i < spawns@.len() implies spawn_point(#[trigger] spawns@[i])
                        == old(available)@[old(available)@.len() - 1 - i] by {
                        if i < before.len() {
                            assert(spawns@[i] == before[i]);
                        }
                    }
                    assert(available@ =~= old(available)@.take(available@.len() as int));
                }
            }
        } else {
            proof {
                assert(npcs@.len() > 0);
            }
        }
        k = k + 1;
    }
    spawns
}

/// One item, of a kind drawn from the sorted item identifiers, placed on
/// the point taken from the end of `available` if there is one.
pub fn random_items(available: &mut Vec<Point>, rng: &mut StdRng) -> (spawns: Vec<SpawnData>)
    ensures
        spawns@.len() <= 1,
        old(available)@.len() >= 1 ==> spawns@.len() == 1,
        taken_from_end(old(available)@, final(available)@, spawns@),
        all_items(spawns@),
{
    let spawns_amount = rng_range_i32(rng, 1, 2);
    let mut spawns: Vec<SpawnData> = Vec::new();
    let mut k: i32 = 0;
    proof {
        assert(available@ =~= available@.take(available@.len() as int));
    }
    while k < spawns_amount
        invariant
            0 <= k <= spawns_amount,
            spawns_amount == 1,
            spawns@.len() <= k,
            old(available)@.len() >= 1 && k >= 1 ==> spawns@.len() >= 1,
            taken_from_end(old(available)@, available@, spawns@),
            all_items(spawns@),
        decreases spawns_amount - k,
    {
        let items = sorted_item_def_ids();
        if let Some(item_def_id) = rng_choose(rng, items.as_slice()) {
            if let Some(point) = available.pop() {
                let ghost before = spawns@;
                let spawn = SpawnData { kind: SpawnKind::Item { def_id: item_def_id.to_owned() }, x: point.x, y: point.y };
                spawns.push(spawn);
                proof {
                    let j = choose|j: int| 0 <= j < items@.len() && items@[j] == item_def_id;
                    assert(sorted_item_ids()[j]@ == item_def_id@);
                    assert forall|i: int| 0 <= i < spawns@.len() implies is_item_spawn(#[trigger] spawns@[i]) by {
                        if i < before.len() {
                            assert(spawns@[i] == before[i]);
                        }
                    }
                    assert forall|i: int| 0 <= i < spawns@.len() implies spawn_point(#[trigger] spawns@[i])
                        == old(available)@[old(available)@.len() - 1 - i] by {
                        if i < before.len() {
                            assert(spawns@[i] == before[i]);
                        }
                    }
                    assert(available@ =~= old(available)@.take(available@.len() as int));
                }
            }
        } else {
            proof {
                assert(items@.len() > 0);
            }
        }
        k = k + 1;
    }
    spawns
}

/// Whether `points` holds `p`.
pub(crate) fn holds_point(points: &Vec<Point>, p: Point) -> (b: bool)
    ensures
        b == points@.contains(p),
{
    let mut i: usize = 0;
    while i < points.len()
        invariant
            i <= points.len(),
            forall|k: int| 0 <= k < i ==> points@[k] != p,
        decreases points.len() - i,
    {
        if points[i] == p {
            return true;
        }
        i = i + 1;
    }
    false
}

/// Whether the room's floor can be listed without overflow.
pub open spec fn room_listable(room: ProcGenRoom) -> bool {
    &&& room.point_b.x >= 1
    &&& room.point_b.y >= 1
    &&& room.point_a.x < usize::MAX
    &&& room.point_a.y < usize::MAX
}

/// Whether every spawn lies on a floor point of the room outside
/// `blocked`, no two on the same point.
pub open spec fn spawns_placed(room: ProcGenRoom, blocked: Seq<Point>, spawns: Seq<SpawnData>) -> bool {
    &&& forall|i: int| 0 <= i < spawns.len() ==> spec_is_floor_point(room, spawn_point(#[trigger] spawns[i]))
            && !blocked.contains(spawn_point(spawns[i]))
    &&& forall|i: int, j: int| 0 <= i < j < spawns.len() ==> spawn_point(#[trigger] spawns[i])
            != spawn_point(#[trigger] spawns[j])
}

impl ProcGenRoom {
    /// The room's floor points outside `blocked`, each once.
    fn free_floor_points(&self, blocked: &Vec<Point>) -> (points: Vec<Point>)
        requires
            room_listable(*self),
        ensures
            points@.no_duplicates(),
            forall|q: Point| points@.contains(q) <==> (spec_is_floor_point(*self, q) && !blocked@.contains(q)),
    {
        let floor = self.floor_points();
        let mut points: Vec<Point> = Vec::new();
        let mut i: usize = 0;
        while i < floor.len()
            invariant
                i <= floor.len(),
                forall|a: int, b: int| 0 <= a < b < floor.len() ==> point_lex_lt(floor@[a], floor@[b]),
                forall|q: Point| floor@.contains(q) <==> spec_is_floor_point(*self, q),
                points@.no_duplicates(),
                forall|q: Point| points@.contains(q) <==> (exists|k: int| 0 <= k < i && floor@[k] == q)
                    && !blocked@.contains(q),
            decreases floor.len() - i,
        {
            let p = floor[i];
            if !holds_point(blocked, p) {
                let ghost before = points@;
                proof {
                    assert(!before.contains(p)) by {
                        if before.contains(p) {
                            let k = choose|k: int| 0 <= k < i && floor@[k] == p;
                            assert(point_lex_lt(floor@[k], floor@[i as int]));
                        }
                    }
                }
                points.push(p);
                proof {
                    assert forall|a: int, b: int| 0 <= a < points@.len() && 0 <= b < points@.len() && a != b
                        implies points@[a] != points@[b] by {
                        if a < before.len() && b < before.len() {
                        } else if a == before.len() {
                            assert(before.contains(points@[b]));
                        } else {
                            assert(before.contains(points@[a]));
                        }
                    }
                    assert forall|q: Point| points@.contains(q) <==> (exists|k: int| 0 <= k < i + 1 && floor@[k] == q)
                        && !blocked@.contains(q) by {
                        if points@.contains(q) && q != p {
                            let k = choose|k: int| 0 <= k < points@.len() && points@[k] == q;
                            assert(before[k] == q);
                        }
                        if (exists|k: int| 0 <= k < i + 1 && floor@[k] == q) && !blocked@.contains(q) && q != p {
                            let k = choose|k: int| 0 <= k < i + 1 && floor@[k] == q;
                            assert(k < i);
                            assert(before.contains(q));
                            let m = choose|m: int| 0 <= m < before.len() && before[m] == q;
                            assert(points@[m] == q);
                        }
                        if q == p {
                            assert(points@[points@.len() - 1] == p);
                        }
                    }
                }
            }
            i = i + 1;
        }
        proof {
            assert forall|q: Point| points@.contains(q) <==> (spec_is_floor_point(*self, q) && !blocked@.contains(q)) by {
                if spec_is_floor_point(*self, q) {
                    assert(floor@.contains(q));
                }
            }
        }
        points
    }
}

/// Points taken from the end of a list without repeats are distinct.
proof fn lemma_taken_distinct(before: Seq<Point>, after: Seq<Point>, spawns: Seq<SpawnData>)
    requires
        before.no_duplicates(),
        taken_from_end(before, after, spawns),
    ensures
        forall|i: int, j: int| 0 <= i < j < spawns.len() ==> spawn_point(#[trigger] spawns[i])
            != spawn_point(#[trigger] spawns[j]),
        forall|i: int| 0 <= i < spawns.len() ==> before.contains(spawn_point(#[trigger] spawns[i])),
        forall|q: Point| after.contains(q) ==> before.contains(q),
{
    assert forall|i: int| 0 <= i < spawns.len() implies before.contains(spawn_point(#[trigger] spawns[i])) by {
        assert(before[before.len() - 1 - i] == spawn_point(spawns[i]));
    }
    assert forall|q: Point| after.contains(q) implies before.contains(q) by {
        let k = choose|k: int| 0 <= k < after.len() && after[k] == q;
        assert(before[k] == q);
    }
}

/// Joined spawns keep their placement when no point repeats across the two.
proof fn lemma_placed_concat(room: ProcGenRoom, blocked: Seq<Point>, a: Seq<SpawnData>, b: Seq<SpawnData>)
    requires
        spawns_placed(room, blocked, a),
        spawns_placed(room, blocked, b),
        forall|i: int, j: int| 0 <= i < a.len() && 0 <= j < b.len() ==> spawn_point(#[trigger] a[i])
            != spawn_point(#[trigger] b[j]),
    ensures
        spawns_placed(room, blocked, a + b),
{
    let c = a + b;
    assert forall|i: int| 0 <= i < c.len() implies spec_is_floor_point(room, spawn_point(#[trigger] c[i]))
        && !blocked.contains(spawn_point(c[i])) by {
        if i < a.len() { assert(c[i] == a[i]); } else { assert(c[i] == b[i - a.len()]); }
    }
    assert forall|i: int, j: int| 0 <= i < j < c.len() implies spawn_point(#[trigger] c[i])
        != spawn_point(#[trigger] c[j]) by {
        if j < a.len() {
            assert(c[i] == a[i] && c[j] == a[j]);
        } else if i >= a.len() {
            assert(c[i] == b[i - a.len()] && c[j] == b[j - a.len()]);
        } else {
            assert(c[i] == a[i] && c[j] == b[j - a.len()]);
        }
    }
}

impl ProcGenRoom {
    /// The spawns of the room for an encounter: its floor points outside
    /// `blocked` are shuffled, then npcs (for enemies) and an item (for
    /// treasure) are placed on them, taken from the end.
    pub fn populate(&self, encounter: RoomEncounter, blocked: &Vec<Point>, rng: &mut StdRng) -> (population: Vec<SpawnData>)
        requires
            room_listable(*self),
        ensures
            spawns_placed(*self, blocked@, population@),
            encounter == RoomEncounter::Empty ==> population@.len() == 0,
            encounter == RoomEncounter::Enemy ==> all_npcs(population@) && population@.len() <= 2,
            encounter == RoomEncounter::Treasure ==> all_items(population@) && population@.len() <= 1,
            encounter == RoomEncounter::EnemyTreasure ==> exists|k: int| 0 <= k <= population@.len()
                && all_npcs(population@.take(k)) && all_items(population@.skip(k)) && k <= 2 && population@.len() - k <= 1,
            encounter != RoomEncounter::Empty && (exists|q: Point| spec_is_floor_point(*self, q) && !blocked@.contains(q))
                ==> population@.len() >= 1,
    {
        let mut available_points = self.free_floor_points(blocked);
        let ghost listed = available_points@;
        rng_shuffle(rng, &mut available_points);
        proof {
            listed.lemma_multiset_has_no_duplicates();
            assert forall|x: Point| available_points@.to_multiset().contains(x) implies
                available_points@.to_multiset().count(x) == 1 by {
            }
            available_points@.lemma_multiset_has_no_duplicates_conv();
            assert forall|q: Point| available_points@.contains(q) <==> listed.contains(q) by {
                available_points@.to_multiset_ensures();
                listed.to_multiset_ensures();
                assert(available_points@.to_multiset().count(q) == listed.to_multiset().count(q));
            }
        }
        let ghost shuffled = available_points@;
        let mut population: Vec<SpawnData> = Vec::new();
        match encounter {
            RoomEncounter::Empty => {},
            RoomEncounter::Enemy => {
                let mut npcs = random_npcs(&mut available_points, rng);
                proof {
                    lemma_taken_distinct(shuffled, available_points@, npcs@);
                }
                population.append(&mut npcs);
            },
            RoomEncounter::EnemyTreasure => {
                let mut npcs = random_npcs(&mut available_points, rng);
                let ghost middle = available_points@;
                let mut items = random_items(&mut available_points, rng);
                proof {
                    lemma_taken_distinct(shuffled, middle, npcs@);
                    lemma_taken_distinct(middle, available_points@, items@);
                    assert forall|i: int, j: int| 0 <= i < npcs@.len() && 0 <= j < items@.len() implies
                        spawn_point(#[trigger] npcs@[i]) != spawn_point(#[trigger] items@[j]) by {
                        let a = shuffled.len() - 1 - i;
                        let b = middle.len() - 1 - j;
                        assert(middle[b] == shuffled[b]);
                        assert(b < middle.len() && middle.len() <= a);
                    }
                    lemma_placed_concat(*self, blocked@, npcs@, items@);
                }
                let ghost n_npcs = npcs@;
                let ghost n_items = items@;
                population.append(&mut npcs);
                population.append(&mut items);
                proof {
                    assert(population@.take(n_npcs.len() as int) =~= n_npcs);
                    assert(population@.skip(n_npcs.len() as int) =~= n_items);
                }
            },
            RoomEncounter::Treasure => {
                let mut items = random_items(&mut available_points, rng);
                proof {
                    lemma_taken_distinct(shuffled, available_points@, items@);
                }
                population.append(&mut items);
            },
        }
        proof {
            if encounter != RoomEncounter::Empty && (exists|q: Point| spec_is_floor_point(*self, q) && !blocked@.contains(q)) {
                let q = choose|q: Point| spec_is_floor_point(*self, q) && !blocked@.contains(q);
                assert(shuffled.contains(q));
            }
        }
        population
    }
}

} // verus!
