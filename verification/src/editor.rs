//! Records the editor exchanges with its host shell, and the planning of
//! map deletions: which maps and layouts to delete and which map headers to
//! repoint, decided from plain values before any persistent data is touched.

use vstd::prelude::*;
use vstd::utf8::encode_utf8;

use crate::parse::{parse_u16, spec_digits_value, spec_numeral_digits, valid_u16_numeral};

verus! {

/// A map named by its group and index.
#[derive(Clone, Copy, Debug, PartialEq, Eq, Structural)]
pub struct MapId {
    pub group: u8,
    pub index: u8,
}

/// A map together with the layout it uses.
#[derive(Clone, Copy, Debug, PartialEq, Eq, Structural)]
pub struct MapIdLayout {
    pub group: u8,
    pub index: u8,
    pub layout: u16,
}

/// What to do with a layout whose maps are being deleted.
#[derive(Clone, Copy, Debug, PartialEq, Eq, Structural)]
pub enum LayoutActionType {
    Nothing,
    Clear,
    Delete,
    Change,
}

/// The chosen action for one layout: the maps it affects, and for `Change`
/// the numeral of the layout to change them to.
pub struct LayoutAction {
    pub action: LayoutActionType,
    pub maps: Vec<MapId>,
    pub change_to: String,
}

/// A tileset table entry: where the tileset lives and whether it is a
/// primary one.
#[derive(Clone, Copy, Debug, PartialEq, Eq, Structural)]
pub struct TilesetType {
    pub offset: usize,
    pub is_primary: bool,
}

/// How a newly created map gets its layout: an existing one, or a fresh one
/// with the given shape, tilesets and name.
pub enum MapCreationLayoutOptions {
    Use { layout: u16 },
    New { width: i32, height: i32, tileset1: u32, tileset2: u32, name: String },
}

/// What the host shell reports about a freshly opened resource file.
pub struct OpenRom {
    pub rom_base: String,
    pub rom_size: usize,
    pub rom_size_fmt: String,
}

/// The outcome of planning a deletion: the maps to delete, the map groups
/// to repoint to another layout, and the layouts to delete.
pub struct DeletionPlan {
    pub maps_to_delete: Vec<MapId>,
    pub maps_to_update: Vec<(u16, Vec<MapId>)>,
    pub layouts_to_delete: Vec<u16>,
}

/// The map ids of the deletion request itself, in order.
pub open spec fn spec_initial_deletes(maps: Seq<MapIdLayout>) -> Seq<MapId> {
    Seq::new(maps.len(), |i: int| MapId { group: maps[i].group, index: maps[i].index })
}

/// Whether the numerals of one action entry parse: a `Nothing` entry is
/// keyed by a layout numeral, a `Change` entry carries one.
pub open spec fn action_parses(key: String, a: LayoutAction) -> bool {
    match a.action {
        LayoutActionType::Nothing => valid_u16_numeral(encode_utf8(key@)),
        LayoutActionType::Change => valid_u16_numeral(encode_utf8(a.change_to@)),
        _ => true,
    }
}

/// Whether the first `n` action entries all parse.
pub open spec fn actions_parse_ok(actions: Seq<(String, LayoutAction)>, n: int) -> bool {
    forall|j: int| 0 <= j < n ==> action_parses(#[trigger] actions[j].0, actions[j].1)
}

/// The value of a layout numeral.
pub open spec fn spec_numeral_value(s: String) -> int {
    spec_digits_value(spec_numeral_digits(encode_utf8(s@)))
}

/// The maps to delete after the first `n` actions: the request's own maps,
/// extended by the maps of every `Delete` action, in order.
pub open spec fn spec_deletes(
    base: Seq<MapId>,
    actions: Seq<(String, LayoutAction)>,
    n: int,
) -> Seq<MapId>
    decreases n,
{
    if n <= 0 {
        base
    } else {
        let prev = spec_deletes(base, actions, n - 1);
        if actions[n - 1].1.action is Delete {
            prev + actions[n - 1].1.maps@
        } else {
            prev
        }
    }
}

/// The header updates after the first `n` actions: a `Change` action sends
/// its maps to the layout its numeral names, a `Clear` action to layout 0.
pub open spec fn spec_updates(actions: Seq<(String, LayoutAction)>, n: int) -> Seq<
    (int, Seq<MapId>),
>
    decreases n,
{
    if n <= 0 {
        Seq::empty()
    } else {
        let prev = spec_updates(actions, n - 1);
        let a = actions[n - 1].1;
        match a.action {
            LayoutActionType::Change => prev.push((spec_numeral_value(a.change_to), a.maps@)),
            LayoutActionType::Clear => prev.push((0, a.maps@)),
            _ => prev,
        }
    }
}

/// Whether one of the first `n` actions is a `Nothing` entry keyed by
/// layout `l`, sparing that layout from deletion.
pub open spec fn spec_nothing_spares(
    actions: Seq<(String, LayoutAction)>,
    n: int,
    l: u16,
) -> bool {
    exists|j: int|
        0 <= j < n && (#[trigger] actions[j].1.action) is Nothing && spec_numeral_value(
            actions[j].0,
        ) == l as int
}

/// Whether layout `l` is deleted: some map of the request used it, and no
/// `Nothing` action among the first `n` spared it.
pub open spec fn spec_layout_deleted(
    maps: Seq<MapIdLayout>,
    actions: Seq<(String, LayoutAction)>,
    n: int,
    l: u16,
) -> bool {
    &&& exists|i: int| 0 <= i < maps.len() && (#[trigger] maps[i]).layout == l
    &&& !spec_nothing_spares(actions, n, l)
}

/// Whether a value occurs in the vector.
fn contains_u16(v: &Vec<u16>, l: u16) -> (b: bool)
    ensures
        b == v@.contains(l),
{
    let mut i: usize = 0;
    while i < v.len()
        invariant
            i <= v@.len(),
            forall|j: int| 0 <= j < i ==> v@[j] != l,
        decreases v@.len() - i,
    {
        if v[i] == l {
            return true;
        }
        i += 1;
    }
    false
}

/// Adds a value unless it is already there, keeping entries unique.
fn insert_unique(v: &mut Vec<u16>, l: u16)
    requires
        forall|i: int, j: int|
            0 <= i < old(v)@.len() && 0 <= j < old(v)@.len() && i != j ==> old(v)@[i] != old(
                v,
            )@[j],
    ensures
        forall|i: int, j: int|
            0 <= i < final(v)@.len() && 0 <= j < final(v)@.len() && i != j ==> final(v)@[i]
                != final(v)@[j],
        forall|x: u16| final(v)@.contains(x) <==> old(v)@.contains(x) || x == l,
{
    if !contains_u16(v, l) {
        let ghost before = v@;
        v.push(l);
        proof {
            assert forall|x: u16| v@.contains(x) <==> before.contains(x) || x == l by {
                if before.contains(x) {
                    let w = choose|w: int| 0 <= w < before.len() && before[w] == x;
                    assert(v@[w] == x);
                }
                if x == l {
                    assert(v@[before.len() as int] == x);
                }
                if v@.contains(x) {
                    let w = choose|w: int| 0 <= w < v@.len() && v@[w] == x;
                    if w < before.len() {
                        assert(before[w] == x);
                    }
                }
            }
        }
    }
}

/// Removes a value if it is there; entries stay unique, so afterwards the
/// value is gone and everything else remains.
fn remove_value(v: &mut Vec<u16>, l: u16)
    requires
        forall|i: int, j: int|
            0 <= i < old(v)@.len() && 0 <= j < old(v)@.len() && i != j ==> old(v)@[i] != old(
                v,
            )@[j],
    ensures
        forall|i: int, j: int|
            0 <= i < final(v)@.len() && 0 <= j < final(v)@.len() && i != j ==> final(v)@[i]
                != final(v)@[j],
        forall|x: u16| final(v)@.contains(x) <==> old(v)@.contains(x) && x != l,
{
    let ghost before = v@;
    let mut i: usize = 0;
    while i < v.len()
        invariant
            before == old(v)@,
            v@ == before,
            i <= before.len(),
            forall|j: int| 0 <= j < i ==> before[j] != l,
            forall|a: int, b: int|
                0 <= a < before.len() && 0 <= b < before.len() && a != b ==> before[a]
                    != before[b],
        decreases before.len() - i,
    {
        if v[i] == l {
            v.remove(i);
            proof {
                before.remove_ensures(i as int);
                assert forall|x: u16| v@.contains(x) <==> before.contains(x) && x != l by {
                    if v@.contains(x) {
                        let w = choose|w: int| 0 <= w < v@.len() && v@[w] == x;
                        if w < i {
                            assert(before[w] == x);
                        } else {
                            assert(before[w + 1] == x);
                        }
                        assert(x != l) by {
                            if x == l {
                                let wb = if w < i {
                                    w
                                } else {
                                    w + 1
                                };
                                assert(before[wb] == l && before[i as int] == l && wb
                                    != i as int);
                            }
                        }
                    }
                    if before.contains(x) && x != l {
                        let w = choose|w: int| 0 <= w < before.len() && before[w] == x;
                        if w < i {
                            assert(v@[w] == x);
                        } else {
                            assert(w != i as int);
                            assert(v@[w - 1] == x);
                        }
                    }
                }
                assert forall|a: int, b: int|
                    0 <= a < v@.len() && 0 <= b < v@.len() && a != b implies v@[a] != v@[b] by {
                    let ab = if a < i {
                        a
                    } else {
                        a + 1
                    };
                    let bb = if b < i {
                        b
                    } else {
                        b + 1
                    };
                    assert(v@[a] == before[ab] && v@[b] == before[bb] && ab != bb);
                }
            }
            return ;
        }
        i += 1;
    }
    proof {
        assert forall|x: u16| v@.contains(x) <==> before.contains(x) && x != l by {
            if before.contains(x) {
                let w = choose|w: int| 0 <= w < before.len() && before[w] == x;
                assert(before[w] != l);
            }
        }
    }
}

/// Copies a list of map ids.
fn copy_map_ids(src: &Vec<MapId>) -> (out: Vec<MapId>)
    ensures
        out@ == src@,
{
    let mut out: Vec<MapId> = Vec::new();
    let mut i: usize = 0;
    while i < src.len()
        invariant
            i <= src@.len(),
            out@ == src@.subrange(0, i as int),
        decreases src@.len() - i,
    {
        out.push(src[i]);
        i += 1;
    }
    proof {
        assert(out@ =~= src@);
    }
    out
}

/// Plans a deletion request: the maps named by the request are deleted and
/// their layouts too, except that a `Nothing` action spares its layout, a
/// `Delete` action deletes further maps, and a `Change` or `Clear` action
/// repoints its maps to another layout (the named one, or layout 0). The
/// whole request fails on the first layout numeral that does not parse, and
/// decides nothing.
pub fn plan_map_deletions(
    maps: &Vec<MapIdLayout>,
    actions: &Vec<(String, LayoutAction)>,
) -> (res: Result<DeletionPlan, String>)
    ensures
        res is Ok <==> actions_parse_ok(actions@, actions@.len() as int),
        res matches Ok(plan) ==> {
            let n = actions@.len() as int;
            &&& plan.maps_to_delete@ == spec_deletes(spec_initial_deletes(maps@), actions@, n)
            &&& plan.maps_to_update@.len() == spec_updates(actions@, n).len()
            &&& forall|i: int|
                0 <= i < plan.maps_to_update@.len() ==> (#[trigger] plan.maps_to_update@[i]).0
                    as int == spec_updates(actions@, n)[i].0 && plan.maps_to_update@[i].1@
                    == spec_updates(actions@, n)[i].1
            &&& forall|l: u16|
                plan.layouts_to_delete@.contains(l) <==> spec_layout_deleted(maps@, actions@, n, l)
            &&& forall|i: int, j: int|
                0 <= i < plan.layouts_to_delete@.len() && 0 <= j < plan.layouts_to_delete@.len()
                    && i != j ==> plan.layouts_to_delete@[i] != plan.layouts_to_delete@[j]
        },
{
    let ghost base = spec_initial_deletes(maps@);

    let mut maps_to_delete: Vec<MapId> = Vec::new();
    let mut layouts_to_delete: Vec<u16> = Vec::new();

    let mut i: usize = 0;
    while i < maps.len()
        invariant
            i <= maps@.len(),
            maps_to_delete@.len() == i,
            forall|j: int|
                0 <= j < i ==> #[trigger] maps_to_delete@[j] == (MapId {
                    group: maps@[j].group,
                    index: maps@[j].index,
                }),
            forall|a: int, b: int|
                0 <= a < layouts_to_delete@.len() && 0 <= b < layouts_to_delete@.len() && a != b
                    ==> layouts_to_delete@[a] != layouts_to_delete@[b],
            forall|l: u16|
                layouts_to_delete@.contains(l) <==> exists|j: int|
                    0 <= j < i && (#[trigger] maps@[j]).layout == l,
        decreases maps@.len() - i,
    {
        let m = maps[i];
        maps_to_delete.push(MapId { group: m.group, index: m.index });
        insert_unique(&mut layouts_to_delete, m.layout);
        proof {
            assert forall|l: u16|
                layouts_to_delete@.contains(l) <==> exists|j: int|
                    0 <= j < i + 1 && (#[trigger] maps@[j]).layout == l by {
                if layouts_to_delete@.contains(l) {
                    if l == m.layout {
                        assert(maps@[i as int].layout == l);
                    }
                }
            }
        }
        i += 1;
    }
    proof {
        assert(maps_to_delete@ =~= base);
    }

    let mut maps_to_update: Vec<(u16, Vec<MapId>)> = Vec::new();

    let mut j: usize = 0;
    while j < actions.len()
        invariant
            j <= actions@.len(),
            base == spec_initial_deletes(maps@),
            actions_parse_ok(actions@, j as int),
            maps_to_delete@ == spec_deletes(base, actions@, j as int),
            maps_to_update@.len() == spec_updates(actions@, j as int).len(),
            forall|k: int|
                0 <= k < maps_to_update@.len() ==> (#[trigger] maps_to_update@[k]).0 as int
                    == spec_updates(actions@, j as int)[k].0 && maps_to_update@[k].1@
                    == spec_updates(actions@, j as int)[k].1,
            forall|a: int, b: int|
                0 <= a < layouts_to_delete@.len() && 0 <= b < layouts_to_delete@.len() && a != b
                    ==> layouts_to_delete@[a] != layouts_to_delete@[b],
            forall|l: u16|
                layouts_to_delete@.contains(l) <==> spec_layout_deleted(
                    maps@,
                    actions@,
                    j as int,
                    l,
                ),
        decreases actions@.len() - j,
    {
        let entry = &actions[j];
        let ghost deletes_before = maps_to_delete@;
        match entry.1.action {
            LayoutActionType::Delete => {
                let mut k: usize = 0;
                while k < entry.1.maps.len()
                    invariant
                        k <= entry.1.maps@.len(),
                        j < actions@.len(),
                        entry == &actions@[j as int],
                        maps_to_delete@ == deletes_before + entry.1.maps@.subrange(0, k as int),
                    decreases entry.1.maps@.len() - k,
                {
                    proof {
                        assert(deletes_before + entry.1.maps@.subrange(0, k + 1)
                            =~= (deletes_before + entry.1.maps@.subrange(0, k as int)).push(
                            entry.1.maps@[k as int],
                        ));
                    }
                    maps_to_delete.push(entry.1.maps[k]);
                    k += 1;
                }
                proof {
                    assert(deletes_before + entry.1.maps@.subrange(0, entry.1.maps@.len() as int)
                        =~= deletes_before + entry.1.maps@);
                }
            },
            LayoutActionType::Change => {
                match parse_u16(entry.1.change_to.clone()) {
                    Ok(v) => {
                        maps_to_update.push((v, copy_map_ids(&entry.1.maps)));
                    },
                    Err(e) => {
                        proof {
                            assert(!action_parses(actions@[j as int].0, actions@[j as int].1));
                        }
                        return Err(e);
                    },
                }
            },
            LayoutActionType::Clear => {
                maps_to_update.push((0, copy_map_ids(&entry.1.maps)));
            },
            LayoutActionType::Nothing => {
                match parse_u16(entry.0.clone()) {
                    Ok(v) => {
                        remove_value(&mut layouts_to_delete, v);
                    },
                    Err(e) => {
                        proof {
                            assert(!action_parses(actions@[j as int].0, actions@[j as int].1));
                        }
                        return Err(e);
                    },
                }
            },
        }
        proof {
            lemma_plan_step(maps@, actions@, j as int, layouts_to_delete@);
        }
        j += 1;
    }

    Ok(DeletionPlan { maps_to_delete, maps_to_update, layouts_to_delete })
}

/// One action step keeps the layout-deletion account: an action that is not
/// `Nothing` spares nothing new, and a `Nothing` action spares exactly the
/// layout its key names.
proof fn lemma_plan_step(
    maps: Seq<MapIdLayout>,
    actions: Seq<(String, LayoutAction)>,
    j: int,
    layouts: Seq<u16>,
)
    requires
        0 <= j < actions.len(),
        action_parses(actions[j].0, actions[j].1),
        actions[j].1.action is Nothing ==> forall|l: u16|
            layouts.contains(l) <==> spec_layout_deleted(maps, actions, j, l) && l as int
                != spec_numeral_value(actions[j].0),
        !(actions[j].1.action is Nothing) ==> forall|l: u16|
            layouts.contains(l) <==> spec_layout_deleted(maps, actions, j, l),
    ensures
        forall|l: u16| layouts.contains(l) <==> spec_layout_deleted(maps, actions, j + 1, l),
{
    assert forall|l: u16|
        layouts.contains(l) <==> spec_layout_deleted(maps, actions, j + 1, l) by {
        assert(spec_nothing_spares(actions, j + 1, l) <==> (spec_nothing_spares(actions, j, l)
            || (actions[j].1.action is Nothing && spec_numeral_value(actions[j].0)
            == l as int))) by {
            if spec_nothing_spares(actions, j + 1, l) {
                let w = choose|w: int|
                    0 <= w < j + 1 && (#[trigger] actions[w].1.action) is Nothing
                        && spec_numeral_value(actions[w].0) == l as int;
                if w < j {
                    assert(spec_nothing_spares(actions, j, l));
                }
            }
            if spec_nothing_spares(actions, j, l) {
                let w = choose|w: int|
                    0 <= w < j && (#[trigger] actions[w].1.action) is Nothing
                        && spec_numeral_value(actions[w].0) == l as int;
                assert(0 <= w < j + 1 && actions[w].1.action is Nothing && spec_numeral_value(
                    actions[w].0,
                ) == l as int);
            }
            if actions[j].1.action is Nothing && spec_numeral_value(actions[j].0) == l as int {
                assert(0 <= j < j + 1 && actions[j].1.action is Nothing && spec_numeral_value(
                    actions[j].0,
                ) == l as int);
            }
        }
    }
}

} // verus!
