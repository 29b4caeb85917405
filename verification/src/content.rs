//! What goes into the buildings of a town: the archetypes, the order in which
//! they are handed out, and the tiles of a lot that content may be put on.

use vstd::prelude::*;
use std::collections::HashSet;
use crate::lots::{lemma_index_names_cell, lot_interior, lot_on_grid, Lot};
use crate::map::{cell_x, cell_y, GridMap, Point};

verus! {

broadcast use vstd::std_specs::hash::group_hash_axioms;

/// The kinds of building that a town holds. Each is known to the content
/// registry under its name.
#[derive(Clone, Copy, Debug, PartialEq, Eq, Structural, Hash)]
pub enum Archetype {
    Home,
    Pub,
    AbandonedHouse,
    RipperDocOffice,
    DrugDen,
    AccessRoom,
}

impl Archetype {
    /// The name under which the content registry knows the archetype.
    pub open spec fn name_of(self) -> Seq<char> {
        match self {
            Archetype::Home => "home"@,
            Archetype::Pub => "pub"@,
            Archetype::AbandonedHouse => "abandonedhouse"@,
            Archetype::RipperDocOffice => "ripperdocoffice"@,
            Archetype::DrugDen => "drugden"@,
            Archetype::AccessRoom => "accessroom"@,
        }
    }

    /// Whether the archetype is one of the four that are drawn by lot.
    pub open spec fn named(self) -> bool {
        self == Archetype::Pub || self == Archetype::AbandonedHouse || self
            == Archetype::RipperDocOffice || self == Archetype::DrugDen
    }

    /// The name under which the content registry knows the archetype.
    pub fn name(self) -> (s: String)
        ensures
            s@ == self.name_of(),
    {
        match self {
            Archetype::Home => "home".to_string(),
            Archetype::Pub => "pub".to_string(),
            Archetype::AbandonedHouse => "abandonedhouse".to_string(),
            Archetype::RipperDocOffice => "ripperdocoffice".to_string(),
            Archetype::DrugDen => "drugden".to_string(),
            Archetype::AccessRoom => "accessroom".to_string(),
        }
    }
}

/// The four archetypes that are drawn by lot, in the order of the list they
/// are drawn from.
pub open spec fn named_archetypes() -> Seq<Archetype> {
    seq![
        Archetype::Pub,
        Archetype::AbandonedHouse,
        Archetype::RipperDocOffice,
        Archetype::DrugDen,
    ]
}

/// The archetype at place `pick` of the list of the four.
pub fn named_archetype(pick: usize) -> (a: Archetype)
    requires
        pick < 4,
    ensures
        a == named_archetypes()[pick as int],
        a.named(),
{
    if pick == 0 {
        Archetype::Pub
    } else if pick == 1 {
        Archetype::AbandonedHouse
    } else if pick == 2 {
        Archetype::RipperDocOffice
    } else {
        Archetype::DrugDen
    }
}

/// The order in which archetypes are handed out to the lots of a town.
///
/// The first lot is the home. After it the four named archetypes go out,
/// each once, in an order that the picks decide. When they are used up the
/// next lot is the access room. Every lot after that gets one of the four
/// again, and the same one may come more than once.
#[derive(Debug)]
pub struct ArchetypeDeck {
    pub remaining: Vec<Archetype>,
    pub home_dealt: bool,
    pub access_dealt: bool,
}

impl ArchetypeDeck {
    /// Well-formedness: what is left to draw are named archetypes, none of
    /// them twice, and the deck is in one of the states that dealing leads to.
    pub open spec fn wf(&self) -> bool {
        &&& self.remaining@.no_duplicates()
        &&& forall|j: int| 0 <= j < self.remaining@.len() ==> (#[trigger] self.remaining@[j]).named()
        &&& (self.remaining@.len() <= 4)
        &&& (!self.home_dealt ==> self.remaining@ == named_archetypes() && !self.access_dealt)
        &&& (self.access_dealt ==> self.remaining@.len() == 0)
    }

    /// From how many options the next archetype is picked; 0 where nothing is
    /// left to pick.
    pub open spec fn choices(&self) -> int {
        if !self.home_dealt {
            0
        } else if self.remaining@.len() > 1 {
            self.remaining@.len() as int
        } else if self.remaining@.len() == 1 {
            0
        } else if !self.access_dealt {
            0
        } else {
            4
        }
    }

    /// The archetype that goes out next when the pick is `pick`.
    pub open spec fn next(&self, pick: int) -> Archetype {
        if !self.home_dealt {
            Archetype::Home
        } else if self.remaining@.len() > 1 {
            self.remaining@[pick]
        } else if self.remaining@.len() == 1 {
            self.remaining@[0]
        } else if !self.access_dealt {
            Archetype::AccessRoom
        } else {
            named_archetypes()[pick]
        }
    }

    /// A full deck: nothing has been handed out.
    pub fn new() -> (deck: ArchetypeDeck)
        ensures
            deck.wf(),
            !deck.home_dealt,
            !deck.access_dealt,
            deck.remaining@ == named_archetypes(),
    {
        let mut remaining: Vec<Archetype> = Vec::new();
        remaining.push(Archetype::Pub);
        remaining.push(Archetype::AbandonedHouse);
        remaining.push(Archetype::RipperDocOffice);
        remaining.push(Archetype::DrugDen);
        assert(remaining@ =~= named_archetypes());
        ArchetypeDeck { remaining, home_dealt: false, access_dealt: false }
    }

    /// From how many options the next archetype is picked; 0 where nothing is
    /// left to pick.
    pub fn pick_range(&self) -> (n: usize)
        requires
            self.wf(),
        ensures
            n == self.choices(),
            n <= 4,
    {
        if !self.home_dealt {
            0
        } else if self.remaining.len() > 1 {
            self.remaining.len()
        } else if self.remaining.len() == 1 {
            0
        } else if !self.access_dealt {
            0
        } else {
            4
        }
    }

    /// Hands out the next archetype. Where there is a choice, `pick` says
    /// which of the options it is; where there is none, `pick` is ignored.
    pub fn deal(&mut self, pick: usize) -> (a: Archetype)
        requires
            old(self).wf(),
            old(self).choices() > 0 ==> pick < old(self).choices(),
        ensures
            final(self).wf(),
            a == old(self).next(pick as int),
            final(self).home_dealt,
            final(self).access_dealt == (old(self).home_dealt && old(self).remaining@.len() == 0),
            final(self).remaining@ == if old(self).home_dealt && old(self).remaining@.len() > 0 {
                old(self).remaining@.remove(
                    if old(self).remaining@.len() > 1 {
                        pick as int
                    } else {
                        0
                    },
                )
            } else {
                old(self).remaining@
            },
            old(self).home_dealt && old(self).remaining@.len() > 0 ==> a.named() && old(
                self,
            ).remaining@.contains(a) && !final(self).remaining@.contains(a),
            forall|b: Archetype|
                final(self).remaining@.contains(b) ==> old(self).remaining@.contains(b),
    {
        if !self.home_dealt {
            self.home_dealt = true;
            Archetype::Home
        } else if self.remaining.len() > 0 {
            let at: usize = if self.remaining.len() > 1 {
                pick
            } else {
                0
            };
            let ghost before = self.remaining@;
            let a: Archetype = self.remaining.remove(at);
            proof {
                let after = self.remaining@;
                before.remove_ensures(at as int);
                assert forall|j: int| 0 <= j < after.len() implies after[j] == before[if j < at {
                    j
                } else {
                    j + 1
                }] by {}
                assert(after.no_duplicates());
                assert(before[at as int] == a);
                assert forall|b: Archetype| after.contains(b) implies before.contains(b) by {
                    let j = choose|j: int| 0 <= j < after.len() && after[j] == b;
                    assert(before[if j < at {
                        j
                    } else {
                        j + 1
                    }] == b);
                }
            }
            a
        } else if !self.access_dealt {
            self.access_dealt = true;
            Archetype::AccessRoom
        } else {
            named_archetype(pick)
        }
    }
}

/// Which archetypes the lot at place `position` of a town can get: the first
/// lot is the home, the next four get the four named archetypes, the sixth
/// is the access room, and every further lot gets a named archetype again.
pub open spec fn archetype_fits(position: int, a: Archetype) -> bool {
    if position == 0 {
        a == Archetype::Home
    } else if position == 5 {
        a == Archetype::AccessRoom
    } else {
        a.named()
    }
}

/// The place in the list of lots of the lot that becomes the access room,
/// whose middle tile is the way down.
pub const ACCESS_ROOM_LOT: usize = 5;

/// What the content registry is asked to fill one building with: the
/// archetype to look up, and the tiles that the content may be put on.
#[derive(Debug)]
pub struct ContentRequest {
    pub archetype: Archetype,
    pub tiles: HashSet<usize>,
}

/// The tiles strictly inside a lot: its footprint without the boundary ring.
pub open spec fn interior_of(width: int, height: int, lot: Lot) -> Set<usize> {
    Set::new(
        |i: usize|
            0 <= i < width * height && lot_interior(
                lot,
                cell_x(width, i as int),
                cell_y(width, i as int),
            ),
    )
}

/// The cell in the middle of a lot.
pub open spec fn lot_center(lot: Lot) -> Point {
    Point { x: (lot.0 + lot.2 / 2) as i32, y: (lot.1 + lot.3 / 2) as i32 }
}

/// The cell in the middle of a lot.
pub fn center_of(lot: Lot) -> (p: Point)
    requires
        0 <= lot.0,
        0 <= lot.1,
        0 < lot.2,
        0 < lot.3,
        lot.0 + lot.2 <= i32::MAX,
        lot.1 + lot.3 <= i32::MAX,
    ensures
        p == lot_center(lot),
        lot.0 <= p.x < lot.0 + lot.2,
        lot.1 <= p.y < lot.1 + lot.3,
{
    Point::new(lot.0 + lot.2 / 2, lot.1 + lot.3 / 2)
}

/// Collects the tiles strictly inside a lot.
pub fn interior_tiles(map: &GridMap, lot: Lot) -> (tiles: HashSet<usize>)
    requires
        map.wf(),
        lot_on_grid(map.map_width as int, map.map_height as int, lot),
    ensures
        tiles@ == interior_of(map.map_width as int, map.map_height as int, lot),
{
    let (bx, by, bw, bh) = lot;
    let ghost w = map.map_width as int;
    let ghost h = map.map_height as int;
    let mut tiles: HashSet<usize> = HashSet::new();
    let mut y: i32 = by + 1;
    proof {
        assert(map.map@.len() == map.map.len());
    }
    while y < by + bh - 1
        invariant
            map.wf(),
            lot == (bx, by, bw, bh),
            lot_on_grid(w, h, lot),
            w == map.map_width,
            h == map.map_height,
            w * h <= usize::MAX,
            by + 1 <= y,
            forall|i: usize| #[trigger]
                tiles@.contains(i) <==> 0 <= i < w * h && lot_interior(
                    lot,
                    cell_x(w, i as int),
                    cell_y(w, i as int),
                ) && cell_y(w, i as int) < y,
        decreases by + bh - y,
    {
        let mut x: i32 = bx + 1;
        while x < bx + bw - 1
            invariant
                map.wf(),
                lot == (bx, by, bw, bh),
                lot_on_grid(w, h, lot),
                w == map.map_width,
                h == map.map_height,
                w * h <= usize::MAX,
                by + 1 <= y < by + bh - 1,
                bx + 1 <= x,
                forall|i: usize| #[trigger]
                    tiles@.contains(i) <==> 0 <= i < w * h && lot_interior(
                        lot,
                        cell_x(w, i as int),
                        cell_y(w, i as int),
                    ) && (cell_y(w, i as int) < y || (cell_y(w, i as int) == y && cell_x(
                        w,
                        i as int,
                    ) < x)),
            decreases bx + bw - x,
        {
            let idx: usize = map.xy_idx(x, y);
            tiles.insert(idx);
            proof {
                assert forall|i: usize| #[trigger]
                    tiles@.contains(i) <==> 0 <= i < w * h && lot_interior(
                        lot,
                        cell_x(w, i as int),
                        cell_y(w, i as int),
                    ) && (cell_y(w, i as int) < y || (cell_y(w, i as int) == y && cell_x(
                        w,
                        i as int,
                    ) < x + 1)) by {
                    if i < w * h {
                        lemma_index_names_cell(w, h, x as int, y as int, i as int);
                    }
                }
            }
            x = x + 1;
        }
        y = y + 1;
    }
    proof {
        assert(tiles@ =~= interior_of(w, h, lot));
    }
    tiles
}

} // verus!
