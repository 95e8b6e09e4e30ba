use vstd::prelude::*;

use crate::direction::Direction;
use crate::text::str_eq;

pub mod path;

verus! {

/// What can go wrong when building or querying a dungeon.
#[derive(Debug)]
pub enum Errors {
    DuplicateRoom(String),
    UnknownRoom(String),
    LineParseError { line_number: usize },
    DirectionParseError(String),
}

/// The mathematical value of an error: names as character sequences.
pub enum ErrorModel {
    DuplicateRoom(Seq<char>),
    UnknownRoom(Seq<char>),
    LineParseError(int),
    DirectionParseError(Seq<char>),
}

impl View for Errors {
    type V = ErrorModel;

    open spec fn view(&self) -> ErrorModel {
        match self {
            Errors::DuplicateRoom(s) => ErrorModel::DuplicateRoom(s@),
            Errors::UnknownRoom(s) => ErrorModel::UnknownRoom(s@),
            Errors::LineParseError { line_number } => ErrorModel::LineParseError(*line_number as int),
            Errors::DirectionParseError(s) => ErrorModel::DirectionParseError(s@),
        }
    }
}

/// The neighbours of one room: at most one name per direction.
pub type Neighbors = Map<Direction, Seq<char>>;

/// The whole graph: each room name with its neighbours.
pub type DungeonModel = Map<Seq<char>, Neighbors>;

/// One room of the dungeon: a name and, for each direction, the name of the neighbour there.
#[derive(Debug)]
pub struct Room {
    pub name: String,
    /// The neighbour's name in each direction, in the slots North, South, East, West.
    pub adj: [Option<String>; 4],
}

impl Room {
    pub open spec fn spec_neighbors(&self) -> Neighbors {
        Map::new(
            |d: Direction| self.adj@[d.spec_slot()] is Some,
            |d: Direction| self.adj@[d.spec_slot()]->Some_0@,
        )
    }

    /// The name of the neighbour in direction `d`, if there is one.
    pub fn neighbor(&self, d: Direction) -> (r: Option<&String>)
        ensures
            r is None <==> !self.spec_neighbors().contains_key(d),
            r matches Some(n) ==> n@ == self.spec_neighbors()[d],
    {
        match &self.adj[d.slot()] {
            Some(n) => Some(n),
            None => None,
        }
    }
}

/// The container of all rooms.
#[derive(Debug)]
pub struct Dungeon {
    rooms: Vec<Room>,
}

/// `model` with the pair of edges `a --d--> b` and `b --opposite(d)--> a` set, in that order.
pub open spec fn linked(model: DungeonModel, a: Seq<char>, d: Direction, b: Seq<char>) -> DungeonModel {
    let mid = model.insert(a, model[a].insert(d, b));
    mid.insert(b, mid[b].insert(d.spec_opposite(), a))
}

/// Every neighbour named in `model` is itself a room of `model`.
pub open spec fn closed(model: DungeonModel) -> bool {
    forall|n: Seq<char>, d: Direction|
        #![trigger model[n][d]]
        model.contains_key(n) && model[n].contains_key(d) ==> model.contains_key(model[n][d])
}

impl Dungeon {
    spec fn has_room_at(&self, i: int, n: Seq<char>) -> bool {
        0 <= i < self.rooms@.len() && self.rooms@[i].name@ == n
    }

    spec fn has_room(&self, n: Seq<char>) -> bool {
        exists|i: int| self.has_room_at(i, n)
    }

    spec fn index_of(&self, n: Seq<char>) -> int {
        choose|i: int| self.has_room_at(i, n)
    }

    /// Each room name with the names of its neighbours.
    pub closed spec fn view(&self) -> DungeonModel {
        Map::new(|n: Seq<char>| self.has_room(n), |n: Seq<char>| self.rooms@[self.index_of(n)].spec_neighbors())
    }

    spec fn unique_names(&self) -> bool {
        forall|i: int, j: int|
            0 <= i < self.rooms@.len() && 0 <= j < self.rooms@.len() && #[trigger] self.rooms@[i].name@
                == #[trigger] self.rooms@[j].name@ ==> i == j
    }

    /// Room names are unique, and every neighbour is a room.
    pub closed spec fn wf(&self) -> bool {
        &&& self.unique_names()
        &&& closed(self@)
    }

    proof fn lemma_index(&self, i: int)
        requires
            self.unique_names(),
            0 <= i < self.rooms@.len(),
        ensures
            self.has_room(self.rooms@[i].name@),
            self.index_of(self.rooms@[i].name@) == i,
            self@.contains_key(self.rooms@[i].name@),
            self@[self.rooms@[i].name@] == self.rooms@[i].spec_neighbors(),
    {
        let n = self.rooms@[i].name@;
        assert(self.has_room_at(i, n));
    }

    proof fn lemma_key(&self, n: Seq<char>)
        requires
            self@.contains_key(n),
        ensures
            self.has_room_at(self.index_of(n), n),
    {
    }

    /// The position of the room called `name`.
    fn find(&self, name: &str) -> (r: Option<usize>)
        requires
            self.wf(),
        ensures
            r is None <==> !self@.contains_key(name@),
            r matches Some(i) ==> i < self.rooms@.len() && self.rooms@[i as int].name@ == name@
                && self.index_of(name@) == i,
    {
        let mut i: usize = 0;
        while i < self.rooms.len()
            invariant
                self.wf(),
                i <= self.rooms@.len(),
                forall|j: int| 0 <= j < i ==> self.rooms@[j].name@ != name@,
            decreases self.rooms@.len() - i,
        {
            if str_eq(self.rooms[i].name.as_str(), name) {
                proof {
                    self.lemma_index(i as int);
                }
                return Some(i);
            }
            i = i + 1;
        }
        None
    }

    /// An empty dungeon, without rooms.
    pub fn new() -> (r: Dungeon)
        ensures
            r.wf(),
            r@ == DungeonModel::empty(),
    {
        let r = Dungeon { rooms: Vec::new() };
        assert(r@ =~= DungeonModel::empty());
        r
    }

    /// Adds a room called `name` with no neighbours; a second room of the same name is refused.
    pub fn add_room(&mut self, name: &str) -> (r: Result<(), Errors>)
        requires
            old(self).wf(),
        ensures
            final(self).wf(),
            old(self)@.contains_key(name@) ==> (r matches Err(e) && e@ == ErrorModel::DuplicateRoom(
                name@,
            ) && final(self)@ == old(self)@),
            !old(self)@.contains_key(name@) ==> r is Ok && final(self)@ == old(self)@.insert(
                name@,
                Neighbors::empty(),
            ),
    {
        if let Some(_) = self.find(name) {
            return Err(Errors::DuplicateRoom(String::from_str(name)));
        }
        let room = Room { name: String::from_str(name), adj: [None, None, None, None] };
        assert(room.spec_neighbors() =~= Neighbors::empty());
        let ghost before = *self;
        self.rooms.push(room);
        proof {
            let n = self.rooms@.len() - 1;
            assert(self.has_room_at(n, name@));
            assert forall|i: int| 0 <= i < before.rooms@.len() implies self.rooms@[i] == before.rooms@[i] by {}
            assert(self.unique_names()) by {
                assert forall|i: int, j: int|
                    0 <= i < self.rooms@.len() && 0 <= j < self.rooms@.len()
                    && #[trigger] self.rooms@[i].name@ == #[trigger] self.rooms@[j].name@ implies i == j by {
                    if i < n {
                        before.lemma_index(i);
                    }
                    if j < n {
                        before.lemma_index(j);
                    }
                }
            }
            assert forall|k: Seq<char>| #[trigger] before@.contains_key(k) implies self@.contains_key(k)
                && self@[k] == before@[k] by {
                let i = before.index_of(k);
                assert(before.has_room_at(i, k));
                before.lemma_index(i);
                self.lemma_index(i);
            }
            self.lemma_index(n);
            assert forall|k: Seq<char>| #[trigger] self@.contains_key(k) implies before@.contains_key(k) || k == name@ by {
                let i = self.index_of(k);
                assert(self.has_room_at(i, k));
                if i < n {
                    assert(before.has_room_at(i, k));
                }
            }
            assert(self@ =~= before@.insert(name@, Neighbors::empty()));
        }
        Ok(())
    }

    /// The room called `name`.
    pub fn get_room(&self, name: &str) -> (r: Result<&Room, Errors>)
        requires
            self.wf(),
        ensures
            self@.contains_key(name@) ==> (r matches Ok(room) && room.name@ == name@
                && room.spec_neighbors() == self@[name@]),
            !self@.contains_key(name@) ==> (r matches Err(e) && e@ == ErrorModel::UnknownRoom(name@)),
    {
        match self.find(name) {
            Some(i) => {
                proof {
                    self.lemma_index(i as int);
                }
                Ok(&self.rooms[i])
            },
            None => Err(Errors::UnknownRoom(String::from_str(name))),
        }
    }

    /// Points slot `d` of the room at position `i` to `target`.
    fn set_neighbor(&mut self, i: usize, d: Direction, target: &str)
        requires
            old(self).wf(),
            i < old(self).rooms@.len(),
            old(self)@.contains_key(target@),
        ensures
            final(self).wf(),
            final(self).rooms@.len() == old(self).rooms@.len(),
            forall|j: int|
                0 <= j < old(self).rooms@.len() ==> #[trigger] final(self).rooms@[j].name@
                    == old(self).rooms@[j].name@,
            final(self)@ == old(self)@.insert(
                old(self).rooms@[i as int].name@,
                old(self)@[old(self).rooms@[i as int].name@].insert(d, target@),
            ),
    {
        let ghost before = *self;
        let ghost name = before.rooms@[i as int].name@;
        proof {
            before.lemma_index(i as int);
        }
        self.rooms[i].adj[d.slot()] = Some(String::from_str(target));
        proof {
            assert(self.rooms@[i as int].spec_neighbors() =~= before@[name].insert(d, target@));
            assert forall|j: int| 0 <= j < self.rooms@.len() && j != i implies self.rooms@[j] == before.rooms@[j] by {}
            assert(self.unique_names()) by {
                assert forall|a: int, b: int|
                    0 <= a < self.rooms@.len() && 0 <= b < self.rooms@.len()
                    && #[trigger] self.rooms@[a].name@ == #[trigger] self.rooms@[b].name@ implies a == b by {
                    before.lemma_index(a);
                    before.lemma_index(b);
                }
            }
            let goal = before@.insert(name, before@[name].insert(d, target@));
            assert forall|k: Seq<char>| #[trigger] goal.contains_key(k) implies self@.contains_key(k)
                && self@[k] == goal[k] by {
                let j = before.index_of(k);
                if k != name {
                    assert(before.has_room_at(j, k));
                    before.lemma_index(j);
                } else {
                    assert(before.has_room_at(i as int, k));
                }
                self.lemma_index(j);
            }
            assert forall|k: Seq<char>| #[trigger] self@.contains_key(k) implies goal.contains_key(k) by {
                let j = self.index_of(k);
                assert(self.has_room_at(j, k));
                assert(before.has_room_at(j, k));
            }
            assert(self@ =~= goal);
            assert(closed(self@)) by {
                assert forall|n: Seq<char>, e: Direction|
                    self@.contains_key(n) && self@[n].contains_key(e) implies self@.contains_key(
                    #[trigger] self@[n][e],
                ) by {
                    if n != name || e != d {
                        assert(before@[n][e] == self@[n][e]);
                    }
                }
            }
        }
    }

    /// Links `name` to `other` in direction `d`, and `other` back to `name` in the opposite
    /// direction. Both rooms must exist; otherwise nothing changes.
    pub fn set_link(&mut self, name: &str, d: Direction, other: &str) -> (r: Result<(), Errors>)
        requires
            old(self).wf(),
        ensures
            final(self).wf(),
            !old(self)@.contains_key(name@) ==> (r matches Err(e) && e@ == ErrorModel::UnknownRoom(
                name@,
            )),
            old(self)@.contains_key(name@) && !old(self)@.contains_key(other@) ==> (r matches Err(e)
                && e@ == ErrorModel::UnknownRoom(other@)),
            r is Err ==> final(self)@ == old(self)@,
            old(self)@.contains_key(name@) && old(self)@.contains_key(other@) ==> r is Ok
                && final(self)@ == linked(old(self)@, name@, d, other@),
    {
        let i = match self.find(name) {
            Some(i) => i,
            None => {
                return Err(Errors::UnknownRoom(String::from_str(name)));
            },
        };
        let j = match self.find(other) {
            Some(j) => j,
            None => {
                return Err(Errors::UnknownRoom(String::from_str(other)));
            },
        };
        self.set_neighbor(i, d, other);
        proof {
            self.lemma_index(j as int);
        }
        self.set_neighbor(j, d.opposite(), name);
        Ok(())
    }

    /// The neighbour of `name` in direction `d`: `None` when there is no link that way.
    pub fn get_next_room(&self, name: &str, d: Direction) -> (r: Result<Option<&Room>, Errors>)
        requires
            self.wf(),
        ensures
            !self@.contains_key(name@) ==> (r matches Err(e) && e@ == ErrorModel::UnknownRoom(name@)),
            self@.contains_key(name@) && !self@[name@].contains_key(d) ==> r matches Ok(None),
            self@.contains_key(name@) && self@[name@].contains_key(d) ==> (r matches Ok(Some(room))
                && room.name@ == self@[name@][d] && room.spec_neighbors() == self@[self@[name@][d]]),
    {
        let i = match self.find(name) {
            Some(i) => i,
            None => {
                return Err(Errors::UnknownRoom(String::from_str(name)));
            },
        };
        proof {
            self.lemma_index(i as int);
        }
        match self.rooms[i].neighbor(d) {
            Some(n) => match self.find(n.as_str()) {
                Some(j) => {
                    proof {
                        self.lemma_index(j as int);
                    }
                    Ok(Some(&self.rooms[j]))
                },
                None => Ok(None),
            },
            None => Ok(None),
        }
    }
}

/// Linking `a` to `b` towards `d` leaves `b` as the neighbour of `a` that way and `a` as the
/// neighbour of `b` the opposite way, also when `a` and `b` are the same room.
pub proof fn lemma_link_symmetric(m: DungeonModel, a: Seq<char>, d: Direction, b: Seq<char>)
    requires
        m.contains_key(a),
        m.contains_key(b),
    ensures
        linked(m, a, d, b).contains_key(a),
        linked(m, a, d, b)[a].contains_key(d),
        linked(m, a, d, b)[a][d] == b,
        linked(m, a, d, b).contains_key(b),
        linked(m, a, d, b)[b].contains_key(d.spec_opposite()),
        linked(m, a, d, b)[b][d.spec_opposite()] == a,
{
    assert(d != d.spec_opposite());
}

/// A room added to a dungeon that lacked it is there, alone under its name and without
/// neighbours; so a second `add_room` of the same name is refused and changes nothing.
pub proof fn lemma_duplicate_rejected(m: DungeonModel, x: Seq<char>)
    requires
        !m.contains_key(x),
    ensures
        m.insert(x, Neighbors::empty()).contains_key(x),
        m.insert(x, Neighbors::empty())[x] == Neighbors::empty(),
        m.insert(x, Neighbors::empty()).dom() == m.dom().insert(x),
{
}

} // verus!
