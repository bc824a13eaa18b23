//! The tile component store: an in-memory registry from quadkey to tile
//! identity and an ordered list of per-tile components, with a query API
//! whose composite form checks exclusive-borrow aliasing at runtime.
//!
//! Spawning is idempotent: a second spawn at the same coordinate hands
//! back the existing entry with its components untouched.

use vstd::prelude::*;
use crate::coords::Quadkey;
use crate::coords::WorldTileCoords;
use crate::expression::LegacyFilterExpression;
use crate::expression::contains_string;
use crate::expression::str_list_contains;
use crate::strutil::str_eq;
use crate::tessellation::GeomEvent;
use crate::tessellation::GeomEventV;
use crate::tessellation::MeshBuffer;
use crate::tessellation::PathPoint;
use crate::tessellation::ZeroTessellator;
use crate::tessellation::tess_init;
use crate::tessellation::tess_run;

verus! {

/// The identity record of a stored tile.
#[derive(Clone, Copy, Debug, PartialEq, Eq, Structural)]
pub struct Tile {
    pub coords: WorldTileCoords,
}

/// A tessellated style layer ready for upload.
#[derive(Debug)]
pub struct AvailableVectorLayerData {
    pub coords: WorldTileCoords,
    pub buffer: MeshBuffer,
    pub feature_indices: Vec<u32>,
    pub style_layer_id: String,
}

/// A per-layer tessellation result: available, or missing by name.
#[derive(Debug)]
pub enum VectorLayerData {
    Available(AvailableVectorLayerData),
    Missing(String),
}

/// The vector-layer results attached to one tile.
#[derive(Debug)]
pub struct VectorLayersDataComponent {
    pub done: bool,
    pub layers: Vec<VectorLayerData>,
}

/// A component value attachable to a tile: a closed sum of the known
/// component kinds.
#[derive(Debug)]
pub enum TileComponent {
    VectorLayers(VectorLayersDataComponent),
}

/// The runtime tag of a component kind.
#[derive(Clone, Copy, Debug, PartialEq, Eq, Structural)]
pub enum ComponentKind {
    VectorLayers,
}

/// The kind a component value carries.
pub open spec fn kind_of(c: &TileComponent) -> ComponentKind {
    match c {
        TileComponent::VectorLayers(_) => ComponentKind::VectorLayers,
    }
}

/// Reads a component's kind tag.
pub fn component_kind(c: &TileComponent) -> (r: ComponentKind)
    ensures
        r == kind_of(c),
{
    match c {
        TileComponent::VectorLayers(_) => ComponentKind::VectorLayers,
    }
}

/// One stored tile: its identity and its ordered component list.
#[derive(Debug)]
pub struct TileEntry {
    pub tile: Tile,
    pub components: Vec<TileComponent>,
}

/// The store: an association from quadkey digits to tile entries, plus
/// the precomputed full-extent background layer.
#[derive(Debug)]
pub struct Tiles {
    pub entries: Vec<(Quadkey, TileEntry)>,
    pub background_tile: AvailableVectorLayerData,
}

/// The map an entry list denotes; a later entry would override an
/// earlier one of the same key, but keys are kept unique.
spec fn tiles_map(s: Seq<(Quadkey, TileEntry)>) -> Map<Seq<u8>, TileEntry>
    decreases s.len(),
{
    if s.len() == 0 {
        Map::empty()
    } else {
        tiles_map(s.drop_last()).insert(s.last().0.digits@, s.last().1)
    }
}

/// With unique keys, each entry is present in the denoted map.
proof fn lemma_tiles_map_index(s: Seq<(Quadkey, TileEntry)>, i: int)
    requires
        0 <= i < s.len(),
        forall|p: int, q: int| 0 <= p < q < s.len() ==> s[p].0.digits@ != s[q].0.digits@,
    ensures
        tiles_map(s).contains_key(s[i].0.digits@),
        tiles_map(s)[s[i].0.digits@] == s[i].1,
    decreases s.len(),
{
    if i < s.len() - 1 {
        assert(s.drop_last()[i] == s[i]);
        lemma_tiles_map_index(s.drop_last(), i);
        assert(s[i].0.digits@ != s.last().0.digits@);
    }
}

/// A key matching no entry is absent from the denoted map.
proof fn lemma_tiles_map_absent(s: Seq<(Quadkey, TileEntry)>, k: Seq<u8>)
    requires
        forall|i: int| 0 <= i < s.len() ==> s[i].0.digits@ != k,
    ensures
        !tiles_map(s).contains_key(k),
    decreases s.len(),
{
    if s.len() > 0 {
        assert(forall|i: int| 0 <= i < s.drop_last().len() ==> s.drop_last()[i] == s[i]);
        lemma_tiles_map_absent(s.drop_last(), k);
    }
}

impl View for Tiles {
    type V = Map<Seq<u8>, TileEntry>;

    closed spec fn view(&self) -> Map<Seq<u8>, TileEntry> {
        tiles_map(self.entries@)
    }
}

/// The index of the first component of the kind, if any.
pub open spec fn find_component(s: Seq<TileComponent>, kind: ComponentKind) -> Option<int>
    decreases s.len(),
{
    if s.len() == 0 {
        None
    } else if kind_of(&s[0]) == kind {
        Some(0)
    } else {
        match find_component(s.drop_first(), kind) {
            Some(i) => Some(i + 1),
            None => None,
        }
    }
}

/// A handle to a spawned tile entry, used to attach components.
#[derive(Clone, Copy, Debug)]
pub struct TileSpawnResult {
    pub tile: Tile,
}

impl TileSpawnResult {
    /// Appends a component to the spawned tile's component list.
    pub fn insert(&self, tiles: &mut Tiles, component: TileComponent)
        requires
            old(tiles).wf(),
            self.tile.coords.is_valid(),
            old(tiles)@.contains_key(self.tile.coords.quadkey_digits()),
        ensures
            final(tiles).wf(),
            final(tiles)@.dom() == old(tiles)@.dom(),
            final(tiles)@[self.tile.coords.quadkey_digits()].tile == old(
                tiles,
            )@[self.tile.coords.quadkey_digits()].tile,
            final(tiles)@[self.tile.coords.quadkey_digits()].components@ == old(
                tiles,
            )@[self.tile.coords.quadkey_digits()].components@.push(component),
            forall|k: Seq<u8>| k != self.tile.coords.quadkey_digits()
                && old(tiles)@.contains_key(k) ==> final(tiles)@[k] == old(tiles)@[k],
            final(tiles).background_tile == old(tiles).background_tile,
    {
        tiles.attach(self.tile.coords, component);
    }
}

impl Tiles {
    /// Keys are unique and well-formed quadkeys.
    pub closed spec fn wf(&self) -> bool {
        &&& forall|p: int, q: int| 0 <= p < q < self.entries@.len()
            ==> self.entries@[p].0.digits@ != self.entries@[q].0.digits@
        &&& forall|i: int| 0 <= i < self.entries@.len() ==> (#[trigger] self.entries@[i].0).is_valid()
    }

    /// An empty store around a given background layer.
    pub fn new(background_tile: AvailableVectorLayerData) -> (r: Tiles)
        ensures
            r.wf(),
            r@ == Map::<Seq<u8>, TileEntry>::empty(),
            r.background_tile == background_tile,
    {
        Tiles { entries: Vec::new(), background_tile }
    }

    /// Looks a quadkey up.
    fn entry_index(&self, key: &Quadkey) -> (r: Option<usize>)
        requires
            self.wf(),
        ensures
            match r {
                Some(i) => i < self.entries@.len() && self.entries@[i as int].0.digits@
                    == key.digits@ && self@.contains_key(key.digits@)
                    && self@[key.digits@] == self.entries@[i as int].1,
                None => !self@.contains_key(key.digits@),
            },
    {
        let n = self.entries.len();
        let mut i: usize = 0;
        while i < n
            invariant
                self.wf(),
                n == self.entries@.len(),
                i <= n,
                forall|j: int| 0 <= j < i ==> self.entries@[j].0.digits@ != key.digits@,
            decreases n - i,
        {
            if self.entries[i].0.key_eq(key) {
                proof {
                    lemma_tiles_map_index(self.entries@, i as int);
                }
                return Some(i);
            }
            i = i + 1;
        }
        proof {
            lemma_tiles_map_absent(self.entries@, key.digits@);
        }
        None
    }

    /// True when a tile is stored at the coordinate.
    pub fn tile_exists(&self, coords: WorldTileCoords) -> (r: bool)
        requires
            self.wf(),
        ensures
            r == (coords.is_valid() && self@.contains_key(coords.quadkey_digits())),
    {
        if let Some(key) = coords.build_quad_key() {
            self.entry_index(&key).is_some()
        } else {
            false
        }
    }

    /// Spawns a tile entry at the coordinate: idempotent, the existing
    /// entry (components untouched) is handed back when one is there.
    pub fn spawn_mut(&mut self, coords: WorldTileCoords) -> (r: Option<TileSpawnResult>)
        requires
            old(self).wf(),
        ensures
            final(self).wf(),
            final(self).background_tile == old(self).background_tile,
            match r {
                Some(h) => coords.is_valid() && (
                    if old(self)@.contains_key(coords.quadkey_digits()) {
                        final(self)@ == old(self)@ && h.tile
                            == old(self)@[coords.quadkey_digits()].tile
                    } else {
                        h.tile == (Tile { coords }) && final(self)@.dom()
                            == old(self)@.dom().insert(coords.quadkey_digits())
                            && final(self)@[coords.quadkey_digits()].tile == (Tile { coords })
                            && final(self)@[coords.quadkey_digits()].components@
                            == Seq::<TileComponent>::empty()
                            && forall|k: Seq<u8>| k != coords.quadkey_digits()
                                && old(self)@.contains_key(k) ==> final(self)@[k] == old(self)@[k]
                    }),
                None => !coords.is_valid() && final(self)@ == old(self)@,
            },
    {
        let key = match coords.build_quad_key() {
            Some(key) => key,
            None => {
                return None;
            },
        };
        match self.entry_index(&key) {
            Some(i) => {
                let tile = self.entries[i].1.tile;
                Some(TileSpawnResult { tile })
            },
            None => {
                let tile = Tile { coords };
                proof {
                    crate::coords::lemma_quad_key_valid(coords, key);
                    assert forall|ix: int| 0 <= ix < self.entries@.len()
                        implies self.entries@[ix].0.digits@ != key.digits@ by {
                        if self.entries@[ix].0.digits@ == key.digits@ {
                            lemma_tiles_map_index(self.entries@, ix);
                        }
                    }
                }
                self.entries.push((key, TileEntry { tile, components: Vec::new() }));
                proof {
                    assert(self.entries@.drop_last() =~= old(self).entries@);
                    assert(self@.dom() =~= old(self)@.dom().insert(coords.quadkey_digits()));
                }
                Some(TileSpawnResult { tile })
            },
        }
    }

    /// Appends a component to the tile stored at the coordinate.
    pub fn attach(&mut self, coords: WorldTileCoords, component: TileComponent)
        requires
            old(self).wf(),
            coords.is_valid(),
            old(self)@.contains_key(coords.quadkey_digits()),
        ensures
            final(self).wf(),
            final(self).background_tile == old(self).background_tile,
            final(self)@.dom() == old(self)@.dom(),
            final(self)@[coords.quadkey_digits()].tile == old(
                self,
            )@[coords.quadkey_digits()].tile,
            final(self)@[coords.quadkey_digits()].components@ == old(
                self,
            )@[coords.quadkey_digits()].components@.push(component),
            forall|k: Seq<u8>| k != coords.quadkey_digits() && old(self)@.contains_key(k)
                ==> final(self)@[k] == old(self)@[k],
    {
        let key = match coords.build_quad_key() {
            Some(key) => key,
            None => {
                proof {
                    assert(false);
                }
                return;
            },
        };
        let i = match self.entry_index(&key) {
            Some(i) => i,
            None => {
                proof {
                    assert(false);
                }
                return;
            },
        };
        let ghost before = self.entries@;
        let entry = &mut self.entries[i];
        entry.1.components.push(component);
        proof {
            lemma_tiles_set_entry(before, self.entries@, i as int);
        }
    }

    /// The first component of the kind stored at the coordinate.
    #[verifier::loop_isolation(false)]
    pub fn query(&self, coords: WorldTileCoords, kind: ComponentKind) -> (r: Option<
        &TileComponent,
    >)
        requires
            self.wf(),
        ensures
            match r {
                Some(c) => coords.is_valid() && self@.contains_key(coords.quadkey_digits())
                    && (find_component(
                    self@[coords.quadkey_digits()].components@,
                    kind,
                ) matches Some(ix) && *c == self@[coords.quadkey_digits()].components@[ix]),
                None => !coords.is_valid() || !self@.contains_key(coords.quadkey_digits())
                    || find_component(self@[coords.quadkey_digits()].components@, kind) is None,
            },
    {
        let key = match coords.build_quad_key() {
            Some(key) => key,
            None => {
                return None;
            },
        };
        let i = match self.entry_index(&key) {
            Some(i) => i,
            None => {
                return None;
            },
        };
        let components = &self.entries[i].1.components;
        let n = components.len();
        let mut j: usize = 0;
        while j < n
            invariant
                n == components@.len(),
                j <= n,
                forall|q: int| 0 <= q < j ==> kind_of(&components@[q]) != kind,
                find_component(components@, kind) == match find_component(
                    components@.skip(j as int),
                    kind,
                ) {
                    Some(ix) => Some(ix + j),
                    None => None::<int>,
                },
            decreases n - j,
        {
            proof {
                assert(components@.skip(j as int)[0] == components@[j as int]);
                assert(components@.skip(j as int).drop_first() =~= components@.skip(j + 1));
            }
            if component_kind(&components[j]) == kind {
                proof {
                    assert(find_component(components@.skip(j as int), kind) == Some(0int));
                    assert(find_component(components@, kind) == Some(j as int));
                }
                return Some(&components[j]);
            }
            j = j + 1;
        }
        proof {
            assert(components@.skip(n as int).len() == 0);
        }
        None
    }

    /// Like [`Tiles::query`], from an exclusively borrowed store: the
    /// caller holds the only access while the borrow lives.
    pub fn query_mut(&mut self, coords: WorldTileCoords, kind: ComponentKind) -> (r: Option<
        &TileComponent,
    >)
        requires
            old(self).wf(),
        ensures
            *final(self) == *old(self),
            final(self).wf(),
            match r {
                Some(c) => coords.is_valid() && final(self)@.contains_key(
                    coords.quadkey_digits(),
                ) && (find_component(
                    final(self)@[coords.quadkey_digits()].components@,
                    kind,
                ) matches Some(ix) && *c == final(self)@[coords.quadkey_digits()].components@[ix]),
                None => !coords.is_valid() || !final(self)@.contains_key(coords.quadkey_digits())
                    || find_component(
                    final(self)@[coords.quadkey_digits()].components@,
                    kind,
                ) is None,
            },
    {
        self.query(coords, kind)
    }

    /// Empties the store; the background layer stays.
    pub fn clear(&mut self)
        ensures
            final(self).wf(),
            final(self)@ == Map::<Seq<u8>, TileEntry>::empty(),
            final(self).background_tile == old(self).background_tile,
    {
        self.entries.clear();
    }
}

/// Re-binding entry `i` with the same key denotes the map with that key
/// re-bound.
proof fn lemma_tiles_set_entry(
    old_s: Seq<(Quadkey, TileEntry)>,
    new_s: Seq<(Quadkey, TileEntry)>,
    i: int,
)
    requires
        0 <= i < old_s.len(),
        new_s.len() == old_s.len(),
        forall|j: int| 0 <= j < old_s.len() && j != i ==> new_s[j] == old_s[j],
        new_s[i].0.digits@ == old_s[i].0.digits@,
        forall|p: int, q: int| 0 <= p < q < old_s.len() ==> old_s[p].0.digits@ != old_s[q].0.digits@,
    ensures
        tiles_map(new_s) == tiles_map(old_s).insert(new_s[i].0.digits@, new_s[i].1),
    decreases old_s.len(),
{
    if i == old_s.len() - 1 {
        assert(new_s.drop_last() =~= old_s.drop_last());
        assert(tiles_map(new_s) =~= tiles_map(old_s).insert(new_s[i].0.digits@, new_s[i].1));
    } else {
        assert(forall|j: int| 0 <= j < old_s.len() - 1 && j != i
            ==> new_s.drop_last()[j] == old_s.drop_last()[j]);
        assert(new_s.drop_last()[i] == new_s[i]);
        assert(old_s.drop_last()[i] == old_s[i]);
        lemma_tiles_set_entry(old_s.drop_last(), new_s.drop_last(), i);
        assert(new_s.last() == old_s.last());
        assert(old_s[i].0.digits@ != old_s.last().0.digits@);
        assert(tiles_map(new_s) =~= tiles_map(old_s).insert(new_s[i].0.digits@, new_s[i].1));
    }
}

/// A second exclusive borrow of one component kind inside a single query
/// session was attempted.
#[derive(Clone, Copy, Debug, PartialEq, Eq, Structural)]
pub struct AliasingViolation;

/// One component request of a composite query.
#[derive(Clone, Copy, Debug, PartialEq, Eq, Structural)]
pub struct ComponentQuery {
    pub kind: ComponentKind,
    pub exclusive: bool,
}

/// The borrow bookkeeping of one query session.
#[derive(Debug)]
pub struct GlobalQueryState {
    pub mutably_borrowed: Vec<ComponentKind>,
}

/// Read access to a session's exclusively borrowed kinds.
pub trait QueryState {
    /// The kinds exclusively borrowed so far.
    spec fn borrowed(&self) -> Seq<ComponentKind>;
}

impl QueryState for GlobalQueryState {
    open spec fn borrowed(&self) -> Seq<ComponentKind> {
        self.mutably_borrowed@
    }
}

/// True when the kind is among the borrowed ones.
pub open spec fn kind_borrowed(borrowed: Seq<ComponentKind>, kind: ComponentKind) -> bool {
    exists|i: int| 0 <= i < borrowed.len() && borrowed[i] == kind
}

/// What one query session over a component list yields, request by
/// request: a second exclusive request of an already exclusively borrowed
/// kind faults; otherwise the first absent component makes the whole
/// composite yield nothing; else the indices of all the found components.
pub open spec fn composite_spec(
    components: Seq<TileComponent>,
    requests: Seq<ComponentQuery>,
    borrowed: Seq<ComponentKind>,
) -> Result<Option<Seq<int>>, AliasingViolation>
    decreases requests.len(),
{
    if requests.len() == 0 {
        Ok(Some(Seq::empty()))
    } else {
        let q = requests[0];
        if q.exclusive && kind_borrowed(borrowed, q.kind) {
            Err(AliasingViolation)
        } else {
            let borrowed2 = if q.exclusive {
                borrowed.push(q.kind)
            } else {
                borrowed
            };
            match find_component(components, q.kind) {
                None => Ok(None),
                Some(ix) => match composite_spec(components, requests.drop_first(), borrowed2) {
                    Ok(Some(rest)) => Ok(Some(seq![ix] + rest)),
                    other => other,
                },
            }
        }
    }
}

/// The index of the first available layer with the style layer id that
/// is not already loaded.
pub open spec fn find_avail(
    s: Seq<VectorLayerData>,
    id: Seq<char>,
    loaded: Seq<String>,
) -> Option<int>
    decreases s.len(),
{
    if s.len() == 0 {
        None
    } else {
        let head_hit = match s[0] {
            VectorLayerData::Available(data) => data.style_layer_id@ == id && !str_list_contains(
                loaded,
                data.style_layer_id@,
            ),
            VectorLayerData::Missing(_) => false,
        };
        if head_hit {
            Some(0)
        } else {
            match find_avail(s.drop_first(), id, loaded) {
                Some(i) => Some(i + 1),
                None => None,
            }
        }
    }
}

impl Tiles {
    /// Runs a composite query session against the tile at the
    /// coordinate: all-or-nothing component indices, with a runtime fault
    /// on a second exclusive request of the same kind.
    #[verifier::loop_isolation(false)]
    pub fn query_composite(&self, coords: WorldTileCoords, requests: &Vec<ComponentQuery>) -> (r:
        Result<Option<Vec<usize>>, AliasingViolation>)
        requires
            self.wf(),
        ensures
            !(coords.is_valid() && self@.contains_key(coords.quadkey_digits())) ==> (r
                matches Ok(o) && o is None),
            (coords.is_valid() && self@.contains_key(coords.quadkey_digits())) ==> match r {
                Err(v) => composite_spec(
                    self@[coords.quadkey_digits()].components@,
                    requests@,
                    Seq::empty(),
                ) == Err::<Option<Seq<int>>, AliasingViolation>(v),
                Ok(None) => composite_spec(
                    self@[coords.quadkey_digits()].components@,
                    requests@,
                    Seq::empty(),
                ) == Ok::<Option<Seq<int>>, AliasingViolation>(None),
                Ok(Some(idxs)) => composite_spec(
                    self@[coords.quadkey_digits()].components@,
                    requests@,
                    Seq::empty(),
                ) == Ok::<Option<Seq<int>>, AliasingViolation>(
                    Some(idxs@.map_values(|u: usize| u as int)),
                ),
            },
    {
        let key = match coords.build_quad_key() {
            Some(key) => key,
            None => {
                return Ok(None);
            },
        };
        let i = match self.entry_index(&key) {
            Some(i) => i,
            None => {
                return Ok(None);
            },
        };
        let components = &self.entries[i].1.components;
        let mut state = GlobalQueryState { mutably_borrowed: Vec::new() };
        let mut idxs: Vec<usize> = Vec::new();
        let nr = requests.len();
        let mut k: usize = 0;
        proof {
            assert(requests@.skip(0) =~= requests@);
            assert(idxs@.map_values(|u: usize| u as int) =~= Seq::<int>::empty());
        }
        while k < nr
            invariant
                k <= nr == requests@.len(),
                composite_spec(components@, requests@, Seq::empty()) == match composite_spec(
                    components@,
                    requests@.skip(k as int),
                    state.mutably_borrowed@,
                ) {
                    Ok(Some(rest)) => Ok::<Option<Seq<int>>, AliasingViolation>(
                        Some(idxs@.map_values(|u: usize| u as int) + rest),
                    ),
                    other => other,
                },
            decreases nr - k,
        {
            proof {
                assert(requests@.skip(k as int)[0] == requests@[k as int]);
                assert(requests@.skip(k as int).drop_first() =~= requests@.skip(k + 1));
            }
            let q = requests[k];
            if q.exclusive {
                let nb = state.mutably_borrowed.len();
                let mut b: usize = 0;
                let mut seen = false;
                while b < nb
                    invariant
                        b <= nb == state.mutably_borrowed@.len(),
                        seen ==> kind_borrowed(state.mutably_borrowed@, q.kind),
                        !seen ==> forall|t: int| 0 <= t < b
                            ==> state.mutably_borrowed@[t] != q.kind,
                    decreases nb - b,
                {
                    if state.mutably_borrowed[b] == q.kind {
                        seen = true;
                        break;
                    }
                    b = b + 1;
                }
                if seen {
                    return Err(AliasingViolation);
                }
                proof {
                    assert(!kind_borrowed(state.mutably_borrowed@, q.kind));
                }
                state.mutably_borrowed.push(q.kind);
            }
            let found = find_component_exec(components, q.kind);
            match found {
                None => {
                    return Ok(None);
                },
                Some(ix) => {
                    let ghost before = idxs@;
                    idxs.push(ix);
                    proof {
                        assert(idxs@.map_values(|u: usize| u as int) =~= before.map_values(
                            |u: usize| u as int,
                        ).push(ix as int));
                        match composite_spec(
                            components@,
                            requests@.skip(k + 1),
                            state.mutably_borrowed@,
                        ) {
                            Ok(Some(rest)) => {
                                assert(before.map_values(|u: usize| u as int) + (seq![ix as int]
                                    + rest) =~= idxs@.map_values(|u: usize| u as int) + rest);
                            },
                            _ => {},
                        }
                    }
                },
            }
            k = k + 1;
        }
        proof {
            assert(requests@.skip(nr as int).len() == 0);
            assert(idxs@.map_values(|u: usize| u as int) + Seq::<int>::empty() =~= idxs@.map_values(
                |u: usize| u as int,
            ));
        }
        Ok(Some(idxs))
    }

    /// The vector-layer list stored at the coordinate, if any.
    pub open spec fn queried_layers(&self, coords: WorldTileCoords) -> Option<Vec<VectorLayerData>> {
        if coords.is_valid() && self@.contains_key(coords.quadkey_digits()) {
            match find_component(self@[coords.quadkey_digits()].components@,
                ComponentKind::VectorLayers) {
                Some(ix) => match self@[coords.quadkey_digits()].components@[ix] {
                    TileComponent::VectorLayers(c) => Some(c.layers),
                },
                None => None,
            }
        } else {
            None
        }
    }

    /// The layered lookup behind uploading: with a source-layer name, the
    /// first stored available layer of the style layer id that is not
    /// already loaded; without one (a background-style layer), the
    /// precomputed background quad under that id, unless already loaded.
    #[verifier::loop_isolation(false)]
    pub fn find_layer(
        &mut self,
        coords: WorldTileCoords,
        source_layer_name: &Option<String>,
        style_layer_id: &str,
        loaded_layers: &Vec<String>,
    ) -> (r: Option<&AvailableVectorLayerData>)
        requires
            old(self).wf(),
        ensures
            final(self).wf(),
            final(self)@ == old(self)@,
            source_layer_name is Some ==> final(self).background_tile == old(
                self,
            ).background_tile,
            source_layer_name is Some ==> match old(self).queried_layers(coords) {
                Some(layers) => match find_avail(layers@, style_layer_id@, loaded_layers@) {
                    Some(ix) => r matches Some(data) && (layers@[ix] matches
                        VectorLayerData::Available(found) && *data == found),
                    None => r is None,
                },
                None => r is None,
            },
            source_layer_name is None ==> (
                if str_list_contains(loaded_layers@, style_layer_id@) {
                    r is None && final(self).background_tile == old(self).background_tile
                } else {
                    r matches Some(data) && data.style_layer_id@ == style_layer_id@
                        && data.buffer == old(self).background_tile.buffer
                        && data.feature_indices == old(self).background_tile.feature_indices
                        && data.coords == old(self).background_tile.coords
                        && final(self).background_tile.style_layer_id@ == style_layer_id@
                        && final(self).background_tile.buffer == old(
                        self,
                    ).background_tile.buffer && final(self).background_tile.feature_indices
                        == old(self).background_tile.feature_indices
                        && final(self).background_tile.coords == old(self).background_tile.coords
                }),
    {
        if source_layer_name.is_some() {
            let component = match self.query_mut(coords, ComponentKind::VectorLayers) {
                Some(c) => c,
                None => {
                    return None;
                },
            };
            let TileComponent::VectorLayers(vector_layers) = component;
            let ghost lseq = vector_layers.layers@;
            let n = vector_layers.layers.len();
            let mut i: usize = 0;
            proof {
                assert(lseq.skip(0) =~= lseq);
            }
            while i < n
                invariant
                    n == vector_layers.layers@.len(),
                    i <= n,
                    find_avail(lseq, style_layer_id@, loaded_layers@) == match find_avail(
                        lseq.skip(i as int),
                        style_layer_id@,
                        loaded_layers@,
                    ) {
                        Some(ix) => Some(ix + i),
                        None => None::<int>,
                    },
                decreases n - i,
            {
                proof {
                    assert(lseq.skip(i as int)[0] == lseq[i as int]);
                    assert(lseq.skip(i as int).drop_first() =~= lseq.skip(i + 1));
                }
                match &vector_layers.layers[i] {
                    VectorLayerData::Available(data) => {
                        if str_eq(data.style_layer_id.as_str(), style_layer_id)
                            && !contains_string(
                            loaded_layers,
                            &data.style_layer_id,
                        ) {
                            proof {
                                assert(find_avail(lseq.skip(i as int), style_layer_id@,
                                    loaded_layers@) == Some(0int));
                            }
                            return Some(data);
                        }
                    },
                    VectorLayerData::Missing(_) => {},
                }
                i = i + 1;
            }
            proof {
                assert(lseq.skip(n as int).len() == 0);
            }
            None
        } else {
            let already = contains_string_str(loaded_layers, style_layer_id);
            if !already {
                self.background_tile.style_layer_id = String::from_str(style_layer_id);
                Some(&self.background_tile)
            } else {
                None
            }
        }
    }
}

/// Looks a string slice up in a string list.
fn contains_string_str(preds: &Vec<String>, s: &str) -> (r: bool)
    ensures
        r == str_list_contains(preds@, s@),
{
    let n = preds.len();
    let mut i: usize = 0;
    while i < n
        invariant
            n == preds@.len(),
            i <= n,
            forall|j: int| 0 <= j < i ==> preds@[j]@ != s@,
        decreases n - i,
    {
        if str_eq(preds[i].as_str(), s) {
            return true;
        }
        i = i + 1;
    }
    false
}

/// Finds the first component of a kind.
#[verifier::loop_isolation(false)]
fn find_component_exec(components: &Vec<TileComponent>, kind: ComponentKind) -> (r: Option<usize>)
    ensures
        match r {
            Some(ix) => find_component(components@, kind) == Some(ix as int),
            None => find_component(components@, kind) is None,
        },
{
    let n = components.len();
    let mut j: usize = 0;
    proof {
        assert(components@.skip(0) =~= components@);
    }
    while j < n
        invariant
            n == components@.len(),
            j <= n,
            find_component(components@, kind) == match find_component(
                components@.skip(j as int),
                kind,
            ) {
                Some(ix) => Some(ix + j),
                None => None::<int>,
            },
        decreases n - j,
    {
        proof {
            assert(components@.skip(j as int)[0] == components@[j as int]);
            assert(components@.skip(j as int).drop_first() =~= components@.skip(j + 1));
        }
        if component_kind(&components[j]) == kind {
            return Some(j);
        }
        j = j + 1;
    }
    proof {
        assert(components@.skip(n as int).len() == 0);
    }
    None
}

/// Two exclusive requests for one component kind within a composite
/// session fault deterministically, whatever the components hold.
pub proof fn lemma_aliasing_guard(
    components: Seq<TileComponent>,
    requests: Seq<ComponentQuery>,
    p: int,
    q: int,
)
    requires
        0 <= p < q < requests.len(),
        requests[p].exclusive,
        requests[q].exclusive,
        requests[p].kind == requests[q].kind,
        forall|ix: int| 0 <= ix < requests.len()
            ==> find_component(components, #[trigger] requests[ix].kind) is Some,
    ensures
        composite_spec(components, requests, Seq::empty()) == Err::<
            Option<Seq<int>>,
            AliasingViolation,
        >(AliasingViolation),
{
    lemma_aliasing_guard_from(components, requests, p, q, Seq::empty());
}

/// The inductive core of [`lemma_aliasing_guard`].
proof fn lemma_aliasing_guard_from(
    components: Seq<TileComponent>,
    requests: Seq<ComponentQuery>,
    p: int,
    q: int,
    borrowed: Seq<ComponentKind>,
)
    requires
        0 <= p < q < requests.len(),
        requests[p].exclusive,
        requests[q].exclusive,
        requests[p].kind == requests[q].kind,
        forall|ix: int| 0 <= ix < requests.len()
            ==> find_component(components, #[trigger] requests[ix].kind) is Some,
    ensures
        composite_spec(components, requests, borrowed) == Err::<
            Option<Seq<int>>,
            AliasingViolation,
        >(AliasingViolation),
    decreases requests.len(),
{
    let r0 = requests[0];
    if r0.exclusive && kind_borrowed(borrowed, r0.kind) {
    } else {
        let borrowed2 = if r0.exclusive {
            borrowed.push(r0.kind)
        } else {
            borrowed
        };
        assert(forall|ix: int| 0 <= ix < requests.drop_first().len()
            ==> requests.drop_first()[ix] == requests[ix + 1]);
        if p == 0 {
            assert(kind_borrowed(borrowed2, requests[q].kind)) by {
                assert(borrowed2.last() == r0.kind);
                assert(borrowed2[borrowed2.len() - 1] == requests[q].kind);
            }
            lemma_aliasing_borrowed(components, requests.drop_first(), q - 1, borrowed2);
        } else {
            lemma_aliasing_guard_from(components, requests.drop_first(), p - 1, q - 1, borrowed2);
        }
    }
}

/// A session faults at an exclusive request whose kind is already
/// borrowed, as long as every earlier request finds its component.
proof fn lemma_aliasing_borrowed(
    components: Seq<TileComponent>,
    requests: Seq<ComponentQuery>,
    q: int,
    borrowed: Seq<ComponentKind>,
)
    requires
        0 <= q < requests.len(),
        requests[q].exclusive,
        kind_borrowed(borrowed, requests[q].kind),
        forall|ix: int| 0 <= ix < requests.len()
            ==> find_component(components, #[trigger] requests[ix].kind) is Some,
    ensures
        composite_spec(components, requests, borrowed) == Err::<
            Option<Seq<int>>,
            AliasingViolation,
        >(AliasingViolation),
    decreases requests.len(),
{
    let r0 = requests[0];
    if r0.exclusive && kind_borrowed(borrowed, r0.kind) {
    } else {
        let borrowed2 = if r0.exclusive {
            borrowed.push(r0.kind)
        } else {
            borrowed
        };
        assert(q > 0);
        assert(forall|ix: int| 0 <= ix < requests.drop_first().len()
            ==> requests.drop_first()[ix] == requests[ix + 1]);
        assert(kind_borrowed(borrowed2, requests[q].kind)) by {
            let w = choose|i: int| 0 <= i < borrowed.len() && borrowed[i] == requests[q].kind;
            if r0.exclusive {
                assert(borrowed2[w] == requests[q].kind);
            }
        }
        lemma_aliasing_borrowed(components, requests.drop_first(), q - 1, borrowed2);
    }
}

/// The event stream of the full-extent background quad: one polygon
/// feature spanning the tile extent.
pub open spec fn background_quad_events() -> Seq<GeomEventV> {
    seq![
        GeomEventV::FeatureBegin,
        GeomEventV::PolygonBegin(true),
        GeomEventV::Xy(0, 0),
        GeomEventV::Xy(0, 4096),
        GeomEventV::Xy(4096, 4096),
        GeomEventV::Xy(4096, 0),
        GeomEventV::PolygonEnd(true),
        GeomEventV::FeatureEnd,
    ]
}

impl Default for Tiles {
    /// An empty store whose background layer is the tessellation of the
    /// full-extent quad, computed once here.  Should that tessellation
    /// fail, the background layer is empty.
    fn default() -> (r: Tiles)
        ensures
            r.wf(),
            r@ == Map::<Seq<u8>, TileEntry>::empty(),
            r.background_tile.style_layer_id@ == "background"@,
            match tess_run(
                tess_init(),
                background_quad_events(),
                None::<&LegacyFilterExpression>,
            ) {
                Ok(s) => r.background_tile.buffer.vertices@ == s.vertices
                    && r.background_tile.buffer.indices@ == s.indices
                    && r.background_tile.feature_indices@ == s.feature_indices,
                Err(_) => r.background_tile.buffer.vertices@.len() == 0
                    && r.background_tile.buffer.indices@.len() == 0
                    && r.background_tile.feature_indices@.len() == 0,
            },
    {
        let mut tessellator = ZeroTessellator::new(None);
        let events: Vec<GeomEvent> = vec![
            GeomEvent::FeatureBegin,
            GeomEvent::PolygonBegin(true),
            GeomEvent::Xy(0, 0),
            GeomEvent::Xy(0, 4096),
            GeomEvent::Xy(4096, 4096),
            GeomEvent::Xy(4096, 0),
            GeomEvent::PolygonEnd(true),
            GeomEvent::FeatureEnd,
        ];
        proof {
            assert(crate::tessellation::event_views(events@) =~= background_quad_events());
        }
        let coords = WorldTileCoords { x: 0, y: 0, z: 0 };
        let background_tile = match tessellator.handle_events(events) {
            Ok(()) => AvailableVectorLayerData {
                coords,
                buffer: tessellator.buffer,
                feature_indices: tessellator.feature_indices,
                style_layer_id: String::from_str("background"),
            },
            Err(_) => AvailableVectorLayerData {
                coords,
                buffer: MeshBuffer::new(),
                feature_indices: Vec::new(),
                style_layer_id: String::from_str("background"),
            },
        };
        Tiles { entries: Vec::new(), background_tile }
    }
}

} // verus!
