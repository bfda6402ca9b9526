//! The cache of initialization maps.

use vstd::prelude::*;
use crate::fault::Fault;
use crate::media::{MapEntry, MapPlace};
use crate::text::same_text;

verus! {

/// The most maps that the cache holds.
pub const MAX_MAPS: usize = 4;

/// The most bytes that a map may have.
pub const MAX_MAP_BYTES: usize = 8388608;

/// A map in the cache.
#[derive(Debug)]
pub struct CachedMap {
    pub place: MapEntry,
    pub bytes: Vec<u8>,
}

/// What a map in the cache says.
pub struct CachedModel {
    pub place: MapPlace,
    pub bytes: Seq<u8>,
}

impl View for CachedMap {
    type V = CachedModel;

    open spec fn view(&self) -> CachedModel {
        CachedModel { place: self.place@, bytes: self.bytes@ }
    }
}

/// The maps that were fetched last, by place. The oldest one makes room.
#[derive(Debug)]
pub struct MapCache {
    maps: Vec<CachedMap>,
}

impl View for MapCache {
    type V = Seq<CachedModel>;

    closed spec fn view(&self) -> Seq<CachedModel> {
        Seq::new(self.maps@.len(), |i: int| self.maps@[i]@)
    }
}

/// Whether a list holds the map of a place at a position.
pub open spec fn holds(maps: Seq<CachedModel>, place: MapPlace, i: int) -> bool {
    0 <= i < maps.len() && maps[i].place == place
}

/// A cache keeps to its limits and holds no place twice.
pub open spec fn within_limits(maps: Seq<CachedModel>) -> bool {
    &&& maps.len() <= MAX_MAPS
    &&& forall|i: int| 0 <= i < maps.len() ==> (#[trigger] maps[i]).bytes.len() <= MAX_MAP_BYTES
    &&& forall|i: int, j: int|
        0 <= i < j < maps.len() ==> (#[trigger] maps[i]).place != (#[trigger] maps[j]).place
}

/// Whether a place is in the cache.
pub open spec fn cached(maps: Seq<CachedModel>, place: MapPlace) -> bool {
    exists|i: int| holds(maps, place, i)
}

/// The cache after a map was offered to it.
pub open spec fn stored(maps: Seq<CachedModel>, map: CachedModel) -> Seq<CachedModel> {
    if cached(maps, map.place) {
        maps
    } else if maps.len() >= MAX_MAPS {
        maps.skip(1).push(map)
    } else {
        maps.push(map)
    }
}

/// Whether a result is what a cache holds for a place.
pub open spec fn found(maps: Seq<CachedModel>, place: MapPlace, r: Option<Seq<u8>>) -> bool {
    match r {
        Some(bytes) => exists|i: int| #[trigger] holds(maps, place, i) && maps[i].bytes == bytes,
        None => !cached(maps, place),
    }
}

/// The cache after a map was offered to it, and whether it was accepted.
pub open spec fn offered(maps: Seq<CachedModel>, map: CachedModel) -> (
    Seq<CachedModel>,
    Result<(), Fault>,
) {
    if map.bytes.len() > MAX_MAP_BYTES {
        (maps, Err(Fault::MapTooLarge))
    } else {
        (stored(maps, map), Ok(()))
    }
}

fn same_place(a: &MapEntry, b: &MapEntry) -> (r: bool)
    ensures
        r == (a@ == b@),
{
    let spans: bool = match (a.span, b.span) {
        (None, None) => true,
        (Some(x), Some(y)) => x.offset == y.offset && x.length == y.length,
        _ => false,
    };
    spans && same_text(a.url.text.as_str(), b.url.text.as_str())
}

impl MapCache {
    /// A cache that holds nothing.
    pub fn new() -> (r: MapCache)
        ensures
            r@ == Seq::<CachedModel>::empty(),
            within_limits(r@),
    {
        MapCache { maps: Vec::new() }
    }

    /// The bytes of the map at a place, where the cache holds them.
    pub fn get(&self, place: &MapEntry) -> (r: Option<&Vec<u8>>)
        ensures
            match r {
                Some(bytes) => exists|i: int|
                    #[trigger] holds(self@, place@, i) && self@[i].bytes == bytes@,
                None => !cached(self@, place@),
            },
            found(
                self@,
                place@,
                match r {
                    Some(bytes) => Some(bytes@),
                    None => None,
                },
            ),
    {
        let mut i: usize = 0;
        while i < self.maps.len()
            invariant
                i <= self.maps@.len(),
                forall|j: int| 0 <= j < i ==> !#[trigger] holds(self@, place@, j),
            decreases self.maps@.len() - i,
        {
            let map = &self.maps[i];
            assert(self@[i as int] == map@);
            if same_place(&map.place, place) {
                assert(holds(self@, place@, i as int));
                return Some(&map.bytes);
            }
            i += 1;
        }
        None
    }

    /// Stores the map at a place. One that exceeds the limit is refused; one that
    /// the cache already holds stays as it is.
    pub fn store(&mut self, place: &MapEntry, bytes: Vec<u8>) -> (r: Result<(), Fault>)
        requires
            within_limits(old(self)@),
        ensures
            within_limits(final(self)@),
            if bytes@.len() > MAX_MAP_BYTES {
                r == Err::<(), Fault>(Fault::MapTooLarge) && final(self)@ == old(self)@
            } else {
                r is Ok && final(self)@ == stored(
                    old(self)@,
                    CachedModel { place: place@, bytes: bytes@ },
                )
            },
            (final(self)@, r) == offered(
                old(self)@,
                CachedModel { place: place@, bytes: bytes@ },
            ),
    {
        if bytes.len() > MAX_MAP_BYTES {
            return Err(Fault::MapTooLarge);
        }
        if self.get(place).is_some() {
            return Ok(());
        }
        let ghost before = self@;
        let map = CachedMap { place: place.clone(), bytes };
        if self.maps.len() >= MAX_MAPS {
            self.maps.remove(0);
            assert(self@ =~= before.skip(1));
        }
        let ghost kept = self@;
        self.maps.push(map);
        assert(self@ =~= kept.push(map@));
        proof {
            assert forall|i: int, j: int| 0 <= i < j < self@.len() implies (#[trigger] self@[i]).place
                != (#[trigger] self@[j]).place by {
                let shift: int = if before.len() >= MAX_MAPS {
                    1
                } else {
                    0
                };
                assert(self@[i] == before[i + shift]);
                if j == kept.len() {
                    assert(!holds(before, place@, i + shift));
                } else {
                    assert(self@[j] == before[j + shift]);
                }
            }
            assert forall|i: int| 0 <= i < self@.len() implies (#[trigger] self@[i]).bytes.len()
                <= MAX_MAP_BYTES by {
                let shift: int = if before.len() >= MAX_MAPS {
                    1
                } else {
                    0
                };
                if i < kept.len() {
                    assert(self@[i] == before[i + shift]);
                }
            }
        }
        Ok(())
    }
}

/// A map that was stored is found again, with the bytes that were stored.
pub proof fn law_stored_maps_are_found(maps: Seq<CachedModel>, map: CachedModel)
    requires
        within_limits(maps),
        !cached(maps, map.place),
    ensures
        cached(stored(maps, map), map.place),
        forall|i: int|
            #[trigger] holds(stored(maps, map), map.place, i) ==> stored(maps, map)[i].bytes
                == map.bytes,
{
    let after = stored(maps, map);
    assert(holds(after, map.place, after.len() - 1));
    assert forall|i: int| #[trigger] holds(after, map.place, i) implies after[i].bytes
        == map.bytes by {
        if i < after.len() - 1 {
            let shift: int = if maps.len() >= MAX_MAPS {
                1
            } else {
                0
            };
            assert(after[i] == maps[i + shift]);
            assert(holds(maps, map.place, i + shift));
        }
    }
}

/// Storing a map drops no other while there is room, and the oldest only when
/// there is none.
pub proof fn law_only_the_oldest_makes_room(maps: Seq<CachedModel>, map: CachedModel, i: int)
    requires
        within_limits(maps),
        0 <= i < maps.len(),
        i > 0 || maps.len() < MAX_MAPS || cached(maps, map.place),
    ensures
        exists|k: int|
            0 <= k < stored(maps, map).len() && #[trigger] stored(maps, map)[k] == maps[i],
{
    let after = stored(maps, map);
    if cached(maps, map.place) || maps.len() < MAX_MAPS {
        assert(after[i] == maps[i]);
    } else {
        assert(after[i - 1] == maps[i]);
    }
}

} // verus!
