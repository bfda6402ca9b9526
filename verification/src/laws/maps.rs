//! The cache of initialization maps, told by places and bytes.

use vstd::prelude::*;
use crate::fault::Fault;
use crate::maps::{CachedMap, CachedModel};
use crate::media::MapPlace;

verus! {

/// Whether two maps stand at the same place: at one URL, in one byte range or
/// both in none.
pub open spec fn same_spot(a: MapPlace, b: MapPlace) -> bool {
    &&& a.url == b.url
    &&& a.span is Some <==> b.span is Some
    &&& a.span is Some ==> (a.span->Some_0).offset == (b.span->Some_0).offset && (
    a.span->Some_0).length == (b.span->Some_0).length
}

/// Cached maps say what their fields say.
pub proof fn law_cached_maps_say_their_fields(m: CachedMap)
    ensures
        m@.place.url == m.place.url.text@,
        m@.place.span == m.place.span,
        m@.bytes == m.bytes@,
{
}

/// A cache holds at most four maps of at most eight mebibytes, each place once.
pub proof fn law_cache_limits(maps: Seq<CachedModel>)
    ensures
        crate::maps::within_limits(maps) <==> maps.len() <= 4 && (forall|i: int|
            0 <= i < maps.len() ==> (#[trigger] maps[i]).bytes.len() <= 8 * 1024 * 1024) && (forall|
            i: int,
            j: int,
        |
            0 <= i < j < maps.len() ==> !same_spot(
                (#[trigger] maps[i]).place,
                (#[trigger] maps[j]).place,
            )),
{
    assert forall|a: MapPlace, b: MapPlace| a == b <==> #[trigger] same_spot(a, b) by {
        lemma_same_spot(a, b);
    }
}

/// Places are told apart by URL and byte range.
proof fn lemma_same_spot(a: MapPlace, b: MapPlace)
    ensures
        a == b <==> same_spot(a, b),
{
}

/// What is looked up is found exactly where some map of the cache stands at the
/// place, with the bytes of one that does.
pub proof fn law_lookups(
    maps: Seq<CachedModel>,
    place: MapPlace,
    r: Option<Seq<u8>>,
)
    requires
        crate::maps::found(maps, place, r),
    ensures
        r is Some <==> exists|i: int|
            0 <= i < maps.len() && same_spot((#[trigger] maps[i]).place, place),
        r matches Some(bytes) ==> exists|i: int|
            0 <= i < maps.len() && same_spot((#[trigger] maps[i]).place, place) && maps[i].bytes
                == bytes,
{
    assert forall|a: MapPlace, b: MapPlace| a == b <==> #[trigger] same_spot(a, b) by {
        lemma_same_spot(a, b);
    }
    if r is Some {
        let i = choose|i: int|
            #[trigger] crate::maps::holds(maps, place, i) && maps[i].bytes == r->Some_0;
        assert(same_spot(maps[i].place, place));
    }
    if exists|i: int| 0 <= i < maps.len() && same_spot((#[trigger] maps[i]).place, place) {
        let i = choose|i: int|
            0 <= i < maps.len() && same_spot((#[trigger] maps[i]).place, place);
        assert(crate::maps::holds(maps, place, i));
    }
}

/// A map of more than eight mebibytes is refused, and every other accepted. One
/// whose place the cache holds changes nothing. Any other becomes the newest: all
/// maps before it stay, in order, but the oldest where there were four.
pub proof fn law_offered_maps(maps: Seq<CachedModel>, map: CachedModel)
    requires
        crate::maps::within_limits(maps),
    ensures
        ({
            let (after, r) = crate::maps::offered(maps, map);
            let there = exists|i: int|
                0 <= i < maps.len() && same_spot((#[trigger] maps[i]).place, map.place);
            let large = map.bytes.len() > 8 * 1024 * 1024;
            &&& r is Ok <==> !large
            &&& large ==> r == Err::<(), Fault>(Fault::MapTooLarge)
            &&& large || there ==> after == maps
            &&& !large && !there && maps.len() < 4 ==> after == maps.push(map)
            &&& !large && !there && maps.len() == 4 ==> after.len() == 4 && after[0] == maps[1]
                && after[1] == maps[2] && after[2] == maps[3] && after[3] == map
        }),
{
    assert forall|a: MapPlace, b: MapPlace| a == b <==> #[trigger] same_spot(a, b) by {
        lemma_same_spot(a, b);
    }
    if crate::maps::cached(maps, map.place) {
        let i = choose|i: int| crate::maps::holds(maps, map.place, i);
        assert(same_spot(maps[i].place, map.place));
    }
    if exists|i: int| 0 <= i < maps.len() && same_spot((#[trigger] maps[i]).place, map.place) {
        let i = choose|i: int|
            0 <= i < maps.len() && same_spot((#[trigger] maps[i]).place, map.place);
        assert(crate::maps::holds(maps, map.place, i));
    }
}

} // verus!
