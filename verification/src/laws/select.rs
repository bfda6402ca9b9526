//! The selected variant, told by the fields of the variants.

use vstd::prelude::*;
use crate::playlist::VariantModel;

verus! {

/// Whether a variant is no I-frame playlist and has a height of at most the
/// ceiling.
pub open spec fn within(v: VariantModel, max_height: u64) -> bool {
    !v.is_i_frame && v.resolution is Some && (v.resolution->Some_0).height <= max_height
}

/// Whether one variant stands below another: by height, among equal heights by
/// width, among equal sizes by bandwidth.
pub open spec fn below(a: VariantModel, b: VariantModel) -> bool {
    let p = a.resolution->Some_0;
    let q = b.resolution->Some_0;
    ||| p.height < q.height
    ||| p.height == q.height && p.width < q.width
    ||| p.height == q.height && p.width == q.width && a.bandwidth < b.bandwidth
}

/// Where some variant keeps to the ceiling, the selected one does, too. It stands
/// below none that does, and is the last that stands as high.
pub proof fn law_highest_within_the_ceiling(variants: Seq<VariantModel>, max_height: u64, i: int)
    requires
        0 <= i < variants.len(),
        within(variants[i], max_height),
    ensures
        ({
            let s = crate::select::selection(variants, max_height);
            &&& 0 <= s < variants.len()
            &&& within(variants[s], max_height)
            &&& !below(variants[s], variants[i])
            &&& i > s ==> below(variants[i], variants[s])
        }),
{
    assert(variants[i].fits(max_height));
    assert(variants[i].playable());
    crate::select::law_selection_exists(variants, max_height);
    let s = crate::select::selection(variants, max_height);
    assert(crate::select::chosen(variants, max_height, s));
}

/// Where no variant keeps to the ceiling, the selected one is no I-frame playlist.
/// None of the others has a lower bandwidth, and it is the first of those that
/// have its bandwidth.
pub proof fn law_lowest_beyond_the_ceiling(variants: Seq<VariantModel>, max_height: u64, i: int)
    requires
        0 <= i < variants.len(),
        !variants[i].is_i_frame,
        forall|j: int| 0 <= j < variants.len() ==> !within(#[trigger] variants[j], max_height),
    ensures
        ({
            let s = crate::select::selection(variants, max_height);
            &&& 0 <= s < variants.len()
            &&& !variants[s].is_i_frame
            &&& variants[s].bandwidth <= variants[i].bandwidth
            &&& i < s ==> variants[s].bandwidth < variants[i].bandwidth
        }),
{
    assert(variants[i].playable());
    crate::select::law_selection_exists(variants, max_height);
    if crate::select::any_fits(variants, max_height) {
        let j = choose|j: int|
            0 <= j < variants.len() && (#[trigger] variants[j]).fits(max_height);
        assert(within(variants[j], max_height));
    }
    let s = crate::select::selection(variants, max_height);
    assert(crate::select::chosen(variants, max_height, s));
}

/// There is something to select exactly where some variant is no I-frame
/// playlist.
pub proof fn law_something_to_select(variants: Seq<VariantModel>)
    ensures
        crate::select::any_playable(variants) <==> exists|i: int|
            0 <= i < variants.len() && !(#[trigger] variants[i]).is_i_frame,
{
    if crate::select::any_playable(variants) {
        let i = choose|i: int| 0 <= i < variants.len() && (#[trigger] variants[i]).playable();
        assert(!variants[i].is_i_frame);
    }
    if exists|i: int| 0 <= i < variants.len() && !(#[trigger] variants[i]).is_i_frame {
        let i = choose|i: int| 0 <= i < variants.len() && !(#[trigger] variants[i]).is_i_frame;
        assert(variants[i].playable());
    }
}

} // verus!
