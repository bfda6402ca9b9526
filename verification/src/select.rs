//! The fixed rendition that a master playlist is played in.

use vstd::prelude::*;
use crate::fault::{Error, ErrorModel, Fault};
use crate::playlist::{VariantModel, VariantStream};
use crate::text::parse_number;

verus! {

/// The height ceiling that holds where none is set.
pub const DEFAULT_MAX_HEIGHT: u64 = 720;

/// The height ceiling that a setting stands for: a positive number, or the
/// default.
pub open spec fn ceiling(setting: Option<Seq<char>>) -> u64 {
    match setting {
        Some(text) => match crate::text::number(vstd::utf8::encode_utf8(text)) {
            Some(n) => if n > 0 {
                n
            } else {
                DEFAULT_MAX_HEIGHT
            },
            None => DEFAULT_MAX_HEIGHT,
        },
        None => DEFAULT_MAX_HEIGHT,
    }
}

/// Reads the height ceiling from a setting.
pub fn max_height(setting: Option<&str>) -> (r: u64)
    ensures
        r == ceiling(
            match setting {
                Some(text) => Some(text@),
                None => None,
            },
        ),
        r > 0,
{
    match setting {
        Some(text) => match parse_number(text) {
            Some(n) => if n > 0 {
                n
            } else {
                DEFAULT_MAX_HEIGHT
            },
            None => DEFAULT_MAX_HEIGHT,
        },
        None => DEFAULT_MAX_HEIGHT,
    }
}

impl VariantModel {
    /// Whether the variant can be played as it stands.
    pub open spec fn playable(self) -> bool {
        !self.is_i_frame
    }

    /// Whether the variant is playable and known to keep to the ceiling.
    pub open spec fn fits(self, max_height: u64) -> bool {
        self.playable() && (self.resolution matches Some(r) && r.height <= max_height)
    }

    /// Whether the variant ranks at most as high as another: by height, then by
    /// width, then by bandwidth.
    pub open spec fn at_most(self, other: VariantModel) -> bool {
        let a = self.resolution->Some_0;
        let b = other.resolution->Some_0;
        a.height < b.height || (a.height == b.height && (a.width < b.width || (a.width == b.width
            && self.bandwidth <= other.bandwidth)))
    }
}

/// Whether there is anything to select.
pub open spec fn any_playable(variants: Seq<VariantModel>) -> bool {
    exists|i: int| 0 <= i < variants.len() && (#[trigger] variants[i]).playable()
}

/// Whether any variant keeps to the ceiling.
pub open spec fn any_fits(variants: Seq<VariantModel>, max_height: u64) -> bool {
    exists|i: int| 0 <= i < variants.len() && (#[trigger] variants[i]).fits(max_height)
}

/// Whether the selection falls on variant `i`: the one that ranks highest within
/// the ceiling, the last of several; where none keeps to the ceiling, the one of
/// the lowest bandwidth, the first of several.
pub open spec fn chosen(variants: Seq<VariantModel>, max_height: u64, i: int) -> bool {
    &&& 0 <= i < variants.len()
    &&& if any_fits(variants, max_height) {
        &&& variants[i].fits(max_height)
        &&& forall|j: int|
            0 <= j < variants.len() && (#[trigger] variants[j]).fits(max_height)
                ==> variants[j].at_most(variants[i]) && (j > i ==> !variants[i].at_most(
                variants[j],
            ))
    } else {
        &&& variants[i].playable()
        &&& forall|j: int|
            0 <= j < variants.len() && (#[trigger] variants[j]).playable() ==> variants[i].bandwidth
                <= variants[j].bandwidth && (j < i ==> variants[i].bandwidth
                < variants[j].bandwidth)
    }
}

/// The variant on which the selection falls, where there is one.
pub open spec fn selection(variants: Seq<VariantModel>, max_height: u64) -> int {
    choose|i: int| chosen(variants, max_height, i)
}

/// The selection falls on one variant only.
pub proof fn law_selection_is_unique(
    variants: Seq<VariantModel>,
    max_height: u64,
    i: int,
    j: int,
)
    requires
        chosen(variants, max_height, i),
        chosen(variants, max_height, j),
    ensures
        i == j,
{
    assert(variants[i].playable() && variants[j].playable());
    if any_fits(variants, max_height) {
        assert(variants[i].fits(max_height) && variants[j].fits(max_height));
    }
}

/// The best variant within the ceiling among those seen so far.
fn best_fit(variants: &[VariantStream], max_height: u64) -> (r: Option<usize>)
    ensures
        ({
            let models = crate::playlist::variants_of(variants@);
            match r {
                Some(i) => any_fits(models, max_height) && chosen(models, max_height, i as int),
                None => !any_fits(models, max_height),
            }
        }),
{
    let ghost models = crate::playlist::variants_of(variants@);
    let mut best: Option<usize> = None;
    let mut i: usize = 0;
    while i < variants.len()
        invariant
            i <= variants@.len(),
            models == crate::playlist::variants_of(variants@),
            match best {
                Some(b) => {
                    &&& b < i
                    &&& models[b as int].fits(max_height)
                    &&& forall|j: int|
                        0 <= j < i && (#[trigger] models[j]).fits(max_height) ==> models[j].at_most(
                            models[b as int],
                        ) && (j > b ==> !models[b as int].at_most(models[j]))
                },
                None => forall|j: int| 0 <= j < i ==> !(#[trigger] models[j]).fits(max_height),
            },
        decreases variants@.len() - i,
    {
        let v = &variants[i];
        assert(models[i as int] == v@);
        if !v.is_i_frame {
            if let Some(r) = v.resolution {
                if r.height <= max_height {
                    let better: bool = match best {
                        None => true,
                        Some(b) => {
                            let other = &variants[b];
                            match other.resolution {
                                None => true,
                                Some(o) => o.height < r.height || (o.height == r.height && (o.width
                                    < r.width || (o.width == r.width && other.bandwidth
                                    <= v.bandwidth))),
                            }
                        },
                    };
                    if better {
                        best = Some(i);
                    }
                }
            }
        }
        i += 1;
    }
    best
}

/// Selects a variant of a master playlist.
pub fn select_variant(variants: &[VariantStream], max_height: u64) -> (r: Result<usize, Error>)
    ensures
        ({
            let models = crate::playlist::variants_of(variants@);
            match r {
                Ok(i) => chosen(models, max_height, i as int) && i == selection(models, max_height),
                Err(error) => !any_playable(models) && error@ == ErrorModel::bare(
                    Fault::NoPlayableVariants,
                ),
            }
        }),
{
    let ghost models = crate::playlist::variants_of(variants@);
    if let Some(i) = best_fit(variants, max_height) {
        proof {
            law_selection_is_unique(models, max_height, i as int, selection(models, max_height));
        }
        return Ok(i);
    }
    let mut lowest: Option<usize> = None;
    let mut i: usize = 0;
    while i < variants.len()
        invariant
            i <= variants@.len(),
            models == crate::playlist::variants_of(variants@),
            match lowest {
                Some(b) => {
                    &&& b < i
                    &&& models[b as int].playable()
                    &&& forall|j: int|
                        0 <= j < i && (#[trigger] models[j]).playable()
                            ==> models[b as int].bandwidth <= models[j].bandwidth && (j < b
                            ==> models[b as int].bandwidth < models[j].bandwidth)
                },
                None => forall|j: int| 0 <= j < i ==> !(#[trigger] models[j]).playable(),
            },
        decreases variants@.len() - i,
    {
        let v = &variants[i];
        assert(models[i as int] == v@);
        if !v.is_i_frame {
            let lower: bool = match lowest {
                None => true,
                Some(b) => v.bandwidth < variants[b].bandwidth,
            };
            if lower {
                lowest = Some(i);
            }
        }
        i += 1;
    }
    match lowest {
        Some(b) => {
            proof {
                assert(chosen(models, max_height, b as int));
                law_selection_is_unique(models, max_height, b as int, selection(models, max_height));
            }
            Ok(b)
        },
        None => Err(Error::bare(Fault::NoPlayableVariants)),
    }
}

/// A master playlist has a selection exactly where it has a playable variant, and
/// the selection is playable.
pub proof fn law_selection_exists(variants: Seq<VariantModel>, max_height: u64)
    ensures
        any_playable(variants) <==> exists|i: int| chosen(variants, max_height, i),
        any_playable(variants) ==> chosen(variants, max_height, selection(variants, max_height))
            && variants[selection(variants, max_height)].playable(),
{
    if any_playable(variants) {
        assert(variants.take(variants.len() as int) =~= variants);
        let i = lemma_choice(variants, max_height, variants.len());
        assert(chosen(variants, max_height, i));
    }
    if exists|i: int| chosen(variants, max_height, i) {
        let i = choose|i: int| chosen(variants, max_height, i);
        assert(variants[i].playable());
    }
}

/// The selection among the first `n` variants.
proof fn lemma_choice(variants: Seq<VariantModel>, max_height: u64, n: nat) -> (i: int)
    requires
        n <= variants.len(),
        any_playable(variants.take(n as int)),
    ensures
        chosen(variants.take(n as int), max_height, i),
        n == variants.len() ==> chosen(variants, max_height, i),
    decreases n,
{
    let all = variants.take(n as int);
    if n == variants.len() {
        assert(all =~= variants);
    }
    let last = n - 1;
    let before = variants.take(last);
    assert(forall|j: int| 0 <= j < last ==> before[j] == all[j]);
    if !any_playable(before) {
        assert(all[last].playable()) by {
            let k = choose|k: int| 0 <= k < all.len() && (#[trigger] all[k]).playable();
            if k < last {
                assert(before[k].playable());
            }
        }
        assert forall|j: int| 0 <= j < last implies !(#[trigger] all[j]).playable() by {
            assert(!before[j].playable());
        }
        assert(chosen(all, max_height, last));
        last
    } else {
        let b = lemma_choice(variants, max_height, last as nat);
        let new = all[last];
        let old_fits = any_fits(before, max_height);
        assert(any_fits(all, max_height) == (old_fits || new.fits(max_height))) by {
            if old_fits {
                let k = choose|k: int| 0 <= k < before.len() && (#[trigger] before[k]).fits(max_height);
                assert(all[k].fits(max_height));
            }
            if any_fits(all, max_height) {
                let k = choose|k: int| 0 <= k < all.len() && (#[trigger] all[k]).fits(max_height);
                if k < last {
                    assert(before[k].fits(max_height));
                }
            }
        }
        let pick = if any_fits(all, max_height) {
            if !old_fits || (new.fits(max_height) && all[b].at_most(new)) {
                last
            } else {
                b
            }
        } else if new.playable() && new.bandwidth < all[b].bandwidth {
            last
        } else {
            b
        };
        assert(before[b] == all[b]);
        assert(chosen(all, max_height, pick)) by {
            assert forall|j: int| 0 <= j < last implies #[trigger] all[j] == before[j] by {}
        }
        pick
    }
}

/// Whatever is selected keeps to the ceiling, if any playable variant is known to.
pub proof fn law_ceiling_is_kept(variants: Seq<VariantModel>, max_height: u64, i: int)
    requires
        0 <= i < variants.len(),
        variants[i].fits(max_height),
    ensures
        ({
            let s = variants[selection(variants, max_height)];
            s.fits(max_height) && variants[i].at_most(s)
        }),
{
    assert(variants[i].playable());
    law_selection_exists(variants, max_height);
}

/// Where no playable variant is known to keep to the ceiling, none has a lower
/// bandwidth than the selected one.
pub proof fn law_fallback_is_conservative(variants: Seq<VariantModel>, max_height: u64, i: int)
    requires
        !any_fits(variants, max_height),
        0 <= i < variants.len(),
        variants[i].playable(),
    ensures
        ({
            let s = variants[selection(variants, max_height)];
            s.playable() && s.bandwidth <= variants[i].bandwidth
        }),
{
    law_selection_exists(variants, max_height);
}

} // verus!
