//! The derived color palette and its nearest-color / index-mapping queries.
use vstd::prelude::*;

use crate::color_dist;
use crate::ColorDistance;
use crate::lemma_dist_self_zero;
use crate::lemma_dist_zero_iff_eq;

verus! {

/// A palette of derived map colors, usable as the nearest-color oracle for
/// dithering and for direct quantization.
///
/// The first `margin` palette indices are reserved for special colors that
/// this builder does not produce; derived entries start at index `margin`.
pub struct MapPalette {
    margin: usize,
    colors: Vec<[u8; 3]>,
}

/// The error signalled when a palette is built from empty inputs.
#[derive(Clone, Copy, Debug, PartialEq, Eq, Structural)]
pub struct ConfigurationError;

/// One derived channel: `truncate(channel * multiplier / 255)`.
pub open spec fn scale_channel(c: u8, m: u8) -> int {
    (c * m) / 255
}

/// `e` is the color derived from `base` by brightness multiplier `m`.
pub open spec fn derived_entry_ok(e: [u8; 3], base: [u8; 3], m: u8) -> bool {
    forall|ch: int| 0 <= ch < 3 ==> e[ch] == scale_channel(base[ch], m)
}

/// `entries` is the full derived table for `bases` x `mults`, enumerated
/// base-major, multiplier-minor: the entry for (base i, multiplier j) is at
/// position `i * mults.len() + j`.
pub open spec fn palette_entries_ok(entries: Seq<[u8; 3]>, bases: Seq<[u8; 3]>, mults: Seq<u8>) -> bool {
    &&& entries.len() == bases.len() * mults.len()
    &&& forall|i: int, j: int|
        0 <= i < bases.len() && 0 <= j < mults.len() ==> #[trigger] derived_entry_ok(
            entries[i * mults.len() + j],
            bases[i],
            mults[j],
        )
}

/// The index of the entry nearest to `c` among the first `n` palette
/// entries; a tie keeps the earliest index.
pub open spec fn nearest_in_prefix(cs: Seq<[u8; 3]>, c: [u8; 3], n: int) -> int
    decreases n,
{
    if n <= 1 {
        0
    } else {
        let prev = nearest_in_prefix(cs, c, n - 1);
        if color_dist(c, cs[n - 1]) < color_dist(c, cs[prev]) {
            n - 1
        } else {
            prev
        }
    }
}

/// The index of the first palette entry at minimal distance from `c`.
pub open spec fn nearest_idx(cs: Seq<[u8; 3]>, c: [u8; 3]) -> int {
    nearest_in_prefix(cs, c, cs.len() as int)
}

proof fn lemma_nearest_prefix_props(cs: Seq<[u8; 3]>, c: [u8; 3], n: int)
    requires
        1 <= n <= cs.len(),
    ensures
        0 <= nearest_in_prefix(cs, c, n) < n,
        forall|k: int|
            0 <= k < n ==> #[trigger] color_dist(c, cs[k]) >= color_dist(
                c,
                cs[nearest_in_prefix(cs, c, n)],
            ),
        forall|k: int|
            0 <= k < nearest_in_prefix(cs, c, n) ==> #[trigger] color_dist(c, cs[k]) > color_dist(
                c,
                cs[nearest_in_prefix(cs, c, n)],
            ),
    decreases n,
{
    if n > 1 {
        lemma_nearest_prefix_props(cs, c, n - 1);
    }
}

proof fn lemma_nearest_prefix_stable(cs: Seq<[u8; 3]>, c: [u8; 3], n0: int, n: int)
    requires
        1 <= n0 <= n <= cs.len(),
        color_dist(c, cs[nearest_in_prefix(cs, c, n0)]) == 0,
    ensures
        nearest_in_prefix(cs, c, n) == nearest_in_prefix(cs, c, n0),
    decreases n,
{
    if n > n0 {
        lemma_nearest_prefix_stable(cs, c, n0, n - 1);
        lemma_dist_zero_iff_eq(c, cs[n - 1]);
    }
}

/// Tie-break determinism of the nearest-color search: the chosen index is in
/// range, achieves the minimal distance, every earlier entry is strictly
/// farther, and no earlier entry holds the same color.
pub proof fn lemma_nearest_idx_props(cs: Seq<[u8; 3]>, c: [u8; 3])
    requires
        cs.len() > 0,
    ensures
        0 <= nearest_idx(cs, c) < cs.len(),
        forall|k: int|
            0 <= k < cs.len() ==> #[trigger] color_dist(c, cs[k]) >= color_dist(
                c,
                cs[nearest_idx(cs, c)],
            ),
        forall|k: int|
            0 <= k < nearest_idx(cs, c) ==> #[trigger] color_dist(c, cs[k]) > color_dist(
                c,
                cs[nearest_idx(cs, c)],
            ),
        forall|k: int| 0 <= k < nearest_idx(cs, c) ==> #[trigger] cs[k] != cs[nearest_idx(cs, c)],
{
    lemma_nearest_prefix_props(cs, c, cs.len() as int);
    let ni = nearest_idx(cs, c);
    assert forall|k: int| 0 <= k < ni implies #[trigger] cs[k] != cs[ni] by {
        assert(color_dist(c, cs[k]) > color_dist(c, cs[ni]));
    }
}

/// A color already in the palette is its own nearest entry, at distance zero.
pub proof fn lemma_nearest_of_member(cs: Seq<[u8; 3]>, c: [u8; 3], i: int)
    requires
        0 <= i < cs.len(),
        cs[i] == c,
    ensures
        cs[nearest_idx(cs, c)] == c,
        color_dist(c, cs[nearest_idx(cs, c)]) == 0,
{
    lemma_nearest_idx_props(cs, c);
    lemma_dist_self_zero(c);
    assert(color_dist(c, cs[i]) == 0);
    let ni = nearest_idx(cs, c);
    lemma_dist_zero_iff_eq(c, cs[ni]);
}

/// Palette construction is idempotent: any two derived tables built from
/// the same bases and multipliers are equal entry for entry.
pub proof fn lemma_palette_deterministic(
    e1: Seq<[u8; 3]>,
    e2: Seq<[u8; 3]>,
    bases: Seq<[u8; 3]>,
    mults: Seq<u8>,
)
    requires
        palette_entries_ok(e1, bases, mults),
        palette_entries_ok(e2, bases, mults),
    ensures
        e1 == e2,
{
    broadcast use vstd::array::group_array_axioms;

    let m = mults.len() as int;
    assert forall|k: int| 0 <= k < e1.len() implies e1[k] == e2[k] by {
        assert(m >= 1) by (nonlinear_arith)
            requires
                0 <= bases.len() * m && 0 < e1.len() && e1.len() == bases.len() * m,
        ;
        vstd::arithmetic::div_mod::lemma_fundamental_div_mod(k, m);
        vstd::arithmetic::div_mod::lemma_mod_division_less_than_divisor(k, m);
        vstd::arithmetic::div_mod::lemma_div_pos_is_pos(k, m);
        assert((bases.len() as int) * m == m * (bases.len() as int)) by (nonlinear_arith);
        vstd::arithmetic::div_mod::lemma_multiply_divide_lt(k, m, bases.len() as int);
        let i = k / m;
        let j = k % m;
        assert(i * m == m * i) by (nonlinear_arith);
        assert(derived_entry_ok(e1[i * m + j], bases[i], mults[j]));
        assert(derived_entry_ok(e2[i * m + j], bases[i], mults[j]));
        assert(e1[k] =~= e2[k]);
    }
    assert(e1 =~= e2);
}

fn scale_channel_exec(c: u8, m: u8) -> (r: u8)
    ensures
        r as int == scale_channel(c, m),
{
    proof {
        assert(c * m <= 65025) by (nonlinear_arith)
            requires
                c <= 255 && m <= 255,
        ;
        vstd::arithmetic::div_mod::lemma_div_is_ordered((c * m) as int, 65025, 255);
    }
    ((c as u32 * m as u32) / 255) as u8
}

impl MapPalette {
    /// The count of reserved low palette indices.
    pub closed spec fn margin(&self) -> int {
        self.margin as int
    }

    /// The ordered table of derived colors.
    pub closed spec fn colors(&self) -> Seq<[u8; 3]> {
        self.colors@
    }

    /// Index arithmetic on the palette stays within the machine.
    pub closed spec fn wf(&self) -> bool {
        self.margin + self.colors@.len() <= usize::MAX
    }

    /// Builds the derived color table for every (base color, multiplier)
    /// pair, base-major and multiplier-minor.
    pub fn new(colors: &[[u8; 3]], multipliers: &[u8]) -> (p: Self)
        requires
            multipliers@.len() + colors@.len() * multipliers@.len() <= usize::MAX,
        ensures
            p.margin() == multipliers@.len(),
            palette_entries_ok(p.colors(), colors@, multipliers@),
            p.wf(),
    {
        let mlen = multipliers.len();
        let mut entries: Vec<[u8; 3]> = Vec::new();
        let mut i: usize = 0;
        while i < colors.len()
            invariant
                i <= colors@.len(),
                mlen == multipliers@.len(),
                entries@.len() == i * mlen,
                forall|i2: int, j: int|
                    0 <= i2 < i && 0 <= j < mlen ==> #[trigger] derived_entry_ok(
                        entries@[i2 * mlen + j],
                        colors@[i2],
                        multipliers@[j],
                    ),
            decreases colors@.len() - i,
        {
            let base = colors[i];
            let mut j: usize = 0;
            while j < mlen
                invariant
                    i < colors@.len(),
                    j <= mlen,
                    mlen == multipliers@.len(),
                    base == colors@[i as int],
                    entries@.len() == i * mlen + j,
                    forall|i2: int, j2: int|
                        0 <= i2 < i && 0 <= j2 < mlen ==> #[trigger] derived_entry_ok(
                            entries@[i2 * mlen + j2],
                            colors@[i2],
                            multipliers@[j2],
                        ),
                    forall|j2: int|
                        0 <= j2 < j ==> #[trigger] derived_entry_ok(
                            entries@[i * mlen + j2],
                            colors@[i as int],
                            multipliers@[j2],
                        ),
                decreases mlen - j,
            {
                let m = multipliers[j];
                let e: [u8; 3] = [
                    scale_channel_exec(base[0], m),
                    scale_channel_exec(base[1], m),
                    scale_channel_exec(base[2], m),
                ];
                let ghost prev = entries@;
                entries.push(e);
                proof {
                    assert(derived_entry_ok(e, colors@[i as int], multipliers@[j as int]));
                    assert forall|i2: int, j2: int|
                        0 <= i2 < i && 0 <= j2 < mlen implies #[trigger] derived_entry_ok(
                        entries@[i2 * mlen + j2],
                        colors@[i2],
                        multipliers@[j2],
                    ) by {
                        assert(0 <= i2 * mlen + j2 < i * mlen + j) by (nonlinear_arith)
                            requires
                                0 <= i2 < i && 0 <= j2 < mlen && 0 <= j,
                        ;
                        assert(entries@[i2 * mlen + j2] == prev[i2 * mlen + j2]);
                    }
                    assert forall|j2: int|
                        0 <= j2 < j + 1 implies #[trigger] derived_entry_ok(
                        entries@[i * mlen + j2],
                        colors@[i as int],
                        multipliers@[j2],
                    ) by {
                        assert(0 <= i * mlen) by (nonlinear_arith)
                            requires
                                0 <= i && 0 <= mlen,
                        ;
                        if j2 < j {
                            assert(entries@[i * mlen + j2] == prev[i * mlen + j2]);
                        } else {
                            assert(i * mlen + j2 == prev.len());
                        }
                    }
                }
                j = j + 1;
            }
            proof {
                assert(i * mlen + mlen == (i + 1) * mlen) by (nonlinear_arith);
                assert forall|i2: int, j2: int|
                    0 <= i2 < i + 1 && 0 <= j2 < mlen implies #[trigger] derived_entry_ok(
                    entries@[i2 * mlen + j2],
                    colors@[i2],
                    multipliers@[j2],
                ) by {
                    if i2 == i {
                        assert(derived_entry_ok(
                            entries@[i * mlen + j2],
                            colors@[i as int],
                            multipliers@[j2],
                        ));
                    }
                }
            }
            i = i + 1;
        }
        MapPalette { margin: mlen, colors: entries }
    }

    /// Builds a palette, refusing the degenerate empty inputs.
    ///
    /// Fails exactly when `colors` or `multipliers` is empty; on success the
    /// palette is the same table that `new` builds.
    pub fn build(colors: &[[u8; 3]], multipliers: &[u8]) -> (r: Result<Self, ConfigurationError>)
        requires
            multipliers@.len() + colors@.len() * multipliers@.len() <= usize::MAX,
        ensures
            r is Err <==> (colors@.len() == 0 || multipliers@.len() == 0),
            r matches Ok(p) ==> {
                &&& p.margin() == multipliers@.len()
                &&& palette_entries_ok(p.colors(), colors@, multipliers@)
                &&& p.colors().len() > 0
                &&& p.wf()
            },
    {
        if colors.len() == 0 || multipliers.len() == 0 {
            Err(ConfigurationError)
        } else {
            let p = Self::new(colors, multipliers);
            proof {
                assert(colors@.len() * multipliers@.len() >= 1) by (nonlinear_arith)
                    requires
                        colors@.len() >= 1 && multipliers@.len() >= 1,
                ;
            }
            Ok(p)
        }
    }

    /// Maps `color` in place to the nearest palette entry, keeping the
    /// earliest entry on a tie and leaving the color unchanged when the
    /// palette is empty.  Exits early on an exact match.
    pub fn map_color(&self, color: &mut [u8; 3])
        ensures
            self.colors().len() == 0 ==> *final(color) == *old(color),
            self.colors().len() > 0 ==> *final(color) == self.colors()[nearest_idx(
                self.colors(),
                *old(color),
            )],
    {
        if self.colors.len() == 0 {
            return;
        }
        let c: [u8; 3] = *color;
        let ghost cs = self.colors@;
        let first = self.colors[0];
        let mut best: usize = 0;
        let mut best_d: isize = c.dist(&first);
        let mut k: usize = 1;
        while k < self.colors.len()
            invariant_except_break
                cs == self.colors@,
                1 <= k <= cs.len(),
                (best as int) < k,
                (best as int) == nearest_in_prefix(cs, c, k as int),
                best_d == color_dist(c, cs[best as int]),
            ensures
                cs == self.colors@,
                (best as int) < cs.len(),
                (best as int) == nearest_idx(cs, c),
            decreases cs.len() - k,
        {
            if best_d == 0 {
                proof {
                    lemma_nearest_prefix_stable(cs, c, k as int, cs.len() as int);
                }
                break;
            }
            let entry = self.colors[k];
            let d = c.dist(&entry);
            if d < best_d {
                best = k;
                best_d = d;
            }
            k = k + 1;
        }
        *color = self.colors[best];
    }

    /// Returns the position of the first palette entry holding exactly
    /// `color`, plus the reserved margin; 0 when no entry matches.
    pub fn index_of(&self, color: &[u8; 3]) -> (r: usize)
        requires
            self.wf(),
        ensures
            ({
                let cs = self.colors();
                if exists|i: int| 0 <= i < cs.len() && cs[i] == *color {
                    &&& self.margin() <= r < cs.len() + self.margin()
                    &&& cs[r - self.margin()] == *color
                    &&& forall|k: int| 0 <= k < r - self.margin() ==> cs[k] != *color
                } else {
                    r == 0
                }
            }),
    {
        let ghost cs = self.colors@;
        let mut k: usize = 0;
        while k < self.colors.len()
            invariant
                cs == self.colors@,
                self.wf(),
                k <= cs.len(),
                forall|k2: int| 0 <= k2 < k ==> cs[k2] != *color,
            decreases cs.len() - k,
        {
            let entry = self.colors[k];
            if entry[0] == color[0] && entry[1] == color[1] && entry[2] == color[2] {
                proof {
                    broadcast use vstd::array::group_array_axioms;

                    assert(entry =~= *color);
                }
                return k + self.margin;
            }
            k = k + 1;
        }
        0
    }

    /// Looks a color up by its raw position in the derived table; `None`
    /// when the position is out of range.
    pub fn lookup(&self, idx: usize) -> (r: Option<[u8; 3]>)
        ensures
            idx < self.colors().len() ==> r == Some(self.colors()[idx as int]),
            idx >= self.colors().len() ==> r is None,
    {
        if idx < self.colors.len() {
            Some(self.colors[idx])
        } else {
            None
        }
    }

    /// The palette always supports reverse lookup.
    pub fn has_lookup(&self) -> (r: bool)
        ensures
            r,
    {
        true
    }
}

} // verus!
