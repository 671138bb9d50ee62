use vstd::prelude::*;

verus! {

use vstd::seq_lib::group_to_multiset_ensures;
use vstd::multiset::group_multiset_axioms;
use crate::pixels::{PixelGrid, Rgba};

/// How many pixels of `s` have exactly the color `c` (all four channels
/// equal).
pub open spec fn color_count_in(s: Seq<Rgba>, c: Rgba) -> nat
    decreases s.len(),
{
    if s.len() == 0 {
        0
    } else {
        color_count_in(s.drop_last(), c) + if s.last() == c {
            1nat
        } else {
            0nat
        }
    }
}

/// A color occurs at most as often as there are pixels.
pub proof fn lemma_color_count_le_len(s: Seq<Rgba>, c: Rgba)
    ensures
        color_count_in(s, c) <= s.len(),
    decreases s.len(),
{
    if s.len() > 0 {
        lemma_color_count_le_len(s.drop_last(), c);
    }
}

/// A color that appears nowhere has count zero.
pub proof fn lemma_color_count_zero(s: Seq<Rgba>, c: Rgba)
    requires
        forall|i: int| 0 <= i < s.len() ==> s[i] != c,
    ensures
        color_count_in(s, c) == 0,
    decreases s.len(),
{
    if s.len() > 0 {
        lemma_color_count_zero(s.drop_last(), c);
    }
}

/// A color with a positive count appears somewhere.
pub proof fn lemma_color_count_pos(s: Seq<Rgba>, c: Rgba)
    requires
        color_count_in(s, c) > 0,
    ensures
        exists|i: int| 0 <= i < s.len() && s[i] == c,
{
    if !(exists|i: int| 0 <= i < s.len() && s[i] == c) {
        assert(forall|i: int| 0 <= i < s.len() ==> s[i] != c);
        lemma_color_count_zero(s, c);
    }
}

/// One row of the color-frequency table.
#[derive(Clone, Copy, PartialEq, Eq, Structural, Hash, Debug)]
pub struct ColorCount {
    pub color: Rgba,
    pub count: usize,
}

/// Some row of `t` holds the color `c`.
pub open spec fn color_in_table(t: Seq<ColorCount>, c: Rgba) -> bool {
    exists|i: int| 0 <= i < t.len() && (#[trigger] t[i]).color == c
}

/// Find the row of `t` that holds the color `c`, if there is one.
fn find_color(t: &Vec<ColorCount>, c: Rgba) -> (r: Option<usize>)
    ensures
        r matches Some(i) ==> i < t@.len() && t@[i as int].color == c,
        r.is_none() ==> forall|i: int| 0 <= i < t@.len() ==> (#[trigger] t@[i]).color != c,
{
    let mut idx: usize = 0;
    while idx < t.len()
        invariant
            0 <= idx <= t@.len(),
            forall|i: int| 0 <= i < idx ==> (#[trigger] t@[i]).color != c,
        decreases t@.len() - idx,
    {
        if t[idx].color == c {
            return Some(idx);
        }
        idx = idx + 1;
    }
    None
}

/// Accumulate the exact-match frequency of every color of the image in a
/// single pass. Each color gets one row, holding precisely its number of
/// occurrences; every pixel's color has a row; rows appear in order of
/// first appearance.
pub fn count_colors(pixels: &Vec<Rgba>) -> (t: Vec<ColorCount>)
    ensures
        forall|i: int, j: int|
            0 <= i < j < t@.len() ==> (#[trigger] t@[i]).color != (#[trigger] t@[j]).color,
        forall|i: int|
            0 <= i < t@.len() ==> (#[trigger] t@[i]).count == color_count_in(
                pixels@,
                t@[i].color,
            ) && t@[i].count >= 1,
        forall|p: int| 0 <= p < pixels@.len() ==> #[trigger] color_in_table(t@, pixels@[p]),
{
    let mut t: Vec<ColorCount> = Vec::new();
    let mut p: usize = 0;
    while p < pixels.len()
        invariant
            0 <= p <= pixels@.len(),
            forall|i: int, j: int|
                0 <= i < j < t@.len() ==> (#[trigger] t@[i]).color != (#[trigger] t@[j]).color,
            forall|i: int|
                0 <= i < t@.len() ==> (#[trigger] t@[i]).count == color_count_in(
                    pixels@.take(p as int),
                    t@[i].color,
                ) && t@[i].count >= 1,
            forall|q: int| 0 <= q < p ==> #[trigger] color_in_table(t@, pixels@[q]),
        decreases pixels@.len() - p,
    {
        let c = pixels[p];
        proof {
            assert(pixels@.take(p as int + 1).drop_last() =~= pixels@.take(p as int));
            assert(pixels@.take(p as int + 1).last() == pixels@[p as int]);
        }
        let ghost old_t = t@;
        match find_color(&t, c) {
            Some(i) => {
                let e = t[i];
                proof {
                    lemma_color_count_le_len(pixels@.take(p as int), c);
                    assert(pixels@.take(p as int).len() == p as int);
                }
                t.set(i, ColorCount { color: e.color, count: e.count + 1 });
                proof {
                    assert forall|q: int| 0 <= q < p + 1 implies #[trigger] color_in_table(
                        t@,
                        pixels@[q],
                    ) by {
                        if q < p {
                            assert(color_in_table(old_t, pixels@[q]));
                            let i0 = choose|ii: int|
                                0 <= ii < old_t.len() && (#[trigger] old_t[ii]).color
                                    == pixels@[q];
                            assert(t@[i0].color == pixels@[q]);
                        } else {
                            assert(t@[i as int].color == pixels@[q]);
                        }
                    }
                }
            },
            None => {
                proof {
                    assert forall|q: int| 0 <= q < p implies pixels@.take(p as int)[q] != c by {
                        if pixels@.take(p as int)[q] == c {
                            assert(pixels@[q] == c);
                            assert(color_in_table(t@, pixels@[q]));
                            let i = choose|i: int|
                                0 <= i < t@.len() && (#[trigger] t@[i]).color == pixels@[q];
                            assert(t@[i].color != c);
                        }
                    }
                    lemma_color_count_zero(pixels@.take(p as int), c);
                }
                t.push(ColorCount { color: c, count: 1 });
                proof {
                    assert forall|q: int| 0 <= q < p + 1 implies #[trigger] color_in_table(
                        t@,
                        pixels@[q],
                    ) by {
                        if q < p {
                            assert(color_in_table(old_t, pixels@[q]));
                            let i0 = choose|ii: int|
                                0 <= ii < old_t.len() && (#[trigger] old_t[ii]).color
                                    == pixels@[q];
                            assert(t@[i0].color == pixels@[q]);
                        } else {
                            assert(t@[old_t.len() as int].color == pixels@[q]);
                        }
                    }
                }
            },
        }
        p = p + 1;
    }
    proof {
        assert(pixels@.take(p as int) =~= pixels@);
    }
    t
}

/// Order the frequency table by descending count. Ties keep no particular
/// order; the result is a permutation of the input.
pub fn sort_colors_desc(table: Vec<ColorCount>) -> (r: Vec<ColorCount>)
    ensures
        r@.len() == table@.len(),
        r@.to_multiset() == table@.to_multiset(),
        forall|i: int, j: int|
            0 <= i <= j < r@.len() ==> (#[trigger] r@[i]).count >= (#[trigger] r@[j]).count,
{
    broadcast use group_to_multiset_ensures, group_multiset_axioms;

    let ghost t0 = table@;
    let mut work = table;
    let mut r: Vec<ColorCount> = Vec::new();
    while work.len() > 0
        invariant
            r@.to_multiset().add(work@.to_multiset()) == t0.to_multiset(),
            r@.len() + work@.len() == t0.len(),
            forall|i: int, j: int|
                0 <= i <= j < r@.len() ==> (#[trigger] r@[i]).count >= (#[trigger] r@[j]).count,
            forall|i: int, j: int|
                0 <= i < r@.len() && 0 <= j < work@.len() ==> (#[trigger] r@[i]).count
                    >= (#[trigger] work@[j]).count,
        decreases work@.len(),
    {
        let mut best: usize = 0;
        let mut j: usize = 1;
        while j < work.len()
            invariant
                work@.len() >= 1,
                0 <= best < work@.len(),
                1 <= j <= work@.len(),
                forall|i: int|
                    0 <= i < j ==> (#[trigger] work@[i]).count <= work@[best as int].count,
            decreases work@.len() - j,
        {
            if work[j].count > work[best].count {
                best = j;
            }
            j = j + 1;
        }
        let ghost old_work = work@;
        let ghost old_r = r@;
        let e = work.remove(best);
        r.push(e);
        proof {
            assert(old_work.contains(old_work[best as int]));
            vstd::seq_lib::to_multiset_contains(old_work, e);
            vstd::seq_lib::to_multiset_build(old_r, e);
            vstd::seq_lib::to_multiset_remove(old_work, best as int);
            assert(r@.to_multiset() == old_r.to_multiset().insert(e));
            assert(work@.to_multiset() == old_work.to_multiset().remove(e));
            assert(old_work.to_multiset().count(e) > 0);
            assert(r@.to_multiset().add(work@.to_multiset()) =~= old_r.to_multiset().add(
                old_work.to_multiset(),
            ));
            assert forall|j2: int| 0 <= j2 < work@.len() implies (#[trigger] work@[j2]).count
                <= e.count by {
                if j2 < best {
                    assert(work@[j2] == old_work[j2]);
                } else {
                    assert(work@[j2] == old_work[j2 + 1]);
                }
            }
        }
    }
    r
}

/// The top `top_x` colors of the image by descending occurrence count:
/// every reported count is exact and at least one, reported colors are
/// distinct, and any color left out of a full report occurs no more often
/// than the last reported one. Ties are broken arbitrarily.
pub fn find_top_x_colors(grid: &PixelGrid, top_x: usize) -> (r: Vec<ColorCount>)
    ensures
        r@.len() <= top_x,
        forall|i: int|
            0 <= i < r@.len() ==> (#[trigger] r@[i]).count == color_count_in(
                grid.pixels@,
                r@[i].color,
            ) && r@[i].count >= 1,
        forall|i: int, j: int|
            0 <= i <= j < r@.len() ==> (#[trigger] r@[i]).count >= (#[trigger] r@[j]).count,
        forall|i: int, j: int|
            0 <= i < j < r@.len() ==> (#[trigger] r@[i]).color != (#[trigger] r@[j]).color,
        forall|c: Rgba|
            #[trigger] color_count_in(grid.pixels@, c) > 0 ==> (exists|i: int|
                0 <= i < r@.len() && (#[trigger] r@[i]).color == c) || (r@.len() == top_x && (top_x
                == 0 || color_count_in(grid.pixels@, c) <= r@[top_x as int - 1].count)),
{
    broadcast use group_to_multiset_ensures, group_multiset_axioms;

    let ghost s = grid.pixels@;
    let table = count_colors(&grid.pixels);
    let ghost tv = table@;
    let mut sorted = sort_colors_desc(table);
    let ghost sv = sorted@;
    proof {
        // Each sorted row is a row of the table, so its count is exact.
        assert forall|k: int| 0 <= k < sv.len() implies (#[trigger] sv[k]).count == color_count_in(
            s,
            sv[k].color,
        ) && sv[k].count >= 1 by {
            assert(sv.contains(sv[k]));
            assert(tv.to_multiset().count(sv[k]) > 0);
            assert(tv.contains(sv[k]));
            let j = choose|j: int| 0 <= j < tv.len() && tv[j] == sv[k];
            assert(tv[j].count == color_count_in(s, tv[j].color));
        }
        // The table rows are pairwise distinct values, so the sorted rows
        // are too, and with exact counts distinct rows mean distinct colors.
        assert(tv.no_duplicates());
        tv.lemma_multiset_has_no_duplicates();
        sv.lemma_multiset_has_no_duplicates_conv();
        assert forall|i: int, j: int| 0 <= i < j < sv.len() implies (#[trigger] sv[i]).color
            != (#[trigger] sv[j]).color by {
            if sv[i].color == sv[j].color {
                assert(sv[i].count == color_count_in(s, sv[i].color));
                assert(sv[j].count == color_count_in(s, sv[j].color));
                assert(sv[i] == sv[j]);
            }
        }
        // Every color that occurs in the image has a sorted row.
        assert forall|c: Rgba| #[trigger] color_count_in(s, c) > 0 implies exists|k: int|
            0 <= k < sv.len() && (#[trigger] sv[k]).color == c by {
            lemma_color_count_pos(s, c);
            let p = choose|p: int| 0 <= p < s.len() && s[p] == c;
            assert(color_in_table(tv, s[p]));
            let i = choose|i: int| 0 <= i < tv.len() && (#[trigger] tv[i]).color == s[p];
            assert(tv.contains(tv[i]));
            assert(sv.to_multiset().count(tv[i]) > 0);
            assert(sv.contains(tv[i]));
            let k = choose|k: int| 0 <= k < sv.len() && sv[k] == tv[i];
            assert(sv[k].color == c);
        }
    }
    sorted.truncate(top_x);
    proof {
        if top_x <= sv.len() {
            assert(sorted@ =~= sv.subrange(0, top_x as int));
        }
        assert forall|c: Rgba| #[trigger] color_count_in(s, c) > 0 implies (exists|i: int|
            0 <= i < sorted@.len() && (#[trigger] sorted@[i]).color == c) || (sorted@.len() == top_x
            && (top_x == 0 || color_count_in(s, c) <= sorted@[top_x as int - 1].count)) by {
            let k = choose|k: int| 0 <= k < sv.len() && (#[trigger] sv[k]).color == c;
            if top_x > sv.len() {
                assert(sorted@[k] == sv[k]);
            } else if k < top_x {
                assert(sorted@[k] == sv[k]);
            } else if top_x >= 1 {
                assert(sv[top_x - 1].count >= sv[k].count);
                assert(sv[k].count == color_count_in(s, sv[k].color));
                assert(sorted@[top_x as int - 1] == sv[top_x - 1]);
            }
        }
    }
    sorted
}

} // verus!
