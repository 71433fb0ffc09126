//! Ordering of a color list by a perceptual criterion.
//!
//! Every order is a stable sort by an integer key: colors with equal keys
//! keep the order in which they were given.

use crate::color_spaces::{hsv_hue, hsv_saturation, lemma_hsv_ranges, RGBColor};
use crate::lab::lab_l;
use crate::layout::ColorSortOrder;
use vstd::prelude::*;

verus! {

/// Number of samples of the reference gradient.
pub const COLOR_MAP_SIZE: usize = 100;

/// The sample that the Turbo gradient of `colorous` gives at position `i` of
/// `n`, as red, green and blue.
pub uninterp spec fn turbo_sample(i: usize, n: usize) -> (u8, u8, u8);

/// `colorous::TURBO.eval_rational`: the gradient sampled at position `i` of
/// `n`. It panics for `n == 0`, which the precondition leaves out.
#[verifier::external_body]
fn turbo_eval_rational(i: usize, n: usize) -> (rgb: (u8, u8, u8))
    requires
        n > 0,
    ensures
        rgb == turbo_sample(i, n),
{
    let col = colorous::TURBO.eval_rational(i, n);
    (col.r, col.g, col.b)
}

/// The reference gradient: `n` samples of Turbo, evenly spaced.
pub open spec fn reference_gradient(n: usize) -> Seq<RGBColor> {
    Seq::new(
        n as nat,
        |i: int|
            RGBColor {
                r: turbo_sample(i as usize, n).0,
                g: turbo_sample(i as usize, n).1,
                b: turbo_sample(i as usize, n).2,
            },
    )
}

/// Squared Euclidean distance in RGB.
pub open spec fn distance_squared(a: RGBColor, b: RGBColor) -> int {
    (a.r - b.r) * (a.r - b.r) + (a.g - b.g) * (a.g - b.g) + (a.b - b.b) * (a.b - b.b)
}

/// Index of the sample nearest to `c`; of several at the same distance, the
/// first. 0 for an empty gradient.
pub open spec fn nearest_index(c: RGBColor, samples: Seq<RGBColor>) -> int
    decreases samples.len(),
{
    if samples.len() <= 1 {
        0
    } else {
        let before = nearest_index(c, samples.drop_last());
        if distance_squared(c, samples.last()) < distance_squared(c, samples[before]) {
            samples.len() - 1
        } else {
            before
        }
    }
}

/// The sort key of a color under an order: its hue, its saturation, its
/// L* in hundredths, or its relative luminance
/// `0.2126 R + 0.7152 G + 0.0722 B` in units of 10^-4.
pub open spec fn sort_key(order: ColorSortOrder, c: RGBColor) -> int {
    match order {
        ColorSortOrder::Unsorted => 0,
        ColorSortOrder::Hue => hsv_hue(c),
        ColorSortOrder::Saturation => hsv_saturation(c),
        ColorSortOrder::Lightness => lab_l(c),
        ColorSortOrder::Luminance => 2126 * c.r + 7152 * c.g + 722 * c.b,
    }
}

/// The key under which a color is sorted against a reference gradient: the
/// later its nearest sample, the smaller the key.
pub open spec fn reference_key(c: RGBColor, samples: Seq<RGBColor>) -> int {
    samples.len() - nearest_index(c, samples)
}

/// How many leading items of `s` have a key of at most `k`.
pub open spec fn leading_at_most(s: Seq<(u64, RGBColor)>, k: u64) -> nat
    decreases s.len(),
{
    if s.len() == 0 || s[0].0 > k {
        0
    } else {
        1 + leading_at_most(s.drop_first(), k)
    }
}

/// `item` put into `s` behind the leading items whose key is not above its own.
pub open spec fn stable_insert(s: Seq<(u64, RGBColor)>, item: (u64, RGBColor)) -> Seq<
    (u64, RGBColor),
> {
    s.insert(leading_at_most(s, item.0) as int, item)
}

/// The items in ascending order of key, equal keys in the order given.
pub open spec fn stable_sorted(items: Seq<(u64, RGBColor)>) -> Seq<(u64, RGBColor)>
    decreases items.len(),
{
    if items.len() == 0 {
        Seq::empty()
    } else {
        stable_insert(stable_sorted(items.drop_last()), items.last())
    }
}

/// Each color beside its key.
pub open spec fn keyed(colors: Seq<RGBColor>, keys: Seq<u64>) -> Seq<(u64, RGBColor)> {
    Seq::new(colors.len(), |i: int| (keys[i], colors[i]))
}

/// The colors of keyed items, in their order.
pub open spec fn colors_of(items: Seq<(u64, RGBColor)>) -> Seq<RGBColor> {
    Seq::new(items.len(), |i: int| items[i].1)
}

/// The keys of a color list under an order.
pub open spec fn order_keys(colors: Seq<RGBColor>, order: ColorSortOrder) -> Seq<u64> {
    Seq::new(colors.len(), |i: int| sort_key(order, colors[i]) as u64)
}

/// The keys of a color list against a reference gradient.
pub open spec fn reference_keys(colors: Seq<RGBColor>, samples: Seq<RGBColor>) -> Seq<u64> {
    Seq::new(colors.len(), |i: int| reference_key(colors[i], samples) as u64)
}

/// The colors in the requested order.
pub open spec fn sorted_colors(colors: Seq<RGBColor>, order: ColorSortOrder) -> Seq<RGBColor> {
    if order == ColorSortOrder::Unsorted {
        colors
    } else {
        colors_of(stable_sorted(keyed(colors, order_keys(colors, order))))
    }
}

/// The colors by the place of their nearest reference sample, latest first.
pub open spec fn sorted_by_reference(colors: Seq<RGBColor>, samples: Seq<RGBColor>) -> Seq<
    RGBColor,
> {
    colors_of(stable_sorted(keyed(colors, reference_keys(colors, samples))))
}

/// Whether the keys never fall from one item to the next.
pub open spec fn ascending(s: Seq<(u64, RGBColor)>) -> bool {
    forall|i: int, j: int| 0 <= i <= j < s.len() ==> s[i].0 <= s[j].0
}

/// The nearest sample is in range, no sample is nearer, and none before it
/// is as near.
pub proof fn lemma_nearest_index(c: RGBColor, samples: Seq<RGBColor>)
    requires
        samples.len() > 0,
    ensures
        0 <= nearest_index(c, samples) < samples.len(),
        forall|j: int|
            0 <= j < samples.len() ==> distance_squared(c, samples[nearest_index(c, samples)])
                <= distance_squared(c, #[trigger] samples[j]),
        forall|j: int|
            0 <= j < nearest_index(c, samples) ==> distance_squared(
                c,
                samples[nearest_index(c, samples)],
            ) < distance_squared(c, #[trigger] samples[j]),
    decreases samples.len(),
{
    if samples.len() > 1 {
        let front = samples.drop_last();
        lemma_nearest_index(c, front);
        assert forall|j: int| 0 <= j < front.len() implies front[j] == samples[j] by {}
        let before = nearest_index(c, front);
        assert(front[before] == samples[before]);
    }
}

/// When the first `p` keys are at most `k` and the next one, if any, is
/// above it, `p` is the number of leading keys at most `k`.
pub proof fn lemma_leading_at_most(s: Seq<(u64, RGBColor)>, k: u64, p: int)
    requires
        0 <= p <= s.len(),
        forall|j: int| 0 <= j < p ==> s[j].0 <= k,
        p == s.len() || s[p].0 > k,
    ensures
        leading_at_most(s, k) == p,
    decreases s.len(),
{
    if p > 0 {
        let rest = s.drop_first();
        assert forall|j: int| 0 <= j < p - 1 implies rest[j].0 <= k by {
            assert(rest[j] == s[j + 1]);
        }
        if p - 1 < rest.len() {
            assert(rest[p - 1] == s[p]);
        }
        lemma_leading_at_most(rest, k, p - 1);
    }
}

/// The leading items counted by `leading_at_most` have keys of at most `k`,
/// and the item behind them, if any, has a greater key.
pub proof fn lemma_leading_at_most_bounds(s: Seq<(u64, RGBColor)>, k: u64)
    ensures
        leading_at_most(s, k) <= s.len(),
        forall|j: int| 0 <= j < leading_at_most(s, k) ==> s[j].0 <= k,
        leading_at_most(s, k) < s.len() ==> s[leading_at_most(s, k) as int].0 > k,
    decreases s.len(),
{
    if !(s.len() == 0 || s[0].0 > k) {
        let rest = s.drop_first();
        lemma_leading_at_most_bounds(rest, k);
        assert forall|j: int| 0 <= j < leading_at_most(s, k) implies s[j].0 <= k by {
            if j > 0 {
                assert(rest[j - 1] == s[j]);
            }
        }
        if leading_at_most(s, k) < s.len() {
            assert(rest[leading_at_most(rest, k) as int] == s[leading_at_most(s, k) as int]);
        }
    }
}

/// A stable sort reorders and never adds or drops: the result holds the
/// same items as often as the input, and its keys ascend.
pub proof fn lemma_stable_sorted(items: Seq<(u64, RGBColor)>)
    ensures
        stable_sorted(items).len() == items.len(),
        stable_sorted(items).to_multiset() == items.to_multiset(),
        ascending(stable_sorted(items)),
    decreases items.len(),
{
    if items.len() == 0 {
        assert(items =~= Seq::empty());
    } else {
        let front = items.drop_last();
        let item = items.last();
        lemma_stable_sorted(front);
        let s = stable_sorted(front);
        let p = leading_at_most(s, item.0) as int;
        lemma_leading_at_most_bounds(s, item.0);
        let t = s.insert(p, item);
        vstd::seq_lib::to_multiset_insert(s, p, item);
        assert(front.push(item) =~= items);
        vstd::seq_lib::to_multiset_build(front, item);
        assert(t.to_multiset() =~= items.to_multiset());
        assert forall|i: int, j: int| 0 <= i <= j < t.len() implies t[i].0 <= t[j].0 by {
            if i < p && j > p {
                assert(t[j] == s[j - 1]);
                assert(s[i].0 <= s[j - 1].0);
            } else if i < p && j < p {
                assert(s[i].0 <= s[j].0);
            } else if i > p {
                assert(s[i - 1].0 <= s[j - 1].0);
            } else if i == p && j > p {
                assert(s[p].0 <= s[j - 1].0);
            }
        }
    }
}

/// A stable sort keeps ties in the order given: the items of any one key
/// stand in the result as they stood in the input.
pub proof fn lemma_stable_sorted_keeps_order(items: Seq<(u64, RGBColor)>, k: u64)
    ensures
        stable_sorted(items).filter(|it: (u64, RGBColor)| it.0 == k) == items.filter(
            |it: (u64, RGBColor)| it.0 == k,
        ),
    decreases items.len(),
{
    let pred = |it: (u64, RGBColor)| it.0 == k;
    if items.len() == 0 {
        assert(items =~= stable_sorted(items));
    } else {
        let front = items.drop_last();
        let item = items.last();
        lemma_stable_sorted_keeps_order(front, k);
        let s = stable_sorted(front);
        lemma_stable_sorted(front);
        lemma_leading_at_most_bounds(s, item.0);
        let p = leading_at_most(s, item.0) as int;
        let head = s.subrange(0, p);
        let tail = s.subrange(p, s.len() as int);
        assert(s =~= head + tail);
        assert(s.insert(p, item) =~= head.push(item) + tail);
        Seq::filter_distributes_over_add(head, tail, pred);
        Seq::filter_distributes_over_add(head.push(item), tail, pred);
        head.lemma_filter_push(item, pred);
        assert(items =~= front.push(item));
        front.lemma_filter_push(item, pred);
        if pred(item) {
            assert forall|i: int| 0 <= i < tail.len() implies !pred(#[trigger] tail[i]) by {
                assert(tail[i] == s[p + i]);
                assert(s[p].0 <= s[p + i].0);
            }
            assert(tail.all(|x: (u64, RGBColor)| !pred(x)));
            tail.lemma_all_neg_filter_empty(pred);
            assert(tail.filter(pred) =~= Seq::empty());
            assert(head.filter(pred).push(item) + tail.filter(pred) =~= (head.filter(pred)
                + tail.filter(pred)).push(item));
        }
    }
}

/// Whether each item's key is the one that `key` gives its color.
pub open spec fn keys_follow(items: Seq<(u64, RGBColor)>, key: spec_fn(RGBColor) -> u64) -> bool {
    forall|i: int| 0 <= i < items.len() ==> (#[trigger] items[i]).0 == key(items[i].1)
}

/// Sorting keeps each color beside its own key.
pub proof fn lemma_sorted_keys_follow(items: Seq<(u64, RGBColor)>, key: spec_fn(RGBColor) -> u64)
    requires
        keys_follow(items, key),
    ensures
        keys_follow(stable_sorted(items), key),
    decreases items.len(),
{
    if items.len() > 0 {
        let front = items.drop_last();
        let item = items.last();
        assert forall|i: int| 0 <= i < front.len() implies (#[trigger] front[i]).0 == key(
            front[i].1,
        ) by {
            assert(front[i] == items[i]);
        }
        lemma_sorted_keys_follow(front, key);
        let s = stable_sorted(front);
        lemma_leading_at_most_bounds(s, item.0);
        let p = leading_at_most(s, item.0) as int;
        let t = s.insert(p, item);
        assert forall|i: int| 0 <= i < t.len() implies (#[trigger] t[i]).0 == key(t[i].1) by {
            if i < p {
                assert(t[i] == s[i]);
            } else if i > p {
                assert(t[i] == s[i - 1]);
            }
        }
    }
}

/// The colors of sorted items are the colors of the items, each as often.
pub proof fn lemma_sorted_colors_permute(items: Seq<(u64, RGBColor)>)
    ensures
        colors_of(stable_sorted(items)).len() == items.len(),
        colors_of(stable_sorted(items)).to_multiset() == colors_of(items).to_multiset(),
    decreases items.len(),
{
    if items.len() == 0 {
        assert(colors_of(items) =~= colors_of(stable_sorted(items)));
    } else {
        let front = items.drop_last();
        let item = items.last();
        lemma_sorted_colors_permute(front);
        let s = stable_sorted(front);
        lemma_stable_sorted(front);
        lemma_leading_at_most_bounds(s, item.0);
        let p = leading_at_most(s, item.0) as int;
        assert(colors_of(s.insert(p, item)) =~= colors_of(s).insert(p, item.1));
        vstd::seq_lib::to_multiset_insert(colors_of(s), p, item.1);
        assert(colors_of(items) =~= colors_of(front).push(item.1));
        vstd::seq_lib::to_multiset_build(colors_of(front), item.1);
        assert(colors_of(stable_sorted(items)).to_multiset() =~= colors_of(items).to_multiset());
    }
}

/// Sorting reorders the colors and neither adds nor drops one. `Unsorted`
/// leaves them as given; under every other order the keys ascend.
pub proof fn lemma_sort_orders(colors: Seq<RGBColor>, order: ColorSortOrder)
    ensures
        sorted_colors(colors, order).len() == colors.len(),
        sorted_colors(colors, order).to_multiset() == colors.to_multiset(),
        order == ColorSortOrder::Unsorted ==> sorted_colors(colors, order) == colors,
        order != ColorSortOrder::Unsorted ==> forall|i: int, j: int|
            0 <= i <= j < colors.len() ==> sort_key(order, sorted_colors(colors, order)[i]) as u64
                <= sort_key(order, sorted_colors(colors, order)[j]) as u64,
{
    if order != ColorSortOrder::Unsorted {
        let items = keyed(colors, order_keys(colors, order));
        let key = |c: RGBColor| sort_key(order, c) as u64;
        lemma_sorted_keys_follow(items, key);
        lemma_stable_sorted(items);
        lemma_sorted_colors_permute(items);
        assert(colors_of(items) =~= colors);
        let sorted = stable_sorted(items);
        assert forall|i: int, j: int| 0 <= i <= j < colors.len() implies sort_key(
            order,
            sorted_colors(colors, order)[i],
        ) as u64 <= sort_key(order, sorted_colors(colors, order)[j]) as u64 by {
            assert(sorted[i].0 == key(sorted[i].1));
            assert(sorted[j].0 == key(sorted[j].1));
        }
    }
}

/// Sorting against a reference gradient reorders the colors and neither adds
/// nor drops one; the index of the nearest sample never rises from one color
/// to the next.
pub proof fn lemma_sort_by_reference(colors: Seq<RGBColor>, samples: Seq<RGBColor>)
    requires
        samples.len() <= usize::MAX,
    ensures
        sorted_by_reference(colors, samples).len() == colors.len(),
        sorted_by_reference(colors, samples).to_multiset() == colors.to_multiset(),
        forall|i: int, j: int|
            0 <= i <= j < colors.len() ==> nearest_index(
                sorted_by_reference(colors, samples)[i],
                samples,
            ) >= nearest_index(sorted_by_reference(colors, samples)[j], samples),
{
    let items = keyed(colors, reference_keys(colors, samples));
    let key = |c: RGBColor| reference_key(c, samples) as u64;
    lemma_sorted_keys_follow(items, key);
    lemma_stable_sorted(items);
    lemma_sorted_colors_permute(items);
    assert(colors_of(items) =~= colors);
    let sorted = stable_sorted(items);
    assert forall|i: int, j: int| 0 <= i <= j < colors.len() implies nearest_index(
        sorted_by_reference(colors, samples)[i],
        samples,
    ) >= nearest_index(sorted_by_reference(colors, samples)[j], samples) by {
        assert(sorted[i].0 == key(sorted[i].1));
        assert(sorted[j].0 == key(sorted[j].1));
        if samples.len() > 0 {
            lemma_nearest_index(sorted[i].1, samples);
            lemma_nearest_index(sorted[j].1, samples);
        }
    }
}

/// Squared Euclidean distance in RGB between two colors.
pub fn color_distance_squared(a: RGBColor, b: RGBColor) -> (d: u32)
    ensures
        d == distance_squared(a, b),
{
    let dr: i32 = a.r as i32 - b.r as i32;
    let dg: i32 = a.g as i32 - b.g as i32;
    let db: i32 = a.b as i32 - b.b as i32;
    assert(0 <= dr * dr <= 65025 && 0 <= dg * dg <= 65025 && 0 <= db * db <= 65025)
        by (nonlinear_arith)
        requires
            -255 <= dr <= 255,
            -255 <= dg <= 255,
            -255 <= db <= 255,
    ;
    (dr * dr + dg * dg + db * db) as u32
}

/// Index of the sample nearest to `c`, the first of several at the same
/// distance; 0 for an empty gradient.
pub fn find_nearest_index(c: RGBColor, samples: &Vec<RGBColor>) -> (idx: usize)
    ensures
        idx == nearest_index(c, samples@),
        samples.len() > 0 ==> idx < samples.len(),
{
    if samples.len() == 0 {
        return 0;
    }
    let mut best: usize = 0;
    let mut best_distance: u32 = color_distance_squared(c, samples[0]);
    let mut j: usize = 1;
    while j < samples.len()
        invariant
            1 <= j <= samples.len(),
            best < j,
            best == nearest_index(c, samples@.take(j as int)),
            best_distance == distance_squared(c, samples@[best as int]),
        decreases samples.len() - j,
    {
        let distance: u32 = color_distance_squared(c, samples[j]);
        proof {
            let next = samples@.take(j + 1);
            assert(next.drop_last() =~= samples@.take(j as int));
            assert(next.last() == samples@[j as int]);
            assert(next[best as int] == samples@[best as int]);
        }
        if distance < best_distance {
            best = j;
            best_distance = distance;
        }
        j = j + 1;
    }
    assert(samples@.take(samples.len() as int) =~= samples@);
    best
}

/// The colors in ascending order of their keys, colors with equal keys in
/// the order given.
pub fn sort_by_keys(colors: &Vec<RGBColor>, keys: &Vec<u64>) -> (res: Vec<RGBColor>)
    requires
        keys.len() == colors.len(),
    ensures
        res@ == colors_of(stable_sorted(keyed(colors@, keys@))),
        res.len() == colors.len(),
{
    let ghost all = keyed(colors@, keys@);
    let mut items: Vec<(u64, RGBColor)> = Vec::new();
    let mut i: usize = 0;
    while i < colors.len()
        invariant
            i <= colors.len(),
            keys.len() == colors.len(),
            all == keyed(colors@, keys@),
            items@ == stable_sorted(all.take(i as int)),
            items.len() == i,
        decreases colors.len() - i,
    {
        let k: u64 = keys[i];
        let mut p: usize = 0;
        while p < items.len() && items[p].0 <= k
            invariant
                p <= items.len(),
                forall|j: int| 0 <= j < p ==> items@[j].0 <= k,
            decreases items.len() - p,
        {
            p = p + 1;
        }
        proof {
            lemma_leading_at_most(items@, k, p as int);
            let next = all.take(i + 1);
            assert(next.drop_last() =~= all.take(i as int));
            assert(next.last() == (k, colors@[i as int]));
        }
        items.insert(p, (k, colors[i]));
        i = i + 1;
    }
    assert(all.take(colors.len() as int) =~= all);
    let mut res: Vec<RGBColor> = Vec::new();
    let mut j: usize = 0;
    while j < items.len()
        invariant
            j <= items.len(),
            res.len() == j,
            forall|m: int| 0 <= m < j ==> res@[m] == items@[m].1,
        decreases items.len() - j,
    {
        res.push(items[j].1);
        j = j + 1;
    }
    assert(res@ =~= colors_of(items@));
    res
}

/// The sort key of a color under an order.
pub fn sort_key_of(order: ColorSortOrder, c: RGBColor) -> (key: u64)
    ensures
        key == sort_key(order, c),
{
    proof {
        lemma_hsv_ranges(c);
    }
    match order {
        ColorSortOrder::Unsorted => 0,
        ColorSortOrder::Hue => c.to_hsv().h as u64,
        ColorSortOrder::Saturation => c.to_hsv().s as u64,
        ColorSortOrder::Lightness => c.to_lab().l as u64,
        ColorSortOrder::Luminance => 2126 * (c.r as u64) + 7152 * (c.g as u64) + 722 * (
        c.b as u64),
    }
}

/// The colors in the requested order: as given for `Unsorted`, else
/// ascending by hue, saturation, lightness or luminance, colors that agree
/// in it in the order given.
pub fn sort_colors(colors: &Vec<RGBColor>, order: ColorSortOrder) -> (res: Vec<RGBColor>)
    ensures
        res@ == sorted_colors(colors@, order),
        res.len() == colors.len(),
        order == ColorSortOrder::Unsorted ==> res@ == colors@,
{
    let mut keys: Vec<u64> = Vec::new();
    let mut i: usize = 0;
    while i < colors.len()
        invariant
            i <= colors.len(),
            keys.len() == i,
            forall|m: int| 0 <= m < i ==> keys@[m] == sort_key(order, colors@[m]) as u64,
        decreases colors.len() - i,
    {
        keys.push(sort_key_of(order, colors[i]));
        i = i + 1;
    }
    assert(keys@ =~= order_keys(colors@, order));
    match order {
        ColorSortOrder::Unsorted => {
            let mut res: Vec<RGBColor> = Vec::new();
            let mut j: usize = 0;
            while j < colors.len()
                invariant
                    j <= colors.len(),
                    res.len() == j,
                    forall|m: int| 0 <= m < j ==> res@[m] == colors@[m],
                decreases colors.len() - j,
            {
                res.push(colors[j]);
                j = j + 1;
            }
            assert(res@ =~= colors@);
            res
        },
        _ => sort_by_keys(colors, &keys),
    }
}

/// The colors by the place of their nearest sample in `samples`, latest
/// sample first; colors with the same nearest sample in the order given.
pub fn sort_by_reference(colors: &Vec<RGBColor>, samples: &Vec<RGBColor>) -> (res: Vec<RGBColor>)
    ensures
        res@ == sorted_by_reference(colors@, samples@),
        res.len() == colors.len(),
{
    let mut keys: Vec<u64> = Vec::new();
    let mut i: usize = 0;
    while i < colors.len()
        invariant
            i <= colors.len(),
            keys.len() == i,
            forall|m: int| 0 <= m < i ==> keys@[m] == reference_key(colors@[m], samples@) as u64,
        decreases colors.len() - i,
    {
        let nearest: usize = find_nearest_index(colors[i], samples);
        keys.push((samples.len() - nearest) as u64);
        i = i + 1;
    }
    assert(keys@ =~= reference_keys(colors@, samples@));
    sort_by_keys(colors, &keys)
}

/// The reference gradient: `COLOR_MAP_SIZE` samples of Turbo.
pub fn build_reference_gradient() -> (samples: Vec<RGBColor>)
    ensures
        samples@ == reference_gradient(COLOR_MAP_SIZE),
{
    let mut samples: Vec<RGBColor> = Vec::new();
    let mut i: usize = 0;
    while i < COLOR_MAP_SIZE
        invariant
            i <= COLOR_MAP_SIZE,
            samples.len() == i,
            forall|m: int| 0 <= m < i ==> samples@[m] == reference_gradient(COLOR_MAP_SIZE)[m],
        decreases COLOR_MAP_SIZE - i,
    {
        let rgb = turbo_eval_rational(i, COLOR_MAP_SIZE);
        samples.push(RGBColor { r: rgb.0, g: rgb.1, b: rgb.2 });
        i = i + 1;
    }
    assert(samples@ =~= reference_gradient(COLOR_MAP_SIZE));
    samples
}

/// The colors by the place of their nearest sample on the Turbo gradient,
/// latest sample first.
pub fn sort_colors_colormap(colors: &Vec<RGBColor>) -> (res: Vec<RGBColor>)
    ensures
        res@ == sorted_by_reference(colors@, reference_gradient(COLOR_MAP_SIZE)),
        res.len() == colors.len(),
{
    let samples = build_reference_gradient();
    sort_by_reference(colors, &samples)
}

} // verus!
