//! The pixel sequencer: a stable sort of the flattened pixel sequence by
//! the active mode's key, and the reconstruction of an image of the same
//! dimensions from the sorted sequence.
//!
//! The sort's contract pins the result down completely: the output is in
//! non-decreasing key order, it is a permutation of the input (equal
//! multisets), and it is stable — for every key value, the subsequence of
//! pixels carrying that key is exactly the input's subsequence, in input
//! order. A sequence that is already sorted comes back unchanged, so
//! sorting twice by the same mode equals sorting once.

use vstd::prelude::*;
use vstd::seq_lib::group_to_multiset_ensures;
use vstd::seq_lib::lemma_multiset_commutative;

use crate::keys::Mode;
use crate::keys::lemma_keq_is_le_both;
use crate::keys::lemma_pix_le_total;
use crate::keys::lemma_pix_le_trans;
use crate::keys::pix_keq;
use crate::keys::pix_le;
use crate::keys::pix_le_exec;
use crate::pixel::Image;
use crate::pixel::Pixel;
use crate::pixel::SortError;

verus! {

/// The sequence is in non-decreasing key order under mode `m`.
pub open spec fn sorted_by_key(m: Mode, s: Seq<Pixel>) -> bool {
    forall|i: int, j: int| 0 <= i < j < s.len() ==> pix_le(m, s[i], s[j])
}

/// The subsequence of `s` whose pixels share the key of `r` under `m`, in
/// the order they hold in `s`. Stability of the sort says exactly that
/// these subsequences survive sorting unchanged, for every key value.
pub open spec fn key_class(m: Mode, s: Seq<Pixel>, r: Pixel) -> Seq<Pixel>
    decreases s.len(),
{
    if s.len() == 0 {
        Seq::empty()
    } else {
        let rest = key_class(m, s.drop_last(), r);
        if pix_keq(m, s.last(), r) {
            rest.push(s.last())
        } else {
            rest
        }
    }
}

/// Appending one pixel extends its own key class at the end and leaves
/// every other key class unchanged.
proof fn lemma_key_class_push(m: Mode, s: Seq<Pixel>, x: Pixel, r: Pixel)
    ensures
        pix_keq(m, x, r) ==> key_class(m, s.push(x), r) == key_class(m, s, r).push(x),
        !pix_keq(m, x, r) ==> key_class(m, s.push(x), r) == key_class(m, s, r),
{
    assert(s.push(x).drop_last() =~= s);
    assert(s.push(x).last() == x);
}

/// A key class splits over concatenation.
proof fn lemma_key_class_add(m: Mode, a: Seq<Pixel>, b: Seq<Pixel>, r: Pixel)
    ensures
        key_class(m, a + b, r) == key_class(m, a, r) + key_class(m, b, r),
    decreases b.len(),
{
    if b.len() == 0 {
        assert(a + b =~= a);
        assert(key_class(m, b, r) =~= Seq::<Pixel>::empty());
        assert(key_class(m, a, r) + key_class(m, b, r) =~= key_class(m, a, r));
    } else {
        lemma_key_class_add(m, a, b.drop_last(), r);
        assert((a + b).drop_last() =~= a + b.drop_last());
        assert((a + b).last() == b.last());
        lemma_key_class_push(m, b.drop_last(), b.last(), r);
        assert(b.drop_last().push(b.last()) =~= b);
        assert(key_class(m, a + b, r) =~= key_class(m, a, r) + key_class(m, b, r));
    }
}

/// A sequence with no pixel in the key class of `r` contributes nothing to
/// that class.
proof fn lemma_key_class_empty(m: Mode, s: Seq<Pixel>, r: Pixel)
    requires
        forall|k: int| 0 <= k < s.len() ==> !pix_keq(m, s[k], r),
    ensures
        key_class(m, s, r) == Seq::<Pixel>::empty(),
    decreases s.len(),
{
    if s.len() > 0 {
        assert(forall|k: int| 0 <= k < s.drop_last().len() ==> s.drop_last()[k] == s[k]);
        lemma_key_class_empty(m, s.drop_last(), r);
        assert(!pix_keq(m, s.last(), r));
    }
}

/// Inserts `p` into a sorted vector just before the first pixel whose key
/// is strictly greater, so that pixels of equal key keep first-come order.
fn insert_sorted(m: Mode, v: &mut Vec<Pixel>, p: Pixel)
    requires
        sorted_by_key(m, old(v)@),
    ensures
        sorted_by_key(m, final(v)@),
        final(v)@.to_multiset() == old(v)@.to_multiset().insert(p),
        forall|r: Pixel|
            #![trigger key_class(m, final(v)@, r)]
            key_class(m, final(v)@, r) == (if pix_keq(m, p, r) {
                key_class(m, old(v)@, r).push(p)
            } else {
                key_class(m, old(v)@, r)
            }),
        (old(v)@.len() == 0 || pix_le(m, old(v)@.last(), p)) ==> final(v)@ == old(v)@.push(p),
{
    let ghost s0 = v@;
    let mut j: usize = v.len();
    while j > 0 && !pix_le_exec(m, v[j - 1], p)
        invariant
            j <= v@.len(),
            v@ == s0,
            sorted_by_key(m, s0),
            forall|k: int| j <= k < s0.len() ==> !pix_le(m, s0[k], p),
        decreases j,
    {
        j = j - 1;
    }
    v.insert(j, p);
    proof {
        broadcast use group_to_multiset_ensures;

        let jj = j as int;
        let n = s0.len() as int;
        let pre = s0.subrange(0, jj);
        let post = s0.subrange(jj, n);
        assert(s0 =~= pre + post);
        assert(v@ == pre.push(p) + post);

        // Everything before the insertion point is at most p.
        assert forall|i: int| 0 <= i < jj implies pix_le(m, s0[i], p) by {
            assert(pix_le(m, s0[jj - 1], p));
            if i < jj - 1 {
                lemma_pix_le_trans(m, s0[i], s0[jj - 1], p);
            }
        };
        // Everything after it is at least p.
        assert forall|k: int| jj <= k < n implies pix_le(m, p, s0[k]) by {
            lemma_pix_le_total(m, p, s0[k]);
        };

        // The result is sorted.
        assert forall|i: int| 0 <= i < jj implies v@[i] == s0[i] by {};
        assert(v@[jj] == p);
        assert forall|i: int| jj < i < n + 1 implies v@[i] == s0[i - 1] by {};
        assert forall|i: int, k: int| 0 <= i < k < v@.len() implies pix_le(m, v@[i], v@[k]) by {
            if k < jj {
                assert(pix_le(m, s0[i], s0[k]));
            } else if k == jj {
                assert(pix_le(m, s0[i], p));
            } else if i == jj {
                assert(pix_le(m, p, s0[k - 1]));
            } else if i < jj {
                assert(pix_le(m, s0[i], s0[k - 1]));
            } else {
                assert(pix_le(m, s0[i - 1], s0[k - 1]));
            }
        };

        // The result is the old multiset plus p.
        lemma_multiset_commutative(pre.push(p), post);
        lemma_multiset_commutative(pre, post);
        assert(v@.to_multiset() =~= s0.to_multiset().insert(p));

        // Key classes: p's own class gains p at the end, the rest stand.
        assert forall|r: Pixel|
            #![trigger key_class(m, v@, r)]
            key_class(m, v@, r) == (if pix_keq(m, p, r) {
                key_class(m, s0, r).push(p)
            } else {
                key_class(m, s0, r)
            }) by {
            lemma_key_class_add(m, pre.push(p), post, r);
            lemma_key_class_add(m, pre, post, r);
            lemma_key_class_push(m, pre, p, r);
            if pix_keq(m, p, r) {
                assert forall|k: int| 0 <= k < post.len() implies !pix_keq(m, post[k], r) by {
                    assert(post[k] == s0[jj + k]);
                    lemma_keq_is_le_both(m, p, r);
                    lemma_keq_is_le_both(m, post[k], r);
                    if pix_le(m, post[k], r) {
                        lemma_pix_le_trans(m, post[k], r, p);
                    }
                };
                lemma_key_class_empty(m, post, r);
                assert(key_class(m, v@, r) =~= key_class(m, s0, r).push(p));
            } else {
                assert(key_class(m, v@, r) =~= key_class(m, s0, r));
            }
        };

        // If p goes at the very end, the result is a plain push.
        if s0.len() == 0 || pix_le(m, s0.last(), p) {
            assert(jj == n);
            assert(v@ =~= s0.push(p));
        }
    }
}

/// Stable sort of a pixel sequence by the key of mode `m`: the result is in
/// non-decreasing key order, holds the same pixels with the same
/// multiplicities, and keeps the input order within every key class. An
/// input already in order comes back unchanged.
pub fn sort_pixel_seq(m: Mode, v: &Vec<Pixel>) -> (out: Vec<Pixel>)
    ensures
        sorted_by_key(m, out@),
        out@.to_multiset() == v@.to_multiset(),
        forall|r: Pixel| #![trigger key_class(m, out@, r)]
            key_class(m, out@, r) == key_class(m, v@, r),
        sorted_by_key(m, v@) ==> out@ == v@,
{
    let mut out: Vec<Pixel> = Vec::new();
    proof {
        assert(v@.subrange(0, 0) =~= Seq::<Pixel>::empty());
        assert(out@ == Seq::<Pixel>::empty());
    }
    let mut i: usize = 0;
    while i < v.len()
        invariant
            i <= v@.len(),
            sorted_by_key(m, out@),
            out@.to_multiset() == v@.subrange(0, i as int).to_multiset(),
            forall|r: Pixel| #![trigger key_class(m, out@, r)]
                key_class(m, out@, r) == key_class(m, v@.subrange(0, i as int), r),
            sorted_by_key(m, v@) ==> out@ == v@.subrange(0, i as int),
        decreases v@.len() - i,
    {
        let ghost prev = out@;
        let ghost prefix = v@.subrange(0, i as int);
        let p = v[i];
        proof {
            if sorted_by_key(m, v@) && i > 0 {
                assert(prev.last() == v@[i as int - 1]);
                assert(pix_le(m, v@[i as int - 1], v@[i as int]));
            }
        }
        insert_sorted(m, &mut out, p);
        proof {
            broadcast use group_to_multiset_ensures;

            let ii = i as int;
            assert(v@.subrange(0, ii + 1) =~= prefix.push(v@[ii]));
            assert forall|r: Pixel| #![trigger key_class(m, out@, r)]
                key_class(m, out@, r) == key_class(m, v@.subrange(0, ii + 1), r) by {
                lemma_key_class_push(m, prefix, v@[ii], r);
            };
            if sorted_by_key(m, v@) {
                assert(out@ == prev.push(p));
                assert(out@ =~= v@.subrange(0, ii + 1));
            }
        }
        i = i + 1;
    }
    proof {
        assert(v@.subrange(0, v@.len() as int) =~= v@);
    }
    out
}

/// A sequence of at most one pixel is sorted under every mode; with the
/// sort's contract this gives that a one-pixel image sorts to itself.
pub proof fn lemma_short_seq_sorted(m: Mode, s: Seq<Pixel>)
    requires
        s.len() <= 1,
    ensures
        sorted_by_key(m, s),
{
}

/// A nonempty key class of `s` names a pixel that `s` holds.
proof fn lemma_key_class_member(m: Mode, s: Seq<Pixel>, r: Pixel)
    requires
        key_class(m, s, r).len() > 0,
    ensures
        exists|i: int| 0 <= i < s.len() && pix_keq(m, #[trigger] s[i], r),
    decreases s.len(),
{
    if s.len() > 0 {
        if pix_keq(m, s.last(), r) {
            assert(0 <= s.len() - 1 < s.len() && pix_keq(m, s[s.len() - 1], r));
        } else {
            lemma_key_class_member(m, s.drop_last(), r);
            let i = choose|i: int|
                0 <= i < s.drop_last().len() && pix_keq(m, #[trigger] s.drop_last()[i], r);
            assert(s.drop_last()[i] == s[i]);
            assert(pix_keq(m, s[i], r));
        }
    }
}

/// The sort's contract is categorical: two sequences that are both in key
/// order under `m` and agree on every key class are one and the same. So
/// exactly one sorted permutation of a given input keeps every key class in
/// input order — the sort's output, and nothing else, meets the contract.
pub proof fn lemma_sorted_key_classes_unique(m: Mode, s1: Seq<Pixel>, s2: Seq<Pixel>)
    requires
        sorted_by_key(m, s1),
        sorted_by_key(m, s2),
        forall|r: Pixel| #![trigger key_class(m, s1, r)]
            key_class(m, s1, r) == key_class(m, s2, r),
    ensures
        s1 == s2,
    decreases s1.len(),
{
    if s1.len() == 0 {
        if s2.len() > 0 {
            let y = s2.last();
            assert(s2.drop_last().push(y) =~= s2);
            lemma_key_class_push(m, s2.drop_last(), y, y);
            assert(key_class(m, s2, y).len() > 0);
            assert(key_class(m, s1, y) =~= Seq::<Pixel>::empty());
            assert(false);
        }
        assert(s1 =~= s2);
    } else if s2.len() == 0 {
        let x = s1.last();
        assert(s1.drop_last().push(x) =~= s1);
        lemma_key_class_push(m, s1.drop_last(), x, x);
        assert(key_class(m, s1, x).len() > 0);
        assert(key_class(m, s2, x) =~= Seq::<Pixel>::empty());
        assert(false);
    } else {
        let x = s1.last();
        let y = s2.last();
        let d1 = s1.drop_last();
        let d2 = s2.drop_last();
        assert(d1.push(x) =~= s1);
        assert(d2.push(y) =~= s2);

        // x's class in s1 ends with x, so s2 also holds a pixel keyed as x.
        lemma_key_class_push(m, d1, x, x);
        assert(key_class(m, s1, x).len() > 0);
        assert(key_class(m, s1, x).last() == x);
        lemma_key_class_member(m, s2, x);
        let i = choose|i: int| 0 <= i < s2.len() && pix_keq(m, #[trigger] s2[i], x);
        lemma_keq_is_le_both(m, s2[i], x);
        if i < s2.len() - 1 {
            assert(pix_le(m, s2[i], y));
        } else {
            assert(s2[i] == y);
        }
        lemma_pix_le_trans(m, x, s2[i], y);

        // Symmetrically, s1 holds a pixel keyed as y, so the keys tie.
        lemma_key_class_push(m, d2, y, y);
        assert(key_class(m, s2, y).len() > 0);
        lemma_key_class_member(m, s1, y);
        let j = choose|j: int| 0 <= j < s1.len() && pix_keq(m, #[trigger] s1[j], y);
        lemma_keq_is_le_both(m, s1[j], y);
        if j < s1.len() - 1 {
            assert(pix_le(m, s1[j], x));
        } else {
            assert(s1[j] == x);
        }
        lemma_pix_le_trans(m, y, s1[j], x);
        lemma_keq_is_le_both(m, x, y);
        assert(pix_keq(m, x, y));

        // Equal classes of x end with x and with y, so the lasts are equal.
        lemma_key_class_push(m, d2, y, x);
        assert(key_class(m, s2, x).last() == y);
        assert(x == y);

        // The prefixes agree on every key class; recurse on them.
        assert forall|r: Pixel| #![trigger key_class(m, d1, r)]
            key_class(m, d1, r) == key_class(m, d2, r) by {
            lemma_key_class_push(m, d1, x, r);
            lemma_key_class_push(m, d2, x, r);
            if pix_keq(m, x, r) {
                assert(key_class(m, d1, r) =~= key_class(m, s1, r).drop_last());
                assert(key_class(m, d2, r) =~= key_class(m, s2, r).drop_last());
            }
        };
        assert forall|a: int, b: int| 0 <= a < b < d1.len() implies pix_le(m, d1[a], d1[b]) by {
            assert(d1[a] == s1[a]);
            assert(d1[b] == s1[b]);
        };
        assert forall|a: int, b: int| 0 <= a < b < d2.len() implies pix_le(m, d2[a], d2[b]) by {
            assert(d2[a] == s2[a]);
            assert(d2[b] == s2[b]);
        };
        lemma_sorted_key_classes_unique(m, d1, d2);
        assert(s1 =~= s2);
    }
}

/// Sorts every pixel of the image by the key of `mode`: the pixels are read
/// in row-major order, stably reordered into non-decreasing key order, and
/// laid back into a raster of the same width and height. A raster whose
/// pixel count does not match its dimensions — the zero-pixel raster
/// included — is rejected with `InvalidDimensions`; a well-formed image
/// always sorts. An image already in order under `mode` comes back with its
/// pixel sequence unchanged.
pub fn sort_pixels(img: Image, mode: Mode) -> (res: Result<Image, SortError>)
    ensures
        match res {
            Ok(out) => {
                &&& img.wf()
                &&& out.wf()
                &&& out.width == img.width
                &&& out.height == img.height
                &&& sorted_by_key(mode, out.pixels@)
                &&& out.pixels@.to_multiset() == img.pixels@.to_multiset()
                &&& forall|r: Pixel| #![trigger key_class(mode, out.pixels@, r)]
                    key_class(mode, out.pixels@, r) == key_class(mode, img.pixels@, r)
                &&& sorted_by_key(mode, img.pixels@) ==> out.pixels@ == img.pixels@
            },
            Err(e) => {
                &&& !img.wf()
                &&& e == SortError::InvalidDimensions
            },
        },
{
    if img.width == 0 || img.height == 0 {
        return Err(SortError::InvalidDimensions);
    }
    proof {
        assert((img.width as int) * (img.height as int) < 0x1_0000_0000_0000_0000_0000_0000_0000_0000)
            by (nonlinear_arith)
            requires
                (img.width as int) < 0x1_0000_0000_0000_0000,
                (img.height as int) < 0x1_0000_0000_0000_0000,
        ;
    }
    if (img.width as u128) * (img.height as u128) != (img.pixels.len() as u128) {
        return Err(SortError::InvalidDimensions);
    }
    let out_pixels = sort_pixel_seq(mode, &img.pixels);
    proof {
        broadcast use group_to_multiset_ensures;

        assert(out_pixels@.to_multiset().len() == img.pixels@.to_multiset().len());
        assert(out_pixels@.len() == img.pixels@.len());
        assert((img.width as int) * (img.height as int) == img.pixels@.len());
    }
    Ok(Image { width: img.width, height: img.height, pixels: out_pixels })
}

} // verus!
