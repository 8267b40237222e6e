//! A binary max-heap priority queue over copyable, ordered items.
//!
//! The queue keeps its items in one `Vec` laid out as an implicit binary
//! tree; `heapify` runs a single bottom-up pass of parent/child swaps.
//! Every mutating operation is specified as a permutation: the multiset
//! of stored items is preserved exactly.

use vstd::prelude::*;
use vstd::seq_lib::lemma_multiset_commutative;
use vstd::arithmetic::power2::{
    pow2, lemma_pow2_pos, lemma_pow2_unfold, lemma_pow2_strictly_increases, lemma2_to64,
    lemma2_to64_rest,
};
use vstd::string::StringExecFns;
use vstd::std_specs::cmp::PartialOrdSpec;
use core::cmp::Ordering;
use crate::decimal::u64_to_string;

verus! {

broadcast use
    vstd::seq_lib::group_to_multiset_ensures,
    vstd::seq_lib::to_multiset_update,
    vstd::multiset::group_multiset_axioms;

/// `a` compares less than or equal to `b` by the type's comparison
/// specification.
pub open spec fn le_spec<T: PartialOrd>(a: T, b: T) -> bool {
    a.partial_cmp_spec(&b) matches Some(Ordering::Less | Ordering::Equal)
}

/// The hypotheses under which the comparisons of the heap pass carry
/// meaning: the type's comparison operators agree with its comparison
/// specification, and that specification compares every pair, relates
/// every two values one way or the other, and chains transitively.
/// Every lawful `Ord` implementation (all primitives among them)
/// satisfies this.
pub open spec fn lawful_order<T: PartialOrd>() -> bool {
    &&& T::obeys_partial_cmp_spec()
    &&& forall|a: T, b: T| #[trigger] a.partial_cmp_spec(&b) is Some
    &&& forall|a: T, b: T| #[trigger] le_spec(a, b) || le_spec(b, a)
    &&& forall|a: T, b: T, c: T|
        #![trigger le_spec(a, b), le_spec(b, c)]
        le_spec(a, b) && le_spec(b, c) ==> le_spec(a, c)
}

/// Position `p` holds a maximal element of `s`.
pub open spec fn max_at<T: PartialOrd>(s: Seq<T>, p: int) -> bool {
    &&& 0 <= p < s.len()
    &&& forall|j: int| 0 <= j < s.len() ==> le_spec(#[trigger] s[j], s[p])
}

/// Under a lawful order, every nonempty sequence has a maximal element.
proof fn lemma_seq_has_max<T: Ord + Copy>(s: Seq<T>)
    requires
        lawful_order::<T>(),
        s.len() > 0,
    ensures
        exists|p: int| #[trigger] max_at(s, p),
    decreases s.len(),
{
    if s.len() == 1 {
        assert(le_spec(s[0], s[0]));
        assert(max_at(s, 0));
    } else {
        let sub = s.drop_last();
        lemma_seq_has_max::<T>(sub);
        let p = choose|p: int| #[trigger] max_at(sub, p);
        let last = s.len() - 1;
        if le_spec(s[last as int], sub[p]) {
            assert forall|j: int| 0 <= j < s.len() implies le_spec(#[trigger] s[j], s[p]) by {
                if j < last {
                    assert(sub[j] == s[j]);
                    assert(le_spec(sub[j], sub[p]));
                }
                assert(le_spec(s[last as int], sub[p]));
                assert(sub[p] == s[p]);
            }
            assert(max_at(s, p));
        } else {
            assert(le_spec(sub[p], s[last as int]));
            assert forall|j: int|
                0 <= j < s.len() implies le_spec(#[trigger] s[j], s[last as int]) by {
                if j < last {
                    assert(sub[j] == s[j]);
                    assert(le_spec(s[j], sub[p]));
                    assert(le_spec(sub[p], s[last as int]));
                }
                assert(le_spec(s[last as int], s[last as int]));
            }
            assert(max_at(s, last as int));
        }
    }
}

/// One parent step of the bottom-up pass: if a maximal element stood at
/// a position up to the parent's right child, afterwards one stands at
/// a position before the parent's left child.
proof fn lemma_heap_pass_step<T: Ord + Copy>(
    s0: Seq<T>,
    s1: Seq<T>,
    i: int,
    mid: int,
    lg: int,
    gt_left: bool,
    gt_right: bool,
)
    requires
        lawful_order::<T>(),
        0 <= i,
        2 * i + 1 <= s0.len(),
        mid == (if gt_left {
            2 * i + 1
        } else {
            i
        }),
        lg == (if gt_right {
            2 * i + 2
        } else {
            mid
        }),
        gt_left ==> 2 * i + 1 < s0.len() && s0[2 * i + 1].partial_cmp_spec(&s0[i]) == Some(
            Ordering::Greater,
        ),
        !gt_left && 2 * i + 1 < s0.len() ==> s0[2 * i + 1].partial_cmp_spec(&s0[i]) != Some(
            Ordering::Greater,
        ),
        gt_right ==> 2 * i + 2 < s0.len() && s0[2 * i + 2].partial_cmp_spec(&s0[mid]) == Some(
            Ordering::Greater,
        ),
        !gt_right && 2 * i + 2 < s0.len() ==> s0[2 * i + 2].partial_cmp_spec(&s0[mid]) != Some(
            Ordering::Greater,
        ),
        s1 == (if lg != i {
            s0.update(i, s0[lg]).update(lg, s0[i])
        } else {
            s0
        }),
        exists|p: int| 0 <= p < 2 * i + 3 && #[trigger] max_at(s0, p),
    ensures
        exists|p: int| 0 <= p < 2 * i + 1 && #[trigger] max_at(s1, p),
{
    let li = 2 * i + 1;
    let ri = 2 * i + 2;
    let p0 = choose|p: int| 0 <= p < 2 * i + 3 && #[trigger] max_at(s0, p);
    assert(lg == i || lg == li || lg == ri);
    assert(0 <= lg < s0.len());
    assert(s1.len() == s0.len());
    if p0 != i && p0 != li && p0 != ri {
        // The maximal position is untouched by the swap.
        assert(s1[p0] == s0[p0]);
        assert forall|j: int| 0 <= j < s1.len() implies le_spec(#[trigger] s1[j], s1[p0]) by {
            assert(s1[j] == s0[j] || s1[j] == s0[i] || s1[j] == s0[lg]);
            assert(le_spec(s0[j], s0[p0]));
            assert(le_spec(s0[i], s0[p0]));
            assert(le_spec(s0[lg], s0[p0]));
        }
        assert(max_at(s1, p0));
        assert(0 <= p0 < 2 * i + 1);
    } else {
        // A maximal element stands among parent and children; the
        // comparisons route it to `lg`, and the swap moves it to `i`.
        assert(le_spec(s0[p0], s0[lg])) by {
            if p0 == i {
                if gt_left {
                    assert(le_spec(s0[li], s0[i]));
                    assert(false);
                }
                if gt_right {
                    assert(le_spec(s0[ri], s0[i]));
                    assert(false);
                }
                assert(le_spec(s0[i], s0[i]));
            } else if p0 == li {
                if gt_left {
                    if gt_right {
                        assert(le_spec(s0[ri], s0[li]));
                        assert(false);
                    }
                    assert(le_spec(s0[li], s0[li]));
                } else {
                    assert(s0[li].partial_cmp_spec(&s0[i]) is Some);
                    assert(le_spec(s0[li], s0[i]));
                    if gt_right {
                        assert(le_spec(s0[ri], s0[li]));
                        assert(le_spec(s0[ri], s0[i]));
                        assert(false);
                    }
                }
            } else {
                if gt_right {
                    assert(le_spec(s0[ri], s0[ri]));
                } else {
                    assert(s0[ri].partial_cmp_spec(&s0[mid]) is Some);
                    assert(le_spec(s0[ri], s0[mid]));
                }
            }
        }
        assert(s1[i] == s0[lg]);
        assert forall|j: int| 0 <= j < s1.len() implies le_spec(#[trigger] s1[j], s1[i]) by {
            assert(s1[j] == s0[j] || s1[j] == s0[i] || s1[j] == s0[lg]);
            assert(le_spec(s0[j], s0[p0]));
            assert(le_spec(s0[i], s0[p0]));
            assert(le_spec(s0[lg], s0[p0]));
            assert(le_spec(s0[p0], s0[lg]));
            assert(le_spec(s0[j], s0[lg]));
            assert(le_spec(s0[i], s0[lg]));
            assert(le_spec(s0[lg], s0[lg]));
        }
        assert(max_at(s1, i));
        assert(0 <= i < 2 * i + 1);
    }
}

/// A priority queue backed by a binary heap in a `Vec`.
pub struct PriorityQueue<T: Ord + Copy> {
    heap: Vec<T>,
}

impl<T: Ord + Copy> View for PriorityQueue<T> {
    type V = Seq<T>;

    closed spec fn view(&self) -> Seq<T> {
        self.heap@
    }
}

impl<T: Ord + Copy> From<Vec<T>> for PriorityQueue<T> {
    /// Adopts the vector as the backing storage as it stands, without
    /// re-establishing the heap layout.
    fn from(value: Vec<T>) -> (r: Self)
        ensures
            r@ == value@,
    {
        PriorityQueue { heap: value }
    }
}

impl<T: Ord + Copy> vstd::std_specs::convert::FromSpecImpl<Vec<T>> for PriorityQueue<T> {
    open spec fn obeys_from_spec() -> bool {
        true
    }

    closed spec fn from_spec(v: Vec<T>) -> Self {
        PriorityQueue { heap: v }
    }
}

impl<T: Ord + Copy> PriorityQueue<T> {
    /// The empty queue.
    pub fn new() -> (r: Self)
        ensures
            r@.len() == 0,
    {
        PriorityQueue { heap: Vec::new() }
    }

    /// Adds one item and re-establishes the heap layout.  The stored
    /// items afterwards are exactly the old ones plus `item`.
    pub fn push(&mut self, item: T)
        ensures
            final(self)@.len() == old(self)@.len() + 1,
            final(self)@.to_multiset() == old(self)@.to_multiset().insert(item),
            lawful_order::<T>() ==> max_at(final(self)@, 0),
    {
        self.heap.push(item);
        self.heapify();
    }

    /// Moves every item out of `items` into the queue and re-establishes
    /// the heap layout.  The stored items afterwards are exactly the old
    /// ones plus everything `items` held.
    pub fn append(&mut self, items: &mut Vec<T>)
        requires
            old(self)@.len() + old(items)@.len() > 0,
        ensures
            final(self)@.len() == old(self)@.len() + old(items)@.len(),
            final(self)@.to_multiset() == old(self)@.to_multiset().add(
                old(items)@.to_multiset(),
            ),
            final(items)@.len() == 0,
            lawful_order::<T>() ==> max_at(final(self)@, 0),
    {
        proof {
            lemma_multiset_commutative(self.heap@, items@);
        }
        self.heap.append(items);
        self.heapify();
    }

    /// Removes and returns the root item (the first in the layout).
    pub fn pop(&mut self) -> (r: Option<T>)
        requires
            old(self)@.len() > 0,
        ensures
            r == Some(old(self)@[0]),
            final(self)@ == old(self)@.remove(0),
            final(self)@.to_multiset() == old(self)@.to_multiset().remove(old(self)@[0]),
    {
        let value: T = self.heap.remove(0);
        Some(value)
    }

    /// Reads the root item without removing it.
    pub fn peek(&self) -> (r: T)
        requires
            self@.len() > 0,
        ensures
            r == self@[0],
    {
        self.heap[0]
    }

    /// The number of items held.
    pub fn size(&self) -> (r: usize)
        ensures
            r == self@.len(),
    {
        self.heap.len()
    }

    /// One bottom-up pass over the parent positions, swapping each parent
    /// with its larger child when that child compares greater.  The pass
    /// permutes the stored items and changes nothing else about them;
    /// under a lawful order it leaves a maximal item at the root.  (It
    /// does not establish the heap property at every depth: a displaced
    /// parent is not sifted further down.)
    pub fn heapify(&mut self)
        requires
            old(self)@.len() > 0,
        ensures
            final(self)@.len() == old(self)@.len(),
            final(self)@.to_multiset() == old(self)@.to_multiset(),
            lawful_order::<T>() ==> max_at(final(self)@, 0),
    {
        let size: usize = self.heap.len();
        let max_parent: usize = if size % 2 == 0 {
            (size - 2) / 2
        } else {
            (size - 1) / 2
        };
        proof {
            if lawful_order::<T>() {
                lemma_seq_has_max::<T>(self.heap@);
                let p = choose|p: int| #[trigger] max_at(self.heap@, p);
                assert(0 <= p < 2 * (max_parent as int + 1) + 1 && max_at(self.heap@, p));
            }
        }
        let mut remaining: usize = max_parent + 1;
        while remaining > 0
            invariant
                remaining <= max_parent + 1,
                max_parent < size,
                2 * max_parent + 1 <= size,
                self@.len() == size,
                self@.to_multiset() == old(self)@.to_multiset(),
                lawful_order::<T>() ==> exists|p: int|
                    0 <= p < 2 * remaining + 1 && #[trigger] max_at(self@, p),
            decreases remaining,
        {
            let i: usize = remaining - 1;
            let ghost s0: Seq<T> = self.heap@;
            let mut largest: usize = i;
            let left: usize = 2 * i + 1;
            let gt_left: bool = left < size && self.heap[left] > self.heap[largest];
            if gt_left {
                largest = left;
            }
            let ghost mid: int = largest as int;
            let gt_right: bool = left < size && left + 1 < size && self.heap[left + 1]
                > self.heap[largest];
            if gt_right {
                largest = left + 1;
            }
            if largest != i {
                let a: T = self.heap[i];
                let b: T = self.heap[largest];
                self.heap[i] = b;
                self.heap[largest] = a;
                proof {
                    assert(self.heap@ =~= s0.update(i as int, b).update(largest as int, a));
                    assert(s0.to_multiset().contains(a));
                    assert(self.heap@.to_multiset() =~= s0.to_multiset());
                }
            }
            proof {
                if lawful_order::<T>() {
                    lemma_heap_pass_step::<T>(
                        s0,
                        self.heap@,
                        i as int,
                        mid,
                        largest as int,
                        gt_left,
                        gt_right,
                    );
                    let w = choose|p: int|
                        0 <= p < 2 * (i as int) + 1 && #[trigger] max_at(self.heap@, p);
                    assert(max_at(self@, w));
                }
            }
            remaining = remaining - 1;
        }
    }
}

impl PriorityQueue<u32> {
    /// Renders the heap as a tree, one line per level with the level
    /// number, indentation and that level's items, preceded by one
    /// indent-count line per level.  Diagnostic text only; the point of
    /// the contract is that rendering a nonempty queue cannot fail.
    pub fn describe(&self) -> String
        requires
            0 < self@.len(),
    {
        let size: usize = self.heap.len();
        // Floor of the base-two logarithm of the heap size.
        let mut v: usize = size;
        let mut lv: u64 = 0;
        proof {
            lemma2_to64();
        }
        while v >= 2
            invariant
                1 <= v,
                lv <= 63,
                v as int * pow2(lv as nat) <= size as int,
                size == self@.len(),
            decreases v,
        {
            proof {
                lemma2_to64();
                lemma2_to64_rest();
                lemma_pow2_unfold((lv + 1) as nat);
                assert(v as int / 2 * 2 <= v as int);
                if lv == 63 {
                    assert(v as int * pow2(63) >= 2 * pow2(63)) by (nonlinear_arith)
                        requires
                            v >= 2,
                            pow2(63) > 0,
                    ;
                }
                assert((v as int / 2) * pow2((lv + 1) as nat) <= v as int * pow2(lv as nat))
                    by (nonlinear_arith)
                    requires
                        pow2((lv + 1) as nat) == 2 * pow2(lv as nat),
                        v as int / 2 * 2 <= v as int,
                        pow2(lv as nat) >= 0,
                        v >= 0,
                ;
            }
            v = v / 2;
            lv = lv + 1;
        }
        let max_level: u64 = if lv < 1 {
            1
        } else {
            lv
        };
        let mut lines: String = String::new();
        let mut display: String = String::new();
        let mut l: u64 = 0;
        while l <= max_level
            invariant
                max_level <= 63,
                l <= max_level + 1,
                0 < size,
                size == self@.len(),
            decreases max_level + 1 - l,
        {
            let level_text: String = u64_to_string(l);
            display.append(level_text.as_str());
            let pw: u64 = pow2_u64(max_level - l);
            let half: u64 = pw / 2;
            let num_indents: u64 = if half >= 1 {
                half - 1
            } else {
                0
            };
            lines.append("Num Indents: ");
            let indent_text: String = u64_to_string(num_indents);
            lines.append(indent_text.as_str());
            lines.append("\n");
            let mut c: u64 = 0;
            while c < num_indents
                invariant
                    c <= num_indents,
                decreases num_indents - c,
            {
                display.append("    ");
                c = c + 1;
            }
            // The level's slice of the layout: positions
            // `2^l - 1 ..= 2^(l + 1) - 2`, clipped to the heap.
            let pl: u64 = pow2_u64(l);
            let start: u64 = pl - 1;
            proof {
                lemma2_to64();
                lemma2_to64_rest();
                if l < 63 {
                    lemma_pow2_strictly_increases(l as nat, 63);
                }
            }
            let end: u64 = 2 * start;
            let size_m1: u64 = (size - 1) as u64;
            let last: u64 = if end < size_m1 {
                end
            } else {
                size_m1
            };
            let mut idx: u64 = start;
            while idx <= last
                invariant
                    last < size as u64,
                    size == self@.len(),
                decreases last + 1 - idx,
            {
                display.append("  ");
                let item_text: String = u64_to_string(self.heap[idx as usize] as u64);
                display.append(item_text.as_str());
                display.append("  ");
                idx = idx + 1;
            }
            display.append("\n");
            l = l + 1;
        }
        lines.append(display.as_str());
        lines
    }
}

/// Two raised to the power `e`.
fn pow2_u64(e: u64) -> (r: u64)
    requires
        e <= 63,
    ensures
        r as nat == pow2(e as nat),
        1 <= r,
{
    let mut r: u64 = 1;
    let mut i: u64 = 0;
    proof {
        lemma2_to64();
    }
    while i < e
        invariant
            i <= e,
            e <= 63,
            r as nat == pow2(i as nat),
        decreases e - i,
    {
        proof {
            lemma2_to64();
            lemma2_to64_rest();
            lemma_pow2_strictly_increases(i as nat, 63);
            lemma_pow2_unfold((i + 1) as nat);
        }
        r = r * 2;
        i = i + 1;
    }
    proof {
        lemma_pow2_pos(e as nat);
    }
    r
}

} // verus!
