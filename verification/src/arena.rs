//! The allocation arena backing an exported configuration.
//!
//! A foreign host would see owned pointers; here every owned allocation lives
//! in one arena slot and the flat records hold slot handles instead of
//! addresses. The arena tracks which slots are live, so that the export and
//! teardown contracts can state exactly which allocations exist: an export
//! adds precisely the allocations reachable from the root it returns, and the
//! teardown reclaims each of them exactly once, never touching anything else.

use vstd::prelude::*;

verus! {

use vstd::pervasive::unreached;
use crate::flat::{AwcButtonBinding, AwcKeyBinding, AwcKeyboardConfig, AwcOutputConfig};
use crate::tree::{AwcLayoutOp, AwcModifier};

/// One owned allocation: an owned string or one of the owned arrays the
/// export creates. A workspace list is an array of owned string handles.
pub enum Allocation {
    Text(Vec<u8>),
    Mods(Vec<AwcModifier>),
    ButtonBindings(Vec<AwcButtonBinding>),
    KeyBindings(Vec<AwcKeyBinding>),
    Keyboards(Vec<AwcKeyboardConfig>),
    LayoutOps(Vec<AwcLayoutOp>),
    Outputs(Vec<AwcOutputConfig>),
    TextArray(Vec<usize>),
}

/// The element count of an allocation: bytes for a string, elements for an
/// array.
pub open spec fn allocation_count(a: Allocation) -> nat {
    match a {
        Allocation::Text(v) => v@.len(),
        Allocation::Mods(v) => v@.len(),
        Allocation::ButtonBindings(v) => v@.len(),
        Allocation::KeyBindings(v) => v@.len(),
        Allocation::Keyboards(v) => v@.len(),
        Allocation::LayoutOps(v) => v@.len(),
        Allocation::Outputs(v) => v@.len(),
        Allocation::TextArray(v) => v@.len(),
    }
}

/// How many entries of `s` are true.
pub open spec fn count_true(s: Seq<bool>) -> int
    decreases s.len(),
{
    if s.len() == 0 {
        0
    } else {
        count_true(s.drop_last()) + if s.last() {
            1int
        } else {
            0int
        }
    }
}

pub proof fn lemma_count_true_take(s: Seq<bool>, i: int)
    requires
        0 <= i < s.len(),
    ensures
        count_true(s.take(i + 1)) == count_true(s.take(i)) + if s[i] {
            1int
        } else {
            0int
        },
{
    assert(s.take(i + 1).drop_last() =~= s.take(i));
    assert(s.take(i + 1).last() == s[i]);
}

pub proof fn lemma_count_true_all(s: Seq<bool>)
    ensures
        count_true(s.take(s.len() as int)) == count_true(s),
{
    assert(s.take(s.len() as int) =~= s);
}

pub proof fn lemma_count_true_update_false(s: Seq<bool>, i: int)
    requires
        0 <= i < s.len(),
        s[i],
    ensures
        count_true(s.update(i, false)) == count_true(s) - 1,
    decreases s.len(),
{
    let t = s.update(i, false);
    if i == s.len() - 1 {
        assert(t.drop_last() =~= s.drop_last());
        assert(!t.last());
    } else {
        assert(t.drop_last() =~= s.drop_last().update(i, false));
        assert(t.last() == s.last());
        lemma_count_true_update_false(s.drop_last(), i);
    }
}

/// The arena: a slot table of allocations with a liveness mark per slot.
/// Slots are never reused; freeing only clears the mark, as a host's
/// deallocation invalidates a pointer without renumbering the rest.
pub struct Arena {
    allocs: Vec<Allocation>,
    live: Vec<bool>,
}

impl Arena {
    /// The allocations ever made, by slot.
    pub closed spec fn allocs_seq(self) -> Seq<Allocation> {
        self.allocs@
    }

    /// The liveness mark of every slot.
    pub closed spec fn live_seq(self) -> Seq<bool> {
        self.live@
    }

    /// How many slots the arena has ever allocated.
    pub open spec fn len(self) -> nat {
        self.allocs_seq().len()
    }

    /// The slot table and the liveness marks stay in step.
    pub open spec fn wf(self) -> bool {
        self.live_seq().len() == self.allocs_seq().len()
    }

    /// Whether `h` is a live allocation.
    pub open spec fn is_live(self, h: int) -> bool {
        0 <= h < self.live_seq().len() && self.live_seq()[h]
    }

    /// The allocation in slot `h`.
    pub open spec fn alloc_at(self, h: int) -> Allocation {
        self.allocs_seq()[h]
    }

    /// How many allocations are currently live.
    pub open spec fn live_count(self) -> int {
        count_true(self.live_seq())
    }

    /// The bytes of the owned string in slot `h`.
    pub open spec fn text_at(self, h: int) -> Seq<u8> {
        self.alloc_at(h)->Text_0@
    }

    /// The owned modifier array in slot `h`.
    pub open spec fn mods_at(self, h: int) -> Seq<AwcModifier> {
        self.alloc_at(h)->Mods_0@
    }

    /// The owned button binding array in slot `h`.
    pub open spec fn buttons_at(self, h: int) -> Seq<AwcButtonBinding> {
        self.alloc_at(h)->ButtonBindings_0@
    }

    /// The owned key binding array in slot `h`.
    pub open spec fn keys_at(self, h: int) -> Seq<AwcKeyBinding> {
        self.alloc_at(h)->KeyBindings_0@
    }

    /// The owned keyboard configuration array in slot `h`.
    pub open spec fn keyboards_at(self, h: int) -> Seq<AwcKeyboardConfig> {
        self.alloc_at(h)->Keyboards_0@
    }

    /// The owned layout operation array in slot `h`.
    pub open spec fn layout_ops_at(self, h: int) -> Seq<AwcLayoutOp> {
        self.alloc_at(h)->LayoutOps_0@
    }

    /// The owned output configuration array in slot `h`.
    pub open spec fn outputs_at(self, h: int) -> Seq<AwcOutputConfig> {
        self.alloc_at(h)->Outputs_0@
    }

    /// The owned string handle array in slot `h`.
    pub open spec fn text_array_at(self, h: int) -> Seq<usize> {
        self.alloc_at(h)->TextArray_0@
    }

    /// An empty arena with no allocations.
    pub fn new() -> (r: Arena)
        ensures
            r.wf(),
            r.len() == 0,
            r.live_count() == 0,
    {
        Arena { allocs: Vec::new(), live: Vec::new() }
    }

    /// Allocates a fresh slot owning `a` and returns its handle.
    pub fn allocate(&mut self, a: Allocation) -> (h: usize)
        requires
            old(self).wf(),
        ensures
            final(self).wf(),
            h == old(self).len(),
            final(self).len() == old(self).len() + 1,
            final(self).alloc_at(h as int) == a,
            final(self).is_live(h as int),
            forall|i: int|
                0 <= i < old(self).len() ==> final(self).alloc_at(i) == old(self).alloc_at(i),
            forall|i: int|
                0 <= i < old(self).len() ==> (final(self).is_live(i) <==> old(self).is_live(i)),
            final(self).live_count() == old(self).live_count() + 1,
    {
        let h = self.allocs.len();
        self.allocs.push(a);
        self.live.push(true);
        proof {
            assert(self.live@.drop_last() =~= old(self).live@);
        }
        h
    }

    /// Frees the live allocation `h`: its mark is cleared exactly once and no
    /// other slot is touched.
    pub fn free(&mut self, h: usize)
        requires
            old(self).wf(),
            old(self).is_live(h as int),
        ensures
            final(self).wf(),
            final(self).len() == old(self).len(),
            forall|i: int|
                0 <= i < final(self).len() ==> final(self).alloc_at(i) == old(self).alloc_at(i),
            !final(self).is_live(h as int),
            forall|i: int|
                0 <= i < final(self).len() && i != h ==> (final(self).is_live(i) <==> old(
                    self,
                ).is_live(i)),
            final(self).live_count() == old(self).live_count() - 1,
    {
        self.live.set(h, false);
        proof {
            lemma_count_true_update_false(old(self).live@, h as int);
        }
    }

    /// Whether slot `h` is live.
    pub fn is_slot_live(&self, h: usize) -> (b: bool)
        requires
            self.wf(),
            h < self.len(),
        ensures
            b == self.is_live(h as int),
    {
        self.live[h]
    }

    /// How many slots the arena has ever allocated.
    pub fn slot_count(&self) -> (n: usize)
        ensures
            n == self.len(),
    {
        self.allocs.len()
    }

    /// Counts the live allocations.
    pub fn live_allocations(&self) -> (n: usize)
        requires
            self.wf(),
        ensures
            n == self.live_count(),
    {
        let mut n: usize = 0;
        let mut i: usize = 0;
        while i < self.live.len()
            invariant
                self.wf(),
                i <= self.live@.len(),
                n == count_true(self.live@.take(i as int)),
                n <= i,
            decreases self.live@.len() - i,
        {
            proof {
                lemma_count_true_take(self.live@, i as int);
            }
            if self.live[i] {
                n += 1;
            }
            i += 1;
        }
        proof {
            lemma_count_true_all(self.live@);
        }
        n
    }

    /// Reads the owned string in live slot `h`.
    pub fn get_text(&self, h: usize) -> (r: &Vec<u8>)
        requires
            self.wf(),
            self.is_live(h as int),
            self.alloc_at(h as int) is Text,
        ensures
            r@ == self.text_at(h as int),
    {
        match &self.allocs[h] {
            Allocation::Text(v) => v,
            _ => unreached(),
        }
    }

    /// Reads the owned modifier array in live slot `h`.
    pub fn get_mods(&self, h: usize) -> (r: &Vec<AwcModifier>)
        requires
            self.wf(),
            self.is_live(h as int),
            self.alloc_at(h as int) is Mods,
        ensures
            r@ == self.mods_at(h as int),
    {
        match &self.allocs[h] {
            Allocation::Mods(v) => v,
            _ => unreached(),
        }
    }

    /// Reads the owned button binding array in live slot `h`.
    pub fn get_buttons(&self, h: usize) -> (r: &Vec<AwcButtonBinding>)
        requires
            self.wf(),
            self.is_live(h as int),
            self.alloc_at(h as int) is ButtonBindings,
        ensures
            r@ == self.buttons_at(h as int),
    {
        match &self.allocs[h] {
            Allocation::ButtonBindings(v) => v,
            _ => unreached(),
        }
    }

    /// Reads the owned key binding array in live slot `h`.
    pub fn get_keys(&self, h: usize) -> (r: &Vec<AwcKeyBinding>)
        requires
            self.wf(),
            self.is_live(h as int),
            self.alloc_at(h as int) is KeyBindings,
        ensures
            r@ == self.keys_at(h as int),
    {
        match &self.allocs[h] {
            Allocation::KeyBindings(v) => v,
            _ => unreached(),
        }
    }

    /// Reads the owned keyboard configuration array in live slot `h`.
    pub fn get_keyboards(&self, h: usize) -> (r: &Vec<AwcKeyboardConfig>)
        requires
            self.wf(),
            self.is_live(h as int),
            self.alloc_at(h as int) is Keyboards,
        ensures
            r@ == self.keyboards_at(h as int),
    {
        match &self.allocs[h] {
            Allocation::Keyboards(v) => v,
            _ => unreached(),
        }
    }

    /// Reads the owned layout operation array in live slot `h`.
    pub fn get_layout_ops(&self, h: usize) -> (r: &Vec<AwcLayoutOp>)
        requires
            self.wf(),
            self.is_live(h as int),
            self.alloc_at(h as int) is LayoutOps,
        ensures
            r@ == self.layout_ops_at(h as int),
    {
        match &self.allocs[h] {
            Allocation::LayoutOps(v) => v,
            _ => unreached(),
        }
    }

    /// Reads the owned output configuration array in live slot `h`.
    pub fn get_outputs(&self, h: usize) -> (r: &Vec<AwcOutputConfig>)
        requires
            self.wf(),
            self.is_live(h as int),
            self.alloc_at(h as int) is Outputs,
        ensures
            r@ == self.outputs_at(h as int),
    {
        match &self.allocs[h] {
            Allocation::Outputs(v) => v,
            _ => unreached(),
        }
    }

    /// Reads the owned string handle array in live slot `h`.
    pub fn get_text_array(&self, h: usize) -> (r: &Vec<usize>)
        requires
            self.wf(),
            self.is_live(h as int),
            self.alloc_at(h as int) is TextArray,
        ensures
            r@ == self.text_array_at(h as int),
    {
        match &self.allocs[h] {
            Allocation::TextArray(v) => v,
            _ => unreached(),
        }
    }
}

/// Hands an owned collection over to the arena, the way a marshaler leaks
/// a boxed slice into the foreign heap: the result is the owned array
/// handle standing for the pointer, paired with the element count.
pub fn vec_into_raw(arena: &mut Arena, data: Allocation) -> (r: (usize, usize))
    requires
        old(arena).wf(),
    ensures
        final(arena).wf(),
        r.0 == old(arena).len(),
        r.1 == allocation_count(data),
        final(arena).len() == old(arena).len() + 1,
        final(arena).alloc_at(r.0 as int) == data,
        final(arena).is_live(r.0 as int),
        forall|i: int|
            0 <= i < old(arena).len() ==> final(arena).alloc_at(i) == old(arena).alloc_at(i),
        forall|i: int|
            0 <= i < old(arena).len() ==> (final(arena).is_live(i) <==> old(arena).is_live(i)),
        final(arena).live_count() == old(arena).live_count() + 1,
{
    let count = match &data {
        Allocation::Text(v) => v.len(),
        Allocation::Mods(v) => v.len(),
        Allocation::ButtonBindings(v) => v.len(),
        Allocation::KeyBindings(v) => v.len(),
        Allocation::Keyboards(v) => v.len(),
        Allocation::LayoutOps(v) => v.len(),
        Allocation::Outputs(v) => v.len(),
        Allocation::TextArray(v) => v.len(),
    };
    let h = arena.allocate(data);
    (h, count)
}

} // verus!
