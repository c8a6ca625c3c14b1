//! The variant registry model.
//!
//! The runtime deserializer decodes a value whose wire representation
//! carries an explicit tag by looking the tag up in a mapping from external
//! string tag to concrete type. The registry's invariant is that every tag
//! is globally unique; each emitted declaration contributes two entries,
//! the scalar handle and the sequence-wrapper handle.

use vstd::prelude::*;
use crate::names::{variant_handle, variant_handle_of};
use crate::text::{append_chars, chars_eq, sub_vec};

verus! {

/// One registry entry: an external tag and the concrete type it decodes to.
pub struct RegistryEntry {
    pub tag: Vec<char>,
    pub target: Vec<char>,
}

/// The tag-to-type registry.
pub struct VariantRegistry {
    entries: Vec<RegistryEntry>,
}

impl View for VariantRegistry {
    type V = Seq<(Seq<char>, Seq<char>)>;

    closed spec fn view(&self) -> Seq<(Seq<char>, Seq<char>)> {
        Seq::new(self.entries@.len(), |i: int| (self.entries@[i].tag@, self.entries@[i].target@))
    }
}

impl VariantRegistry {
    /// Some entry carries this tag.
    pub open spec fn spec_has_tag(&self, tag: Seq<char>) -> bool {
        exists|k: int| 0 <= k < self@.len() && (#[trigger] self@[k]).0 == tag
    }

    /// The registry invariant: one entry per tag.
    pub open spec fn tags_unique(&self) -> bool {
        forall|i: int, j: int|
            0 <= i < j < self@.len() ==> (#[trigger] self@[i]).0 != (#[trigger] self@[j]).0
    }

    pub fn new() -> (r: VariantRegistry)
        ensures
            r@ == Seq::<(Seq<char>, Seq<char>)>::empty(),
            r.tags_unique(),
    {
        let r = VariantRegistry { entries: Vec::new() };
        proof {
            assert(r@ =~= Seq::<(Seq<char>, Seq<char>)>::empty());
        }
        r
    }

    pub fn has_tag(&self, tag: &Vec<char>) -> (r: bool)
        ensures
            r == self.spec_has_tag(tag@),
    {
        let mut k: usize = 0;
        while k < self.entries.len()
            invariant
                k <= self.entries@.len(),
                self@.len() == self.entries@.len(),
                forall|j: int| 0 <= j < k ==> (#[trigger] self@[j]).0 != tag@,
            decreases self.entries@.len() - k,
        {
            if chars_eq(&self.entries[k].tag, tag) {
                proof {
                    assert(self@[k as int].0 == tag@);
                }
                return true;
            }
            k = k + 1;
        }
        false
    }

    /// Adds an entry unless its tag is already present: a duplicate tag is
    /// rejected and leaves the registry unchanged, so uniqueness is kept.
    pub fn register(&mut self, tag: Vec<char>, target: Vec<char>) -> (r: bool)
        ensures
            r == !old(self).spec_has_tag(tag@),
            r ==> final(self)@ == old(self)@.push((tag@, target@)),
            !r ==> final(self)@ == old(self)@,
            old(self).tags_unique() ==> final(self).tags_unique(),
    {
        if self.has_tag(&tag) {
            return false;
        }
        let ghost old_view = self@;
        let ghost gt = tag@;
        let ghost gn = target@;
        self.entries.push(RegistryEntry { tag, target });
        proof {
            assert(self@ =~= old_view.push((gt, gn)));
            if old(self).tags_unique() {
                assert forall|i: int, j: int| 0 <= i < j < self@.len() implies (
                #[trigger] self@[i]).0 != (#[trigger] self@[j]).0 by {
                    if j == self@.len() - 1 {
                        assert(self@[i] == old_view[i]);
                        assert(!old(self).spec_has_tag(gt));
                        assert(old_view[i].0 != gt);
                    } else {
                        assert(self@[i] == old_view[i] && self@[j] == old_view[j]);
                    }
                }
            }
        }
        true
    }

    /// The concrete type registered under a tag, when one is.
    pub fn lookup(&self, tag: &Vec<char>) -> (r: Option<Vec<char>>)
        ensures
            r is Some <==> self.spec_has_tag(tag@),
            match r {
                Some(t) => exists|k: int|
                    0 <= k < self@.len() && (#[trigger] self@[k]) == (tag@, t@),
                None => true,
            },
    {
        let mut k: usize = 0;
        while k < self.entries.len()
            invariant
                k <= self.entries@.len(),
                self@.len() == self.entries@.len(),
                forall|j: int| 0 <= j < k ==> (#[trigger] self@[j]).0 != tag@,
            decreases self.entries@.len() - k,
        {
            if chars_eq(&self.entries[k].tag, tag) {
                let t = sub_vec(&self.entries[k].target, 0, self.entries[k].target.len());
                proof {
                    assert(t@ =~= self.entries@[k as int].target@);
                    assert(self@[k as int] == (tag@, t@));
                }
                return Some(t);
            }
            k = k + 1;
        }
        None
    }

    /// Registers the two entries of one emitted declaration: the scalar
    /// handle mapping to the canonical type, and the sequence-wrapper
    /// handle mapping to the sequence of it. Nothing is added unless both
    /// tags are free.
    pub fn register_declaration(&mut self, original: &Vec<char>, canonical: &Vec<char>) -> (r:
        bool)
        ensures
            ({
                let handle = variant_handle_of(original@);
                let wrapped_tag = "TArray<"@ + handle + ">"@;
                let wrapped_ty = "TArray<"@ + canonical@ + ">"@;
                &&& r == (!old(self).spec_has_tag(handle) && !old(self).spec_has_tag(
                    wrapped_tag,
                ))
                &&& r ==> final(self)@ == old(self)@.push((handle, canonical@)).push(
                    (wrapped_tag, wrapped_ty),
                )
                &&& !r ==> final(self)@ == old(self)@
                &&& old(self).tags_unique() ==> final(self).tags_unique()
            }),
    {
        let handle = variant_handle(original);
        let mut wrapped_tag = crate::names::str_to_chars("TArray<");
        append_chars(&mut wrapped_tag, &handle);
        let close = crate::names::str_to_chars(">");
        append_chars(&mut wrapped_tag, &close);
        let mut wrapped_ty = crate::names::str_to_chars("TArray<");
        append_chars(&mut wrapped_ty, canonical);
        append_chars(&mut wrapped_ty, &close);
        proof {
            reveal_strlit("TArray<");
            reveal_strlit(">");
            assert(wrapped_tag@.len() == handle@.len() + 8);
        }
        if self.has_tag(&handle) || self.has_tag(&wrapped_tag) {
            return false;
        }
        let canon_copy = sub_vec(canonical, 0, canonical.len());
        proof {
            assert(canonical@.subrange(0, canonical@.len() as int) =~= canonical@);
        }
        let ok1 = self.register(handle, canon_copy);
        let ok2 = self.register(wrapped_tag, wrapped_ty);
        proof {
            assert(ok1 && ok2);
        }
        true
    }
}

} // verus!
