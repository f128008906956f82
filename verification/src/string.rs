//! Lists of strings whose length is chosen when a node is made.

use crate::allocator::Allocator;
use crate::array::{array_layout, copy_prefix};
use crate::errors::AllocateError;
use crate::layout::Layout;
use crate::list::{fits, lemma_slot_for, slot_for, DynList, Header};
use crate::node::{NodePtr, Outcome};
use crate::uninit::{granted_at, refused, try_new, MaybeUninitNode};
use vstd::prelude::*;
use vstd::utf8::{encode_utf8, valid_utf8};

verus! {

/// `after` is `before` with one string added at the front, whose text is `text`.
pub open spec fn pushed_front_str(
    before: Seq<String>,
    after: Seq<String>,
    text: Seq<char>,
) -> bool {
    &&& after.len() == before.len() + 1
    &&& after[0]@ == text
    &&& after.drop_first() == before
}

/// `after` is `before` with one string added at the back, whose text is `text`.
pub open spec fn pushed_back_str(before: Seq<String>, after: Seq<String>, text: Seq<char>) -> bool {
    &&& after.len() == before.len() + 1
    &&& after.last()@ == text
    &&& after.drop_last() == before
}

/// Attempts to make a node of `list` with links `header` for a string of `length`
/// bytes.
///
/// Fails where no layout exists for the string or for the node, and where the
/// allocator declines the node's layout; the list is then as it was.
pub fn try_new_string<'a, A: Allocator>(
    list: &'a mut DynList<String, A>,
    length: usize,
    header: Header,
) -> (r: Result<MaybeUninitNode<'a, String, A>, AllocateError>)
    requires
        old(list).wf(),
        fits(old(list).order(), header),
    ensures
        match r {
            Ok(node) => array_layout::<u8>(length) is Some && granted_at(
                *old(list),
                node,
                slot_for(old(list).order(), header),
                Some(length),
                array_layout::<u8>(length).unwrap(),
                old(list).string_outcome(length),
            ) && *final(list) == *final(node.list),
            Err(error) => *final(list) == *old(list) && refused(
                old(list).string_outcome(length),
                error.spec_layout(),
            ),
        },
{
    match Layout::array::<u8>(length) {
        Ok(layout) => try_new(list, Some(length), layout, header),
        Err(error) => Err(AllocateError::new_layout(error)),
    }
}

impl<'a, A: Allocator> MaybeUninitNode<'a, String, A> {
    /// Gets the contained string as a byte slice, as far as it has been written.
    pub fn as_bytes(&self) -> (r: &[u8])
        requires
            self.wf(),
        ensures
            r@ == match self.spec_value() {
                Some(text) => encode_utf8(text@),
                None => Seq::<u8>::empty(),
            },
    {
        match self.as_ref() {
            Some(text) => text.as_str().as_bytes(),
            None => &[],
        }
    }

    /// Copies the string slice `src` into the node.
    ///
    /// `src` must not be longer than the string that the node was made for:
    /// a string is not cut.
    pub fn copy_from_str(&mut self, src: &str)
        requires
            old(self).wf(),
            old(self).spec_metadata() is Some ==> src.len() <= old(self).spec_metadata().unwrap(),
        ensures
            final(self).wf(),
            final(self).spec_value() is Some,
            final(self).spec_value().unwrap()@ == src@,
            final(self).node() == old(self).node(),
            final(self).position() == old(self).position(),
            final(self).spec_metadata() == old(self).spec_metadata(),
            final(self).list().order() == old(self).list().order(),
            final(self).list()@ == old(self).list()@,
            final(self).list().spec_allocator() == old(self).list().spec_allocator(),
            *final(final(self).list) == *final(old(self).list),
    {
        self.write(src.to_owned());
    }
}

/// Makes a string of bytes that are UTF-8, as `String::from_utf8` of std
/// does: it hands out the string whose bytes these are, and nothing where
/// the bytes are not UTF-8.
#[verifier::external_body]
fn string_from_utf8(bytes: Vec<u8>) -> (r: Option<String>)
    ensures
        r is Some <==> valid_utf8(bytes@),
        r is Some ==> encode_utf8(r->Some_0@) == bytes@,
{
    String::from_utf8(bytes).ok()
}

/// The bytes of a string.
pub fn bytes_of(text: String) -> (r: Vec<u8>)
    ensures
        r@ == encode_utf8(text@),
{
    let bytes = text.as_str().as_bytes();
    let r = copy_prefix(bytes, bytes.len());
    proof {
        assert(bytes@.take(bytes@.len() as int) =~= bytes@);
    }
    r
}

/// The string whose bytes are `bytes`.
pub fn text_of(bytes: Vec<u8>) -> (r: String)
    requires
        valid_utf8(bytes@),
    ensures
        encode_utf8(r@) == bytes@,
{
    match string_from_utf8(bytes) {
        Some(text) => text,
        None => unreached(),
    }
}

impl<A: Allocator> DynList<Vec<u8>, A> {
    /// Every array of the list, linked or not, is UTF-8.
    pub open spec fn holds_utf8(&self) -> bool {
        forall|p: NodePtr|
            self.nodes().dom().contains(p) && (#[trigger] self.nodes()[p]).value is Some
                ==> valid_utf8(self.nodes()[p].value->Some_0@)
    }
}

impl<A: Allocator> DynList<String, A> {
    /// How a request for a node of a string of `length` bytes ends at the
    /// list's allocator, as it stands.
    pub open spec fn string_outcome(&self, length: usize) -> Outcome {
        match array_layout::<u8>(length) {
            None => Outcome::Overflow,
            Some(value) => self.outcome(true, value),
        }
    }

    /// Attempts to allocate an uninitialised string node at the front of the list.
    ///
    /// Fails where no layout exists for the string or for the node, and where
    /// the allocator declines the node's layout; the list is then as it was.
    pub fn try_allocate_uninit_string_front(&mut self, length: usize) -> (r: Result<
        MaybeUninitNode<'_, String, A>,
        AllocateError,
    >)
        requires
            old(self).wf(),
        ensures
            match r {
                Ok(node) => array_layout::<u8>(length) is Some && granted_at(
                    *old(self),
                    node,
                    0,
                    Some(length),
                    array_layout::<u8>(length).unwrap(),
                    old(self).string_outcome(length),
                ) && *final(self) == *final(node.list),
                Err(error) => *final(self) == *old(self) && refused(
                    old(self).string_outcome(length),
                    error.spec_layout(),
                ),
            },
    {
        let next: Option<NodePtr> = self.front_node();
        proof {
            lemma_slot_for(self.order(), Header { next, previous: None }, 0);
        }
        try_new_string(self, length, Header { next, previous: None })
    }

    /// Attempts to allocate an uninitialised string node at the back of the list.
    ///
    /// Fails where no layout exists for the string or for the node, and where
    /// the allocator declines the node's layout; the list is then as it was.
    pub fn try_allocate_uninit_string_back(&mut self, length: usize) -> (r: Result<
        MaybeUninitNode<'_, String, A>,
        AllocateError,
    >)
        requires
            old(self).wf(),
        ensures
            match r {
                Ok(node) => array_layout::<u8>(length) is Some && granted_at(
                    *old(self),
                    node,
                    old(self).order().len() as int,
                    Some(length),
                    array_layout::<u8>(length).unwrap(),
                    old(self).string_outcome(length),
                ) && *final(self) == *final(node.list),
                Err(error) => *final(self) == *old(self) && refused(
                    old(self).string_outcome(length),
                    error.spec_layout(),
                ),
            },
    {
        let previous: Option<NodePtr> = self.back_node();
        proof {
            lemma_slot_for(
                self.order(),
                Header { next: None, previous },
                self.order().len() as int,
            );
        }
        try_new_string(self, length, Header { next: None, previous })
    }

    /// Allocates an uninitialised string node at the front of the list.
    ///
    /// A layout must exist for the node, and the allocator must grant it.
    pub fn allocate_uninit_string_front(&mut self, length: usize) -> (node: MaybeUninitNode<
        '_,
        String,
        A,
    >)
        requires
            old(self).wf(),
            old(self).string_outcome(length) is Granted,
        ensures
            granted_at(
                *old(self),
                node,
                0,
                Some(length),
                array_layout::<u8>(length).unwrap(),
                old(self).string_outcome(length),
            ),
            *final(self) == *final(node.list),
    {
        AllocateError::unwrap_result(self.try_allocate_uninit_string_front(length))
    }

    /// Allocates an uninitialised string node at the back of the list.
    ///
    /// A layout must exist for the node, and the allocator must grant it.
    pub fn allocate_uninit_string_back(&mut self, length: usize) -> (node: MaybeUninitNode<
        '_,
        String,
        A,
    >)
        requires
            old(self).wf(),
            old(self).string_outcome(length) is Granted,
        ensures
            granted_at(
                *old(self),
                node,
                old(self).order().len() as int,
                Some(length),
                array_layout::<u8>(length).unwrap(),
                old(self).string_outcome(length),
            ),
            *final(self) == *final(node.list),
    {
        AllocateError::unwrap_result(self.try_allocate_uninit_string_back(length))
    }

    /// Attempts to copy the string slice `src` and push it to the front of the list.
    ///
    /// On failure the list is as it was.
    pub fn try_push_front_copy_string(&mut self, src: &str) -> (r: Result<(), AllocateError>)
        requires
            old(self).wf(),
        ensures
            final(self).wf(),
            match r {
                Ok(_) => {
                    &&& old(self).string_outcome(src.len()) is Granted
                    &&& pushed_front_str(old(self)@, final(self)@, src@)
                    &&& final(self).spec_allocator() == old(self).spec_allocator().after_allocate(
                        old(self).string_outcome(src.len())->Granted_0,
                    )
                },
                Err(error) => {
                    &&& *final(self) == *old(self)
                    &&& refused(old(self).string_outcome(src.len()), error.spec_layout())
                },
            },
    {
        let mut node = match self.try_allocate_uninit_string_front(src.len()) {
            Ok(node) => node,
            Err(error) => {
                return Err(error);
            },
        };
        node.copy_from_str(src);
        node.insert();
        proof {
            assert(final(self)@.drop_first() =~= old(self)@);
        }
        Ok(())
    }

    /// Attempts to copy the string slice `src` and push it to the back of the list.
    ///
    /// On failure the list is as it was.
    pub fn try_push_back_copy_string(&mut self, src: &str) -> (r: Result<(), AllocateError>)
        requires
            old(self).wf(),
        ensures
            final(self).wf(),
            match r {
                Ok(_) => {
                    &&& old(self).string_outcome(src.len()) is Granted
                    &&& pushed_back_str(old(self)@, final(self)@, src@)
                    &&& final(self).spec_allocator() == old(self).spec_allocator().after_allocate(
                        old(self).string_outcome(src.len())->Granted_0,
                    )
                },
                Err(error) => {
                    &&& *final(self) == *old(self)
                    &&& refused(old(self).string_outcome(src.len()), error.spec_layout())
                },
            },
    {
        let mut node = match self.try_allocate_uninit_string_back(src.len()) {
            Ok(node) => node,
            Err(error) => {
                return Err(error);
            },
        };
        node.copy_from_str(src);
        node.insert();
        proof {
            assert(final(self)@.drop_last() =~= old(self)@);
        }
        Ok(())
    }

    /// Copies the string slice `src` and pushes it to the front of the list.
    ///
    /// A layout must exist for the node, and the allocator must grant it.
    pub fn push_front_copy_string(&mut self, src: &str)
        requires
            old(self).wf(),
            old(self).string_outcome(src.len()) is Granted,
        ensures
            final(self).wf(),
            pushed_front_str(old(self)@, final(self)@, src@),
            final(self).spec_allocator() == old(self).spec_allocator().after_allocate(
                old(self).string_outcome(src.len())->Granted_0,
            ),
    {
        match self.try_push_front_copy_string(src) {
            Ok(_) => {},
            Err(_) => unreached(),
        }
    }

    /// Copies the string slice `src` and pushes it to the back of the list.
    ///
    /// A layout must exist for the node, and the allocator must grant it.
    pub fn push_back_copy_string(&mut self, src: &str)
        requires
            old(self).wf(),
            old(self).string_outcome(src.len()) is Granted,
        ensures
            final(self).wf(),
            pushed_back_str(old(self)@, final(self)@, src@),
            final(self).spec_allocator() == old(self).spec_allocator().after_allocate(
                old(self).string_outcome(src.len())->Granted_0,
            ),
    {
        match self.try_push_back_copy_string(src) {
            Ok(_) => {},
            Err(_) => unreached(),
        }
    }

    /// Converts a list of byte arrays to a list of strings without moving a
    /// node.
    ///
    /// Every array of the list must be UTF-8.
    pub fn from_utf8_unchecked(bytes: DynList<Vec<u8>, A>) -> (r: Self)
        requires
            bytes.wf(),
            bytes.holds_utf8(),
        ensures
            r.wf(),
            r.order() == bytes.order(),
            r.spec_allocator() == bytes.spec_allocator(),
            r@.len() == bytes@.len(),
            forall|i: int| 0 <= i < bytes@.len() ==> encode_utf8((#[trigger] r@[i])@) == bytes@[i]@,
            r.node_layouts_agree(bytes),
    {
        let to_text = |array: Vec<u8>| -> (text: String)
            requires
                valid_utf8(array@),
            ensures
                encode_utf8(text@) == array@,
            { text_of(array) };
        bytes.convert(to_text)
    }

    /// Converts the list of strings to a list of their bytes without moving
    /// a node.
    pub fn into_bytes(self) -> (r: DynList<Vec<u8>, A>)
        requires
            self.wf(),
        ensures
            r.wf(),
            r.order() == self.order(),
            r.spec_allocator() == self.spec_allocator(),
            r@.len() == self@.len(),
            forall|i: int| 0 <= i < self@.len() ==> (#[trigger] r@[i])@ == encode_utf8(self@[i]@),
            r.node_layouts_agree(self),
    {
        let to_bytes = |text: String| -> (array: Vec<u8>)
            ensures
                array@ == encode_utf8(text@),
            { bytes_of(text) };
        self.convert(to_bytes)
    }
}

} // verus!
