//! The table slot of one execution context. The slot starts empty and is
//! filled with a table on first use; every game of the context then shares
//! that table.
use crate::cache::{empty_table, Cache};
use once_cell::unsync::OnceCell;
use vstd::prelude::*;

verus! {

/// `once_cell::unsync::OnceCell`, a cell that is empty or holds one value.
#[verifier::external_type_specification]
#[verifier::external_body]
#[verifier::reject_recursive_types(T)]
pub struct ExOnceCell<T>(OnceCell<T>);

/// What a slot holds: nothing, or the cells of the table in it.
pub uninterp spec fn slot_table(slot: OnceCell<Cache>) -> Option<Seq<Seq<Option<u8>>>>;

/// `OnceCell::new`: a new cell is empty.
#[verifier::external_body]
fn slot_new() -> (slot: OnceCell<Cache>)
    ensures
        slot_table(slot) is None,
{
    OnceCell::new()
}

/// `OnceCell::get_or_init`, with a new table for `num_words` words as the
/// initial value: a full cell is left as it is, and an empty cell is filled
/// with the value that the initializer returns, here a table with no cell
/// filled.
#[verifier::external_body]
fn slot_get_or_init(slot: &mut OnceCell<Cache>, num_words: usize)
    ensures
        slot_table(*final(slot)) == match slot_table(*old(slot)) {
            Some(table) => Some(table),
            None => Some(empty_table(num_words as nat)),
        },
{
    slot.get_or_init(|| Cache::new(num_words));
}

/// `OnceCell::get_mut`: nothing for an empty cell, else unique access to the
/// value in the cell, which then holds whatever the access leaves there.
#[verifier::external_body]
fn slot_get_mut(slot: &mut OnceCell<Cache>) -> (cache: Option<&mut Cache>)
    ensures
        match cache {
            Some(c) => slot_table(*old(slot)) == Some(c@) && slot_table(*final(slot)) == Some(
                final(c)@,
            ),
            None => slot_table(*old(slot)) is None && slot_table(*final(slot)) is None,
        },
{
    slot.get_mut()
}

/// The table slot of one execution context.
pub struct Computes {
    slot: OnceCell<Cache>,
}

impl View for Computes {
    type V = Option<Seq<Seq<Option<u8>>>>;

    /// The cells of the table in the slot, if it has been built.
    closed spec fn view(&self) -> Option<Seq<Seq<Option<u8>>>> {
        slot_table(self.slot)
    }
}

impl Computes {
    /// A context that has not built its table yet.
    pub fn new() -> (computes: Self)
        ensures
            computes@ is None,
    {
        Computes { slot: slot_new() }
    }

    /// Builds the table for `num_words` words, with no cell filled, unless
    /// the context has a table already, which then stays as it is.
    pub fn prepare(&mut self, num_words: usize)
        ensures
            final(self)@ == match old(self)@ {
                Some(table) => Some(table),
                None => Some(empty_table(num_words as nat)),
            },
    {
        slot_get_or_init(&mut self.slot, num_words);
    }

    /// The table of the context, if it has been built. What the caller does
    /// to the table is what the context holds afterwards.
    pub fn cache(&mut self) -> (cache: Option<&mut Cache>)
        ensures
            match cache {
                Some(c) => old(self)@ == Some(c@) && final(self)@ == Some(final(c)@),
                None => old(self)@ is None && final(self)@ is None,
            },
    {
        slot_get_mut(&mut self.slot)
    }
}

} // verus!
