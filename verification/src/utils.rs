//! Iterator helpers.
use vstd::prelude::*;
use vstd::std_specs::iter::IteratorSpec;

verus! {

/// The items that are still to come from an adapter that has looked
/// `peeked` and `peeknexted` ahead, when its iterator will still give
/// `rest`. An item that was looked at comes before those; a look that found
/// the end means that nothing is to come.
pub open spec fn ahead<T>(
    peeked: Option<Option<T>>,
    peeknexted: Option<Option<T>>,
    rest: Seq<T>,
) -> Seq<T> {
    match peeked {
        None => rest,
        Some(None) => Seq::empty(),
        Some(Some(first)) => match peeknexted {
            None => seq![first] + rest,
            Some(None) => seq![first],
            Some(Some(second)) => seq![first, second] + rest,
        },
    }
}

/// What was looked at fits what the iterator will still give: the second
/// look comes after the first, and after a look that found the end no item
/// was found and the iterator gives nothing.
pub open spec fn settled<T>(
    peeked: Option<Option<T>>,
    peeknexted: Option<Option<T>>,
    rest: Seq<T>,
) -> bool {
    &&& peeknexted is Some ==> peeked is Some
    &&& peeked == Some(None::<T>) ==> peeknexted is None || peeknexted == Some(None::<T>)
    &&& peeked == Some(None::<T>) || peeknexted == Some(None::<T>) ==> rest.len() == 0
}

/// Just like `std::iter::Peekable`, but can peek two items ahead.
pub struct Peeknextable<I: Iterator> {
    iter: I,
    /// Remember a peeked value, even if it was None.
    peeked: Option<Option<I::Item>>,
    /// Remember a peek nexted value, even if it was None.
    peeknexted: Option<Option<I::Item>>,
}

impl<I: Iterator> Peeknextable<I> {
    /// The iterator that the adapter takes its items from.
    pub closed spec fn inner(&self) -> I {
        self.iter
    }

    /// What the adapter has seen of the next item, if it has looked.
    pub closed spec fn first(&self) -> Option<Option<I::Item>> {
        self.peeked
    }

    /// What the adapter has seen of the item after the next, if it has
    /// looked.
    pub closed spec fn second(&self) -> Option<Option<I::Item>> {
        self.peeknexted
    }

    /// An adapter over `iter` that has not looked ahead.
    pub fn new(iter: I) -> (r: Peeknextable<I>)
        requires
            iter.obeys_prophetic_iter_laws(),
        ensures
            r.inner() == iter,
            r.first() is None,
            r.second() is None,
            r.inner().obeys_prophetic_iter_laws(),
            settled(r.first(), r.second(), r.inner().remaining()),
            ahead(r.first(), r.second(), r.inner().remaining()) == iter.remaining(),
    {
        Peeknextable { iter, peeked: None, peeknexted: None }
    }

    /// The next item, which is taken from the items to come.
    pub fn next(&mut self) -> (item: Option<I::Item>)
        requires
            old(self).inner().obeys_prophetic_iter_laws(),
            settled(old(self).first(), old(self).second(), old(self).inner().remaining()),
        ensures
            final(self).inner().obeys_prophetic_iter_laws(),
            settled(final(self).first(), final(self).second(), final(self).inner().remaining()),
            ({
                let before = ahead(
                    old(self).first(),
                    old(self).second(),
                    old(self).inner().remaining(),
                );
                let after = ahead(
                    final(self).first(),
                    final(self).second(),
                    final(self).inner().remaining(),
                );
                if before.len() > 0 {
                    item == Some(before[0]) && after == before.drop_first()
                } else {
                    item is None && after.len() == 0
                }
            }),
    {
        match self.peeked.take() {
            Some(v) => {
                self.peeked = self.peeknexted.take();
                v
            },
            None => self.iter.next(),
        }
    }

    /// The next item, which stays among the items to come.
    pub fn peek(&mut self) -> (item: Option<&I::Item>)
        requires
            old(self).inner().obeys_prophetic_iter_laws(),
            settled(old(self).first(), old(self).second(), old(self).inner().remaining()),
        ensures
            final(self).inner().obeys_prophetic_iter_laws(),
            settled(final(self).first(), final(self).second(), final(self).inner().remaining()),
            ({
                let before = ahead(
                    old(self).first(),
                    old(self).second(),
                    old(self).inner().remaining(),
                );
                let after = ahead(
                    final(self).first(),
                    final(self).second(),
                    final(self).inner().remaining(),
                );
                &&& after == before
                &&& if before.len() > 0 {
                    item == Some(&before[0])
                } else {
                    item is None
                }
            }),
    {
        if self.peeked.is_none() {
            self.peeked = Some(self.iter.next());
        }
        match &self.peeked {
            Some(v) => v.as_ref(),
            None => None,
        }
    }

    /// The item after the next, which stays among the items to come, as
    /// the next item does.
    pub fn peek_next(&mut self) -> (item: Option<&I::Item>)
        requires
            old(self).inner().obeys_prophetic_iter_laws(),
            settled(old(self).first(), old(self).second(), old(self).inner().remaining()),
        ensures
            final(self).inner().obeys_prophetic_iter_laws(),
            settled(final(self).first(), final(self).second(), final(self).inner().remaining()),
            ({
                let before = ahead(
                    old(self).first(),
                    old(self).second(),
                    old(self).inner().remaining(),
                );
                let after = ahead(
                    final(self).first(),
                    final(self).second(),
                    final(self).inner().remaining(),
                );
                &&& after == before
                &&& if before.len() > 1 {
                    item == Some(&before[1])
                } else {
                    item is None
                }
            }),
    {
        if self.peeked.is_none() {
            self.peeked = Some(self.iter.next());
        }
        if self.peeknexted.is_none() {
            self.peeknexted = Some(self.iter.next());
        }
        match &self.peeknexted {
            Some(v) => v.as_ref(),
            None => None,
        }
    }
}

/// Gives every iterator the adapter that looks two items ahead.
pub trait UtilsIterator: Iterator {
    /// The adapter over this iterator.
    fn peeknextable(self) -> (r: Peeknextable<Self>) where Self: Sized
        requires
            self.obeys_prophetic_iter_laws(),
        ensures
            r.inner() == self,
            r.first() is None,
            r.second() is None,
            r.inner().obeys_prophetic_iter_laws(),
            settled(r.first(), r.second(), r.inner().remaining()),
            ahead(r.first(), r.second(), r.inner().remaining()) == self.remaining(),
    {
        Peeknextable::new(self)
    }
}

impl<T> UtilsIterator for T where T: Iterator + ?Sized {
}

} // verus!
