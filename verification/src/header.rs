//! Blocks whose payload is a header followed by a run of elements or by
//! text.
//!
//! Every builder first lays the block out for the header and the number of
//! elements, and builds nothing where no layout exists. A block that was
//! built holds the header, every element in order, and a strong count of
//! one.

use crate::arc::Arc;
use crate::layout::{CompositeLayout, LayoutError, TypeLayout};
use vstd::layout::{layout_for_type_is_valid, size_of};
use vstd::prelude::*;
use vstd::slice::slice_to_vec;
use vstd::std_specs::iter::IteratorSpec;
use vstd::utf8::encode_utf8;

verus! {

/// A fixed-size header and, behind it, data whose length is known only when
/// the block is built.
#[derive(Debug, Eq, PartialEq, Hash, PartialOrd)]
pub struct HeaderSlice<H, T: ?Sized> {
    /// What every block of the kind holds, whatever its length.
    pub header: H,
    /// The elements, or the text.
    pub slice: T,
}

/// A header that carries the number of elements which follow it, so that a
/// handle to the block needs no length of its own.
#[derive(Debug, Eq, PartialEq, Hash, PartialOrd)]
pub struct HeaderWithLength<H> {
    /// The header proper.
    pub header: H,
    /// The number of elements behind the header.
    pub length: usize,
}

/// A header with its length inline, followed by the elements.
pub type HeaderSliceWithLength<H, T> = HeaderSlice<HeaderWithLength<H>, T>;

impl<H> HeaderWithLength<H> {
    /// A header that carries `length` beside `header`.
    #[inline]
    pub fn new(header: H, length: usize) -> (r: Self)
        ensures
            r == (HeaderWithLength { header, length }),
    {
        HeaderWithLength { header, length }
    }
}

impl<H, T> HeaderSlice<HeaderWithLength<H>, Vec<T>> {
    /// Whether the length in the header is the number of elements.
    pub open spec fn length_is_faithful(&self) -> bool {
        self.header.length == self.slice@.len()
    }
}

/// Why no block was built.
#[derive(Clone, Copy, Debug, PartialEq, Eq)]
pub enum BuildError {
    /// No block can be laid out for the header and the declared number of
    /// elements.
    Layout(LayoutError),
    /// The producer declared more elements than it yielded.
    OverReported,
    /// The producer declared fewer elements than it yielded.
    UnderReported,
}

/// `ExactSizeIterator::len`: the number of elements that `items` declares it
/// will still yield. Nothing binds an implementation to its declaration, so
/// nothing is claimed of the result.
#[verifier::external_body]
fn declared_len<I: ExactSizeIterator>(items: &I) -> (n: usize) {
    items.len()
}

impl<H, T> Arc<HeaderSlice<H, Vec<T>>> {
    /// Why a producer that declares `num_items` elements and yields
    /// `yielded` of them gets no block; `None` where it gets one. A missing
    /// layout comes before a broken declaration.
    pub open spec fn build_error(num_items: usize, yielded: nat) -> Option<BuildError> {
        match CompositeLayout::for_slice::<H, T>(num_items) {
            Err(e) => Some(BuildError::Layout(e)),
            Ok(_) => if yielded < num_items {
                Some(BuildError::OverReported)
            } else if yielded > num_items {
                Some(BuildError::UnderReported)
            } else {
                None
            },
        }
    }

    /// Whether `r` is what comes of building a block from `header` and a
    /// producer that declares `num_items` elements and yields `yielded`.
    pub open spec fn built_from(
        r: Result<Self, BuildError>,
        header: H,
        num_items: usize,
        yielded: Seq<T>,
    ) -> bool {
        match r {
            Ok(arc) => {
                &&& Self::build_error(num_items, yielded.len()) is None
                &&& arc@.header == header
                &&& arc@.slice@ == yielded
                &&& arc.strong_count() == 1
            },
            Err(e) => Self::build_error(num_items, yielded.len()) == Some(e),
        }
    }

    /// Whether `r` is what comes of building a block from `header` and a
    /// copy of `items`.
    pub open spec fn copied_from(r: Result<Self, LayoutError>, header: H, items: Seq<T>) -> bool {
        match r {
            Ok(arc) => {
                &&& CompositeLayout::for_slice::<H, T>(items.len() as usize) is Ok
                &&& arc@.header == header
                &&& arc@.slice@ == items
                &&& arc.strong_count() == 1
            },
            Err(e) => CompositeLayout::for_slice::<H, T>(items.len() as usize) == Err::<
                CompositeLayout,
                LayoutError,
            >(e),
        }
    }

    /// Builds a block from `header` and the elements that `items` yields.
    ///
    /// Elements of size zero are refused before the producer is asked for
    /// anything. The producer then declares how many elements it will yield,
    /// and must yield exactly that many. Whatever it declares, the outcome is
    /// that of [`Self::from_header_and_iter_with_len`] for the declared
    /// number.
    pub fn from_header_and_iter<I>(header: H, items: I) -> (r: Result<Self, BuildError>) where
        I: Iterator<Item = T> + ExactSizeIterator,

        ensures
            items.obeys_prophetic_iter_laws() ==> exists|num_items: usize|
                Self::built_from(r, header, num_items, items.remaining()),
            items.obeys_prophetic_iter_laws() ==> (r matches Ok(arc) ==> arc@.slice@
                == items.remaining()),
            size_of::<T>() == 0 <==> r == Err::<Self, BuildError>(
                BuildError::Layout(LayoutError::ZeroSizedElement),
            ),
            r matches Ok(arc) ==> arc@.header == header && arc.strong_count() == 1
                && CompositeLayout::for_slice::<H, T>(arc@.slice@.len() as usize) is Ok,
    {
        proof {
            TypeLayout::lemma_of::<T>();
        }
        layout_for_type_is_valid::<T>();
        if core::mem::size_of::<T>() == 0 {
            let refused = Err(BuildError::Layout(LayoutError::ZeroSizedElement));
            assert(Self::built_from(refused, header, 0, items.remaining()));
            return refused;
        }
        let num_items: usize = declared_len(&items);
        Self::from_header_and_iter_with_len(header, num_items, items)
    }

    /// Builds a block from `header` and the elements that `items` yields,
    /// of which there must be exactly `num_items`.
    ///
    /// The elements are written in the order in which they are yielded. The
    /// producer is asked for `num_items` elements and then once more: an
    /// element too few or too many builds nothing. Where the producer
    /// panics, the elements written so far are dropped with the unfinished
    /// block.
    pub fn from_header_and_iter_with_len<I>(header: H, num_items: usize, items: I) -> (r: Result<
        Self,
        BuildError,
    >) where I: Iterator<Item = T>
        ensures
            items.obeys_prophetic_iter_laws() ==> Self::built_from(
                r,
                header,
                num_items,
                items.remaining(),
            ),
            CompositeLayout::for_slice::<H, T>(num_items) matches Err(e) ==> r == Err::<
                Self,
                BuildError,
            >(BuildError::Layout(e)),
            r matches Err(BuildError::Layout(e)) ==> CompositeLayout::for_slice::<H, T>(num_items)
                == Err::<CompositeLayout, LayoutError>(e),
            r matches Ok(arc) ==> arc@.header == header && arc@.slice@.len() == num_items
                && arc.strong_count() == 1,
    {
        match CompositeLayout::for_slice::<H, T>(num_items) {
            Err(e) => {
                return Err(BuildError::Layout(e));
            },
            Ok(_) => {},
        }
        // A layout exists, so the elements fit one allocation.
        assert(size_of::<T>() * num_items <= isize::MAX);
        let mut producer = items;
        let mut slice: Vec<T> = Vec::with_capacity(num_items);
        let mut written: usize = 0;
        while written < num_items
            invariant
                written <= num_items,
                slice@.len() == written,
                CompositeLayout::for_slice::<H, T>(num_items) is Ok,
                producer.obeys_prophetic_iter_laws() == items.obeys_prophetic_iter_laws(),
                items.obeys_prophetic_iter_laws() ==> slice@ + producer.remaining()
                    == items.remaining(),
            decreases num_items - written,
        {
            let ghost before = producer.remaining();
            match producer.next() {
                Some(item) => {
                    slice.push(item);
                },
                None => {
                    assert(items.obeys_prophetic_iter_laws() ==> slice@ + before
                        =~= items.remaining() && before.len() == 0);
                    return Err(BuildError::OverReported);
                },
            }
            assert(items.obeys_prophetic_iter_laws() ==> slice@ + producer.remaining()
                =~= items.remaining());
            written = written + 1;
        }
        if producer.next().is_some() {
            return Err(BuildError::UnderReported);
        }
        assert(items.obeys_prophetic_iter_laws() ==> slice@ =~= items.remaining());
        Ok(Arc::new(HeaderSlice { header, slice }))
    }

    /// Builds a block from `header` and a copy of `items`, made in one
    /// piece.
    pub fn from_header_and_slice(header: H, items: &[T]) -> (r: Result<Self, LayoutError>) where
        T: Copy,

        ensures
            Self::copied_from(r, header, items@),
    {
        match CompositeLayout::for_slice::<H, T>(items.len()) {
            Err(e) => Err(e),
            Ok(_) => Ok(Arc::new(HeaderSlice { header, slice: slice_to_vec(items) })),
        }
    }
}

impl<H> Arc<HeaderSlice<H, String>> {
    /// Whether `r` is what comes of building a block from `header` and a
    /// copy of `text`: a block laid out for the bytes that encode the text.
    pub open spec fn text_from(r: Result<Self, LayoutError>, header: H, text: Seq<char>) -> bool {
        match r {
            Ok(arc) => {
                &&& CompositeLayout::for_slice::<H, u8>(encode_utf8(text).len() as usize) is Ok
                &&& arc@.header == header
                &&& arc@.slice@ == text
                &&& arc.strong_count() == 1
            },
            Err(e) => CompositeLayout::for_slice::<H, u8>(encode_utf8(text).len() as usize) == Err::<
                CompositeLayout,
                LayoutError,
            >(e),
        }
    }

    /// Builds a block from `header` and a copy of `string`.
    ///
    /// The block is laid out as for the bytes of the text, which are copied
    /// in one piece and not examined.
    pub fn from_header_and_str(header: H, string: &str) -> (r: Result<Self, LayoutError>)
        ensures
            Self::text_from(r, header, string@),
    {
        match CompositeLayout::for_slice::<H, u8>(string.len()) {
            Err(e) => Err(e),
            Ok(_) => Ok(Arc::new(HeaderSlice { header, slice: string.to_owned() })),
        }
    }
}

/// A producer that keeps its declaration gets a block with the header it
/// was given and with the elements it yielded, in their order, wherever a
/// layout exists; so does a buffer.
pub proof fn lemma_round_trip<H, T>(
    built: Result<Arc<HeaderSlice<H, Vec<T>>>, BuildError>,
    copied: Result<Arc<HeaderSlice<H, Vec<T>>>, LayoutError>,
    header: H,
    elements: Seq<T>,
)
    requires
        elements.len() <= usize::MAX,
        CompositeLayout::for_slice::<H, T>(elements.len() as usize) is Ok,
    ensures
        Arc::built_from(built, header, elements.len() as usize, elements) ==> {
            &&& built is Ok
            &&& built->Ok_0@.header == header
            &&& built->Ok_0@.slice@ == elements
        },
        Arc::copied_from(copied, header, elements) ==> {
            &&& copied is Ok
            &&& copied->Ok_0@.header == header
            &&& copied->Ok_0@.slice@ == elements
        },
{
}

/// A producer that declares and yields nothing, and an empty buffer, get a
/// block with the header they were given and with no element, wherever the
/// header with no element behind it has a layout.
pub proof fn lemma_empty_sequence<H, T>(
    built: Result<Arc<HeaderSlice<H, Vec<T>>>, BuildError>,
    copied: Result<Arc<HeaderSlice<H, Vec<T>>>, LayoutError>,
    header: H,
)
    requires
        CompositeLayout::for_slice::<H, T>(0) is Ok,
    ensures
        Arc::built_from(built, header, 0, Seq::<T>::empty()) ==> {
            &&& built is Ok
            &&& built->Ok_0@.header == header
            &&& built->Ok_0@.slice@.len() == 0
        },
        Arc::copied_from(copied, header, Seq::<T>::empty()) ==> {
            &&& copied is Ok
            &&& copied->Ok_0@.header == header
            &&& copied->Ok_0@.slice@.len() == 0
        },
{
}

/// A producer that yields fewer or more elements than it declared gets no
/// block, whatever it yields: where a layout exists for the declared number,
/// it is told that it declared too many, or too few.
pub proof fn lemma_misreported_length<H, T>(
    built: Result<Arc<HeaderSlice<H, Vec<T>>>, BuildError>,
    header: H,
    num_items: usize,
    yielded: Seq<T>,
)
    requires
        Arc::built_from(built, header, num_items, yielded),
        yielded.len() != num_items,
    ensures
        built is Err,
        CompositeLayout::for_slice::<H, T>(num_items) is Ok ==> built->Err_0 == (if yielded.len()
            < num_items {
            BuildError::OverReported
        } else {
            BuildError::UnderReported
        }),
{
}

/// Elements whose bytes, alone or behind the offset at which they start,
/// do not fit a machine word get no block.
pub proof fn lemma_overflow_guard<H, T>(
    built: Result<Arc<HeaderSlice<H, Vec<T>>>, BuildError>,
    copied: Result<Arc<HeaderSlice<H, Vec<T>>>, LayoutError>,
    header: H,
    num_items: usize,
    yielded: Seq<T>,
    buffer: Seq<T>,
)
    requires
        CompositeLayout::spec_count().wf(),
        TypeLayout::of::<H>().wf(),
        TypeLayout::of::<T>().wf(),
        buffer.len() == num_items,
        TypeLayout::of::<T>().size() * num_items > usize::MAX
            || CompositeLayout::spec_slice_offset(
            CompositeLayout::spec_count(),
            TypeLayout::of::<H>(),
            TypeLayout::of::<T>(),
        ) + TypeLayout::of::<T>().size() * num_items > usize::MAX,
    ensures
        Arc::built_from(built, header, num_items, yielded) ==> built is Err && built->Err_0
            is Layout,
        Arc::copied_from(copied, header, buffer) ==> copied is Err,
{
    CompositeLayout::lemma_overflow_guard(
        CompositeLayout::spec_count(),
        TypeLayout::of::<H>(),
        TypeLayout::of::<T>(),
        num_items,
    );
}

/// A block built under a header whose inline length is the number of
/// elements that the producer declares, or that the buffer holds, has that
/// length in its header and that many elements behind it.
pub proof fn lemma_length_fidelity<H, T>(
    built: Result<Arc<HeaderSliceWithLength<H, Vec<T>>>, BuildError>,
    copied: Result<Arc<HeaderSliceWithLength<H, Vec<T>>>, LayoutError>,
    header: H,
    num_items: usize,
    yielded: Seq<T>,
    buffer: Seq<T>,
)
    requires
        buffer.len() == num_items,
    ensures
        Arc::built_from(built, HeaderWithLength { header, length: num_items }, num_items, yielded)
            ==> (built matches Ok(arc) ==> arc@.length_is_faithful() && arc@.header.length
            == yielded.len()),
        Arc::copied_from(copied, HeaderWithLength { header, length: num_items }, buffer) ==> (
        copied matches Ok(arc) ==> arc@.length_is_faithful() && arc@.header.length
            == buffer.len()),
{
}

/// A block built from text holds that text, and from the empty text the
/// empty text. The text builder answers as the buffer builder does for the
/// bytes that encode the text: with a block where that one gives a block,
/// whose text encodes to the bytes in the other, and else with the same
/// error.
pub proof fn lemma_text_fidelity<H>(
    built: Result<Arc<HeaderSlice<H, String>>, LayoutError>,
    copied: Result<Arc<HeaderSlice<H, Vec<u8>>>, LayoutError>,
    header: H,
    text: Seq<char>,
)
    requires
        Arc::text_from(built, header, text),
    ensures
        built matches Ok(arc) ==> arc@.header == header && arc@.slice@ == text,
        built matches Ok(arc) ==> (text.len() == 0 ==> arc@.slice@.len() == 0),
        encode_utf8(text).len() <= usize::MAX && Arc::copied_from(
            copied,
            header,
            encode_utf8(text),
        ) ==> {
            &&& built is Ok <==> copied is Ok
            &&& built matches Err(e) ==> copied == Err::<
                Arc<HeaderSlice<H, Vec<u8>>>,
                LayoutError,
            >(e)
            &&& built matches Ok(arc) ==> copied->Ok_0@.header == arc@.header
                && copied->Ok_0@.slice@ == encode_utf8(arc@.slice@)
        },
{
}

} // verus!
