//! Source code locations.

pub mod files;

use core::hash::{Hash, Hasher};
use core::ops::{Deref, Range};
use vstd::prelude::*;
use vstd::std_specs::cmp::PartialEqSpec;

verus! {

/// A file of the compilation, or `None` for text that belongs to no file.
///
/// The numbers of real files begin at one.
pub type FileId = Option<u32>;

/// A byte offset into a source file.
#[derive(Debug, Copy, Clone, PartialEq, Eq, PartialOrd, Ord, Hash, Structural)]
pub struct BytePos(pub u32);

/// A half-open range of bytes in one file.
#[derive(Debug, Copy, Clone, PartialEq, Eq, PartialOrd, Ord, Hash, Structural)]
pub struct Span {
    pub start: BytePos,
    pub end: BytePos,
    pub file_id: FileId,
}

pub open spec fn min_pos(a: BytePos, b: BytePos) -> BytePos {
    if a.0 <= b.0 {
        a
    } else {
        b
    }
}

pub open spec fn max_pos(a: BytePos, b: BytePos) -> BytePos {
    if a.0 >= b.0 {
        a
    } else {
        b
    }
}

impl Span {
    /// A span does not end before it starts.
    pub open spec fn wf(self) -> bool {
        self.start.0 <= self.end.0
    }

    /// The smallest span that covers two spans of one file.
    pub open spec fn merge_spec(self, other: Span) -> Span {
        Span {
            start: min_pos(self.start, other.start),
            end: max_pos(self.end, other.end),
            file_id: self.file_id,
        }
    }

    /// Whether one of two spans of a file ends no later than the other starts.
    pub open spec fn disjoint_spec(self, other: Span) -> bool {
        self.file_id == other.file_id ==> self.end.0 <= other.start.0 || other.end.0
            <= self.start.0
    }

    /// Create a new span from a starting and ending position.
    pub fn new(file_id: FileId, start: BytePos, end: BytePos) -> (r: Span)
        requires
            end.0 >= start.0,
        ensures
            r == (Span { file_id, start, end }),
            r.wf(),
    {
        Span { file_id, start, end }
    }

    /// Gives an empty span at the start of a source.
    pub fn initial(file_id: FileId) -> (r: Span)
        ensures
            r == (Span { file_id, start: BytePos(0), end: BytePos(0) }),
            r.wf(),
    {
        Span { file_id, start: BytePos(0), end: BytePos(0) }
    }

    /// Measure the span of a string, in bytes.
    ///
    /// The length is cut to the 32 bits of a position.
    pub fn from_str(s: &str) -> (r: Span)
        ensures
            r == (Span { file_id: None, start: BytePos(0), end: BytePos((s.len()) as u32) }),
            r.wf(),
    {
        Span::new(None, BytePos(0), BytePos(s.len() as u32))
    }

    /// The span of a range of byte positions, in no file.
    pub fn from(range: Range<u32>) -> (r: Span)
        requires
            range.start <= range.end,
        ensures
            r == (Span { file_id: None, start: BytePos(range.start), end: BytePos(range.end) }),
            r.wf(),
    {
        Span::new(None, BytePos(range.start), BytePos(range.end))
    }

    /// Combine two spans by taking the start of the earlier span
    /// and the end of the later span.
    ///
    /// This works even if the two spans are disjoint.
    pub fn merge(self, other: Span) -> (r: Span)
        requires
            self.file_id == other.file_id,
            min_pos(self.start, other.start).0 <= max_pos(self.end, other.end).0,
        ensures
            r == self.merge_spec(other),
            r.wf(),
    {
        let start = if self.start.0 <= other.start.0 {
            self.start
        } else {
            other.start
        };
        let end = if self.end.0 >= other.end.0 {
            self.end
        } else {
            other.end
        };
        Span::new(self.file_id, start, end)
    }

    /// Tell whether two spans do not overlap.
    ///
    /// A span in a file cannot be held against one in no file.
    pub fn disjoint(self, other: Span) -> (r: bool)
        requires
            self.file_id is Some <==> other.file_id is Some,
        ensures
            r == self.disjoint_spec(other),
    {
        if self.file_id != other.file_id {
            return true;
        }
        self.end.0 <= other.start.0 || other.end.0 <= self.start.0
    }

    /// Get the starting byte index.
    pub fn start(self) -> (r: BytePos)
        ensures
            r == self.start,
    {
        self.start
    }

    /// Get the ending byte index.
    pub fn end(self) -> (r: BytePos)
        ensures
            r == self.end,
    {
        self.end
    }

    /// The empty span where this one starts.
    pub open spec fn start_span_spec(self) -> Span {
        Span { file_id: self.file_id, start: self.start, end: self.start }
    }

    /// The empty span where this one ends.
    pub open spec fn end_span_spec(self) -> Span {
        Span { file_id: self.file_id, start: self.end, end: self.end }
    }

    /// Zero-length span at the start.
    pub fn start_span(self) -> (r: Span)
        ensures
            r == self.start_span_spec(),
    {
        Span::new(self.file_id, self.start, self.start)
    }

    /// Zero-length span at the end.
    pub fn end_span(self) -> (r: Span)
        ensures
            r == self.end_span_spec(),
    {
        Span::new(self.file_id, self.end, self.end)
    }

    /// The byte range that the span covers.
    pub fn range(self) -> (r: Range<u32>)
        ensures
            r.start == self.start.0,
            r.end == self.end.0,
    {
        self.start.0..self.end.0
    }
}

/// The span of generated code: empty, and in no file.
pub open spec fn null_span() -> Span {
    Span { file_id: None, start: BytePos(0), end: BytePos(0) }
}

impl Default for Span {
    fn default() -> (r: Span)
        ensures
            r == null_span(),
    {
        Span::initial(None)
    }
}

/// Merging two spans gives the same in either order.
pub proof fn law_merge_commutes(a: Span, b: Span)
    requires
        a.file_id == b.file_id,
    ensures
        a.merge_spec(b) == b.merge_spec(a),
{
}

/// Merging spans gives the same however the merges are grouped.
pub proof fn law_merge_associates(a: Span, b: Span, c: Span)
    ensures
        a.merge_spec(b).merge_spec(c) == a.merge_spec(b.merge_spec(c)),
{
}

/// A span merged with itself is unchanged.
pub proof fn law_merge_idempotent(a: Span)
    ensures
        a.merge_spec(a) == a,
{
}

/// A merged span covers both spans, and is covered by every span that covers both.
pub proof fn law_merge_is_least_cover(a: Span, b: Span, c: Span)
    ensures
        a.merge_spec(b).start.0 <= a.start.0 && a.end.0 <= a.merge_spec(b).end.0,
        a.merge_spec(b).start.0 <= b.start.0 && b.end.0 <= a.merge_spec(b).end.0,
        c.start.0 <= a.start.0 && c.start.0 <= b.start.0 ==> c.start.0 <= a.merge_spec(b).start.0,
        a.end.0 <= c.end.0 && b.end.0 <= c.end.0 ==> a.merge_spec(b).end.0 <= c.end.0,
{
}

/// Disjointness does not depend on the order of the spans.
pub proof fn law_disjoint_symmetric(a: Span, b: Span)
    ensures
        a.disjoint_spec(b) == b.disjoint_spec(a),
{
}

/// Two disjoint spans of one file have no byte in common, and two spans of one file
/// with no byte in common are disjoint if neither is empty.
pub proof fn law_disjoint_means_no_common_byte(a: Span, b: Span)
    requires
        a.wf(),
        b.wf(),
        a.file_id == b.file_id,
    ensures
        a.disjoint_spec(b) ==> forall|p: int|
            !(a.start.0 <= p < a.end.0 && #[trigger] in_span(b, p)),
        (a.start != a.end && b.start != b.end && forall|p: int|
            !(a.start.0 <= p < a.end.0 && #[trigger] in_span(b, p))) ==> a.disjoint_spec(b),
{
    if a.start != a.end && b.start != b.end && !a.disjoint_spec(b) {
        let p = if a.start.0 >= b.start.0 {
            a.start.0 as int
        } else {
            b.start.0 as int
        };
        assert(a.start.0 <= p < a.end.0 && in_span(b, p));
    }
}

/// Whether a byte position lies in a span.
pub open spec fn in_span(s: Span, p: int) -> bool {
    s.start.0 <= p < s.end.0
}

/// A value with the place in the source that it came from.
///
/// The span takes no part in comparisons.
#[derive(Debug)]
pub struct Spanned<T> {
    pub span: Span,
    pub value: T,
}

pub type Sp<T> = Spanned<T>;

impl<T: Copy> Copy for Spanned<T> {

}

impl<T: Clone> Clone for Spanned<T> {
    fn clone(&self) -> (r: Self)
        ensures
            r.span == self.span,
            cloned(self.value, r.value),
    {
        Spanned { span: self.span, value: self.value.clone() }
    }
}

impl<T> Spanned<T> {
    /// Attach the null span to a value.
    pub fn null_from<U: Into<T>>(value: U) -> (r: Self)
        ensures
            r.span == null_span(),
            call_ensures(<U as Into<T>>::into, (value,), r.value),
    {
        Spanned { span: Span::default(), value: value.into() }
    }

    /// Attach a span to a value.
    pub fn new_from<U: Into<T>>(span: Span, value: U) -> (r: Self)
        ensures
            r.span == span,
            call_ensures(<U as Into<T>>::into, (value,), r.value),
    {
        Spanned { span, value: value.into() }
    }

    /// Transform the value and keep the span.
    pub fn map<U, F: FnOnce(T) -> U>(self, f: F) -> (r: Spanned<U>)
        requires
            call_requires(f, (self.value,)),
        ensures
            r.span == self.span,
            call_ensures(f, (self.value,), r.value),
    {
        Spanned { span: self.span, value: f(self.value) }
    }
}

impl<T: PartialEq> PartialEq for Spanned<T> {
    fn eq(&self, other: &Self) -> (r: bool) {
        self.value == other.value
    }
}

impl<T: PartialEq> vstd::std_specs::cmp::PartialEqSpecImpl for Spanned<T> {
    open spec fn obeys_eq_spec() -> bool {
        T::obeys_eq_spec()
    }

    open spec fn eq_spec(&self, other: &Self) -> bool {
        self.value.eq_spec(&other.value)
    }
}

impl<T: PartialEq> PartialEq<T> for Spanned<T> {
    fn eq(&self, other: &T) -> (r: bool) {
        self.value == *other
    }
}

impl<T: PartialEq> vstd::std_specs::cmp::PartialEqSpecImpl<T> for Spanned<T> {
    open spec fn obeys_eq_spec() -> bool {
        T::obeys_eq_spec()
    }

    open spec fn eq_spec(&self, other: &T) -> bool {
        self.value.eq_spec(other)
    }
}

impl<T: Eq> Eq for Spanned<T> {

}

impl<T> From<T> for Spanned<T> {
    /// Attach the null span to a value.
    fn from(value: T) -> (r: Self) {
        Spanned { span: Span::default(), value }
    }
}

impl<T> vstd::std_specs::convert::FromSpecImpl<T> for Spanned<T> {
    open spec fn obeys_from_spec() -> bool {
        true
    }

    open spec fn from_spec(value: T) -> Self {
        sp_null(value)
    }
}

impl<T: Default> Default for Spanned<T> {
    fn default() -> (r: Self)
        ensures
            r.span == null_span(),
            call_ensures(T::default, (), r.value),
    {
        Spanned { span: Span::default(), value: T::default() }
    }
}

impl<T> Deref for Spanned<T> {
    type Target = T;

    fn deref(&self) -> (r: &T)
        ensures
            *r == self.value,
    {
        &self.value
    }
}

/// `Hash::hash`: the value goes into the hasher.  What a hasher makes of it is not said.
#[verifier::external_body]
fn hash_value<T: Hash, H: Hasher>(value: &T, state: &mut H) {
    value.hash(state);
}

impl<T: Hash> Hash for Spanned<T> {
    /// The span takes no part in hashes.
    fn hash<H: Hasher>(&self, state: &mut H) {
        hash_value(&self.value, state);
    }
}

/// The value with the null span.
pub open spec fn sp_null<T>(value: T) -> Sp<T> {
    Spanned { span: null_span(), value }
}

/// Attach the null span to a value of generated code.
pub fn sp<T>(value: T) -> (r: Sp<T>)
    ensures
        r == sp_null(value),
{
    Spanned { span: Span::default(), value }
}

} // verus!
