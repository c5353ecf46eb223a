//! Character spans within a command line.

use vstd::prelude::*;

use super::args::ArgParse;

verus! {

/// A half-open range `start..end` of byte offsets in a command line.
#[derive(PartialEq, Eq, Clone, Copy, Debug)]
pub struct Span {
    pub start: usize,
    pub end: usize,
}

/// A value together with the span of the line it was read from.
#[derive(Clone, Copy, PartialEq, Eq, Debug)]
pub struct Spanned<T> {
    pub span: Span,
    pub value: T,
}

impl<T: View> View for Spanned<T> {
    type V = Spanned<T::V>;

    open spec fn view(&self) -> Spanned<T::V> {
        Spanned { span: self.span, value: self.value@ }
    }
}

impl<T> Spanned<T> {
    /// Pairs `value` with `span`.
    pub fn new(span: Span, value: T) -> (res: Self)
        ensures
            res.span == span,
            res.value == value,
    {
        Spanned { span, value }
    }
}

impl Spanned<String> {
    /// Converts the carried string into another string-like type.
    pub fn cast_to<U: From<String>>(self) -> (res: Spanned<U>)
        requires
            call_requires(U::from, (self.value,)),
        ensures
            res.span == self.span,
            call_ensures(U::from, (self.value,), res.value),
    {
        Spanned { span: self.span, value: U::from(self.value) }
    }

    /// Reads the carried text as a `U`, keeping the span.
    pub fn parse_to<U: ArgParse>(&self) -> (res: Result<Spanned<U>, U::Err>)
        ensures
            match res {
                Ok(s) => s.span == self.span && U::parses(self.value@, Ok(s.value)),
                Err(e) => U::parses(self.value@, Err(e)),
            },
    {
        match U::parse_arg(self.value.as_str()) {
            Ok(v) => Ok(Spanned { span: self.span, value: v }),
            Err(e) => Err(e),
        }
    }
}

impl Span {
    /// Attaches this span to `value`.
    pub fn spanned<T>(self, value: T) -> (res: Spanned<T>)
        ensures
            res.span == self,
            res.value == value,
    {
        Spanned::new(self, value)
    }

    /// Attaches this span to an owned copy of `value`.
    pub fn spanned_string(self, value: &str) -> (res: Spanned<String>)
        ensures
            res.span == self,
            res.value@ == value@,
    {
        self.spanned(value.to_owned())
    }
}

} // verus!
