//! Syntax tree of ukonf files: source spans, interned strings, literals and
//! keys, with the decoding of string literals.

use vstd::prelude::*;

use crate::text::{char_from_u32, chars_of, is_scalar_value, string_of};

verus! {

// ---------------------------------------------------------------------------
// Escape sequences of double-quoted string literals
// ---------------------------------------------------------------------------

/// The character that a one-letter escape `\e` stands for.
pub open spec fn escape_char(e: char) -> Option<char> {
    if e == 'n' {
        Some('\n')
    } else if e == 'r' {
        Some('\r')
    } else if e == 't' {
        Some('\t')
    } else if e == '\'' {
        Some('\'')
    } else if e == '"' {
        Some('"')
    } else if e == '\\' {
        Some('\\')
    } else {
        None
    }
}

pub open spec fn is_hex_digit(c: char) -> bool {
    ('0' <= c && c <= '9') || ('a' <= c && c <= 'f') || ('A' <= c && c <= 'F')
}

pub open spec fn hex_digit_value(c: char) -> int {
    if '0' <= c && c <= '9' {
        c as int - '0' as int
    } else if 'a' <= c && c <= 'f' {
        c as int - 'a' as int + 10
    } else {
        c as int - 'A' as int + 10
    }
}

/// The value of the hexadecimal numeral `ds`, most significant digit first.
pub open spec fn hex_digits_value(ds: Seq<char>) -> int
    decreases ds.len(),
{
    if ds.len() == 0 {
        0
    } else {
        hex_digits_value(ds.drop_last()) * 16 + hex_digit_value(ds.last())
    }
}

pub open spec fn all_hex(ds: Seq<char>) -> bool {
    forall|i: int| 0 <= i < ds.len() ==> #[trigger] is_hex_digit(ds[i])
}

/// Unsigned base-16 syntax (as `u32::from_str_radix(_, 16)` reads it): an
/// optional `+` followed by at least one hexadecimal digit.
pub open spec fn parse_hex_code(code: Seq<char>) -> Option<int> {
    let ds = if code.len() > 0 && code[0] == '+' {
        code.skip(1)
    } else {
        code
    };
    if ds.len() > 0 && all_hex(ds) {
        Some(hex_digits_value(ds))
    } else {
        None
    }
}

/// `p` in front of the decoded text, if there is one.
pub open spec fn prepend_opt(p: Seq<char>, o: Option<Seq<char>>) -> Option<Seq<char>> {
    match o {
        Some(r) => Some(p + r),
        None => None,
    }
}

/// The text that the body `s` of a double-quoted literal stands for, or
/// `None` where it holds a malformed escape: a backslash at the end, an
/// unknown escape letter, or a `\u` not followed by four characters that
/// read as the hexadecimal code of a Unicode scalar value.
pub open spec fn unquote_spec(s: Seq<char>) -> Option<Seq<char>>
    decreases s.len(),
{
    if s.len() == 0 {
        Some(Seq::empty())
    } else if s[0] != '\\' {
        prepend_opt(seq![s[0]], unquote_spec(s.skip(1)))
    } else if s.len() < 2 {
        None
    } else if s[1] == 'u' {
        if s.len() < 6 {
            None
        } else {
            match parse_hex_code(s.subrange(2, 6)) {
                Some(v) => if is_scalar_value(v) {
                    prepend_opt(seq![v as char], unquote_spec(s.skip(6)))
                } else {
                    None
                },
                None => None,
            }
        }
    } else {
        match escape_char(s[1]) {
            Some(c) => prepend_opt(seq![c], unquote_spec(s.skip(2))),
            None => None,
        }
    }
}

pub open spec fn pow16(n: nat) -> int
    decreases n,
{
    if n == 0 {
        1
    } else {
        16 * pow16((n - 1) as nat)
    }
}

/// Reads the four characters `cs[start..start + 4]` as a hexadecimal code.
fn parse_hex4(cs: &[char], start: usize) -> (res: Option<u32>)
    requires
        start + 4 <= cs@.len(),
    ensures
        match res {
            Some(v) => parse_hex_code(cs@.subrange(start as int, start + 4)) == Some(v as int),
            None => parse_hex_code(cs@.subrange(start as int, start + 4)) is None,
        },
{
    let ghost code = cs@.subrange(start as int, start + 4);
    let first: usize = if cs[start] == '+' {
        start + 1
    } else {
        start
    };
    let end: usize = start + 4;
    let ghost ds = cs@.subrange(first as int, end as int);
    proof {
        if cs[start as int] == '+' {
            assert(code.skip(1) =~= ds);
        } else {
            assert(code =~= ds);
        }
        assert(ds.take(0) =~= Seq::<char>::empty());
        reveal_with_fuel(pow16, 5);
    }
    let mut v: u32 = 0;
    let mut j: usize = first;
    while j < end
        invariant
            start <= first <= j <= end,
            end == start + 4,
            first <= start + 1,
            end <= cs@.len(),
            code == cs@.subrange(start as int, start + 4),
            ds == cs@.subrange(first as int, end as int),
            parse_hex_code(code) == (if ds.len() > 0 && all_hex(ds) {
                Some(hex_digits_value(ds))
            } else {
                None::<int>
            }),
            all_hex(ds.take(j - first)),
            v as int == hex_digits_value(ds.take(j - first)),
            0 <= v < pow16((j - first) as nat),
            pow16(4) == 65536,
            pow16(3) == 4096,
            pow16(2) == 256,
            pow16(1) == 16,
            pow16(0) == 1,
        decreases end - j,
    {
        let c = cs[j];
        let k: usize = j - first;
        proof {
            assert(ds.take(k + 1).drop_last() =~= ds.take(k as int));
            assert(ds.take(k + 1).last() == c);
        }
        let d: u32;
        if '0' <= c && c <= '9' {
            d = (c as u32) - ('0' as u32);
        } else if 'a' <= c && c <= 'f' {
            d = (c as u32) - ('a' as u32) + 10;
        } else if 'A' <= c && c <= 'F' {
            d = (c as u32) - ('A' as u32) + 10;
        } else {
            proof {
                assert(!is_hex_digit(ds[k as int]));
                assert(!all_hex(ds));
            }
            return None;
        }
        proof {
            assert(pow16((k + 1) as nat) == 16 * pow16(k as nat));
        }
        v = v * 16 + d;
        j = j + 1;
        proof {
            assert forall|i: int| 0 <= i < ds.take(j - first).len() implies #[trigger] is_hex_digit(
                ds.take(j - first)[i],
            ) by {
                if i < k {
                    assert(ds.take(j - first)[i] == ds.take(k as int)[i]);
                }
            }
        }
    }
    proof {
        assert(ds.take(j - first) =~= ds);
    }
    if first == end {
        return None;
    }
    Some(v)
}

proof fn lemma_prepend_assoc(a: Seq<char>, b: Seq<char>, o: Option<Seq<char>>)
    ensures
        prepend_opt(a, prepend_opt(b, o)) == prepend_opt(a + b, o),
{
    if let Some(r) = o {
        assert(a + (b + r) =~= (a + b) + r);
    }
}

/// Decodes the body of a double-quoted literal, or `None` where it holds a
/// malformed escape.
fn unquote_chars(s: &[char]) -> (res: Option<Vec<char>>)
    ensures
        match res {
            Some(v) => unquote_spec(s@) == Some(v@),
            None => unquote_spec(s@) is None,
        },
{
    let mut out: Vec<char> = Vec::new();
    let mut i: usize = 0;
    let len = s.len();
    proof {
        assert(s@.skip(0) =~= s@);
        assert(out@ + s@ =~= s@);
        if let Some(r) = unquote_spec(s@) {
            assert(out@ + r =~= r);
        }
    }
    while i < len
        invariant
            i <= len,
            len == s@.len(),
            unquote_spec(s@) == prepend_opt(out@, unquote_spec(s@.skip(i as int))),
        decreases len - i,
    {
        let ghost rest = s@.skip(i as int);
        let c = s[i];
        if c != '\\' {
            proof {
                assert(rest[0] == c);
                assert(rest.skip(1) =~= s@.skip(i + 1));
                lemma_prepend_assoc(out@, seq![c], unquote_spec(s@.skip(i + 1)));
                assert(out@.push(c) =~= out@ + seq![c]);
            }
            out.push(c);
            i = i + 1;
        } else {
            if i + 1 >= len {
                return None;
            }
            let e = s[i + 1];
            if e == 'u' {
                if len - i < 6 {
                    return None;
                }
                proof {
                    assert(rest.subrange(2, 6) =~= s@.subrange(i + 2, i + 6));
                }
                match parse_hex4(s, i + 2) {
                    None => {
                        return None;
                    },
                    Some(v) => match char_from_u32(v) {
                        None => {
                            return None;
                        },
                        Some(ch) => {
                            proof {
                                assert(ch == (v as int) as char);
                                assert(rest.skip(6) =~= s@.skip(i + 6));
                                lemma_prepend_assoc(out@, seq![ch], unquote_spec(s@.skip(i + 6)));
                                assert(out@.push(ch) =~= out@ + seq![ch]);
                            }
                            out.push(ch);
                            i = i + 6;
                        },
                    },
                }
            } else {
                let decoded: char;
                if e == 'n' {
                    decoded = '\n';
                } else if e == 'r' {
                    decoded = '\r';
                } else if e == 't' {
                    decoded = '\t';
                } else if e == '\'' {
                    decoded = '\'';
                } else if e == '"' {
                    decoded = '"';
                } else if e == '\\' {
                    decoded = '\\';
                } else {
                    return None;
                }
                proof {
                    assert(escape_char(e) == Some(decoded));
                    assert(rest.skip(2) =~= s@.skip(i + 2));
                    lemma_prepend_assoc(out@, seq![decoded], unquote_spec(s@.skip(i + 2)));
                    assert(out@.push(decoded) =~= out@ + seq![decoded]);
                }
                out.push(decoded);
                i = i + 2;
            }
        }
    }
    proof {
        assert(s@.skip(i as int) =~= Seq::<char>::empty());
        assert(out@ + Seq::<char>::empty() =~= out@);
    }
    Some(out)
}

/// Text without a backslash decodes to itself.
pub proof fn lemma_unquote_plain_text(s: Seq<char>)
    requires
        forall|i: int| 0 <= i < s.len() ==> #[trigger] s[i] != '\\',
    ensures
        unquote_spec(s) == Some(s),
    decreases s.len(),
{
    if s.len() > 0 {
        assert forall|i: int| 0 <= i < s.skip(1).len() implies #[trigger] s.skip(1)[i] != '\\' by {
            assert(s.skip(1)[i] == s[i + 1]);
        }
        lemma_unquote_plain_text(s.skip(1));
        assert(seq![s[0]] + s.skip(1) =~= s);
    }
}

/// Decoding works escape by escape: the decoding of `a + b` is that of `a`
/// followed by that of `b`, where `a` does not end inside an escape.
pub proof fn lemma_unquote_escape_then_rest(e: char, rest: Seq<char>)
    requires
        escape_char(e) is Some,
        e != 'u',
    ensures
        unquote_spec(seq!['\\', e] + rest) == prepend_opt(seq![escape_char(e).unwrap()], unquote_spec(rest)),
{
    let s = seq!['\\', e] + rest;
    assert(s[0] == '\\');
    assert(s[1] == e);
    assert(s.skip(2) =~= rest);
}

/// Decodes the body of a double-quoted literal: `None` where it holds a
/// malformed escape.
pub fn try_unquote(s: &str) -> (res: Option<String>)
    ensures
        match res {
            Some(r) => unquote_spec(s@) == Some(r@),
            None => unquote_spec(s@) is None,
        },
{
    let cs = chars_of(s);
    match unquote_chars(cs.as_slice()) {
        Some(v) => Some(string_of(v.as_slice())),
        None => None,
    }
}

/// Decodes the body of a double-quoted literal: `\n`, `\r`, `\t`, `\'`,
/// `\"`, `\\` and `\uXXXX` escapes are replaced by the characters they
/// stand for.
pub fn unquote(s: &str) -> (res: String)
    requires
        unquote_spec(s@) is Some,
    ensures
        unquote_spec(s@) == Some(res@),
{
    try_unquote(s).unwrap()
}

// ---------------------------------------------------------------------------
// Files, spans and interned strings
// ---------------------------------------------------------------------------

/// The index of a source file in the parser configuration.
#[derive(Clone, Copy, PartialEq, Eq, Structural, Debug)]
pub struct FileId(pub usize);

/// The byte range `start..end` of a file.
#[derive(Clone, Copy, PartialEq, Eq, Structural, Debug)]
pub struct PhysicalSpan {
    pub start: usize,
    pub end: usize,
    pub file_id: FileId,
}

/// A handle to a string held by a [`StringInterner`]: its index there.
#[derive(Clone, Copy, PartialEq, Eq, Structural, Debug)]
pub struct InternedString {
    id: usize,
}

impl View for InternedString {
    type V = nat;

    closed spec fn view(&self) -> nat {
        self.id as nat
    }
}

/// A table of distinct strings, each kept once and found by its index.
pub struct StringInterner {
    strings: Vec<String>,
}

impl View for StringInterner {
    type V = Seq<Seq<char>>;

    closed spec fn view(&self) -> Seq<Seq<char>> {
        self.strings@.map_values(|s: String| s@)
    }
}

/// No string occurs twice in `t`.
pub open spec fn distinct_strings(t: Seq<Seq<char>>) -> bool {
    forall|i: int, j: int| 0 <= i < j < t.len() ==> t[i] != t[j]
}

/// `t` with `s` added at the end unless it is already there.
pub open spec fn intern_spec(t: Seq<Seq<char>>, s: Seq<char>) -> Seq<Seq<char>> {
    if t.contains(s) {
        t
    } else {
        t.push(s)
    }
}

impl StringInterner {
    /// The stored string at index `i`.
    pub closed spec fn entry(&self, i: int) -> String {
        self.strings@[i]
    }

    /// The strings of the table are pairwise distinct.
    pub open spec fn wf(&self) -> bool {
        distinct_strings(self@)
    }

    /// The string stored at index `i` is the table's string at `i`.
    pub proof fn lemma_entry_view(&self, i: int)
        requires
            0 <= i < self@.len(),
        ensures
            self.entry(i)@ == self@[i],
    {
    }

    /// An empty table.
    pub fn new() -> (res: Self)
        ensures
            res.wf(),
            res@ == Seq::<Seq<char>>::empty(),
    {
        let res = StringInterner { strings: Vec::new() };
        proof {
            assert(res@ =~= Seq::<Seq<char>>::empty());
        }
        res
    }

    /// The handle of `string`, adding it to the table if it is not there yet.
    pub fn intern(&mut self, string: String) -> (res: InternedString)
        requires
            old(self).wf(),
        ensures
            final(self).wf(),
            final(self)@ == intern_spec(old(self)@, string@),
            res@ < final(self)@.len(),
            final(self)@[res@ as int] == string@,
    {
        let ghost old_view = self@;
        let mut pos: usize = 0;
        let n = self.strings.len();
        while pos < n
            invariant
                pos <= n,
                n == self.strings@.len(),
                self@ == old_view,
                distinct_strings(old_view),
                self@.len() == n,
                forall|k: int| 0 <= k < pos ==> #[trigger] self@[k] != string@,
            decreases n - pos,
        {
            if crate::text::str_eq(self.strings[pos].as_str(), string.as_str()) {
                proof {
                    assert(self@[pos as int] == self.strings@[pos as int]@);
                    assert(self@.contains(string@));
                }
                return InternedString { id: pos };
            }
            proof {
                assert(self@[pos as int] == self.strings@[pos as int]@);
            }
            pos = pos + 1;
        }
        proof {
            assert(!old_view.contains(string@));
        }
        self.strings.push(string);
        proof {
            assert(self@ =~= old_view.push(string@));
            assert forall|i: int, j: int| 0 <= i < j < self@.len() implies self@[i] != self@[j] by {
                if j == n {
                    assert(old_view[i] != string@) by {
                        if old_view[i] == string@ {
                            assert(old_view.contains(string@));
                        }
                    }
                }
            }
        }
        InternedString { id: n }
    }
}

impl InternedString {
    /// Applies `f` to the string that this handle stands for in `interner`.
    pub fn with_inner<F, T>(&self, interner: &StringInterner, f: F) -> (res: T) where
        F: FnOnce(&String) -> T,
        requires
            self@ < interner@.len(),
            call_requires(f, (&interner.entry(self@ as int),)),
        ensures
            call_ensures(f, (&interner.entry(self@ as int),), res),
    {
        let s = &interner.strings[self.id];
        f(s)
    }
}

/// A span made up by the evaluator rather than read from a file: the
/// function, and its file, that produced the value.
#[derive(Clone, Copy, PartialEq, Eq, Structural, Debug)]
pub struct VirtualSpan {
    pub creator_fun_file: Option<FileId>,
    pub creator_fun_name: Option<InternedString>,
}

/// Where a span points.
#[derive(Clone, Copy, PartialEq, Eq, Structural, Debug)]
pub enum SpanInner {
    Physical(PhysicalSpan),
    Virtual(VirtualSpan),
}

/// The origin of a syntax-tree node or value.
#[derive(Clone, Copy, PartialEq, Eq, Structural, Debug)]
pub struct Span(pub SpanInner);

/// Two spans can be joined: both are physical and in the same file.
pub open spec fn joinable(a: Span, b: Span) -> bool {
    a.0 matches SpanInner::Physical(p) && b.0 matches SpanInner::Physical(q) && p.file_id
        == q.file_id
}

pub open spec fn min_usize(a: usize, b: usize) -> usize {
    if a <= b {
        a
    } else {
        b
    }
}

pub open spec fn max_usize(a: usize, b: usize) -> usize {
    if a >= b {
        a
    } else {
        b
    }
}

/// The smallest physical span that covers two joinable spans.
pub open spec fn join_spec(a: Span, b: Span) -> Span
    recommends
        joinable(a, b),
{
    match (a.0, b.0) {
        (SpanInner::Physical(p), SpanInner::Physical(q)) => Span(
            SpanInner::Physical(
                PhysicalSpan {
                    start: min_usize(p.start, q.start),
                    end: max_usize(p.end, q.end),
                    file_id: p.file_id,
                },
            ),
        ),
        _ => a,
    }
}

impl Span {
    /// The physical span `start..end` of file `file_id`.
    pub fn new(start: usize, end: usize, file_id: FileId) -> (res: Self)
        ensures
            res == Span(SpanInner::Physical(PhysicalSpan { start, end, file_id })),
    {
        Span(SpanInner::Physical(PhysicalSpan { start, end, file_id }))
    }

    /// A span for a value that no file holds.
    pub fn new_virtual(virtual_span: VirtualSpan) -> (res: Self)
        ensures
            res == Span(SpanInner::Virtual(virtual_span)),
    {
        Span(SpanInner::Virtual(virtual_span))
    }

    /// The file range, where the span is physical.
    pub fn as_physical(&self) -> (res: Option<PhysicalSpan>)
        ensures
            res == (match self.0 {
                SpanInner::Physical(p) => Some(p),
                SpanInner::Virtual(_) => None::<PhysicalSpan>,
            }),
    {
        match &self.0 {
            SpanInner::Physical(span) => Some(*span),
            SpanInner::Virtual(_) => None,
        }
    }

    /// The producing function, where the span is virtual.
    pub fn as_virtual(&self) -> (res: Option<&VirtualSpan>)
        ensures
            res == (match self.0 {
                SpanInner::Physical(_) => None::<&VirtualSpan>,
                SpanInner::Virtual(v) => Some(&v),
            }),
    {
        match &self.0 {
            SpanInner::Physical(_) => None,
            SpanInner::Virtual(virt) => Some(virt),
        }
    }

    /// The smallest span of the same file that covers both spans.
    pub fn join_with(&self, other: &Self) -> (res: Self)
        requires
            joinable(*self, *other),
        ensures
            res == join_spec(*self, *other),
    {
        match (&self.0, &other.0) {
            (SpanInner::Physical(p), SpanInner::Physical(q)) => {
                let start = if p.start <= q.start {
                    p.start
                } else {
                    q.start
                };
                let end = if p.end >= q.end {
                    p.end
                } else {
                    q.end
                };
                Self::new(start, end, p.file_id)
            },
            _ => *self,
        }
    }

    /// Attaches this span to `v`.
    pub fn spanned<T>(self, v: T) -> (res: Spanned<T>)
        ensures
            res.0 == v,
            res.1 == self,
    {
        Spanned(v, self)
    }

    /// Attaches this span to an owned copy of `v`.
    pub fn spanned_string(self, v: &str) -> (res: Spanned<String>)
        ensures
            res.0@ == v@,
            res.1 == self,
    {
        self.spanned(v.to_owned())
    }
}

/// Joining is commutative.
pub proof fn lemma_join_commutative(a: Span, b: Span)
    requires
        joinable(a, b),
    ensures
        joinable(b, a),
        join_spec(a, b) == join_spec(b, a),
{
}

/// Joining is associative, and a join can be joined again in the same file.
pub proof fn lemma_join_associative(a: Span, b: Span, c: Span)
    requires
        joinable(a, b),
        joinable(b, c),
    ensures
        joinable(join_spec(a, b), c),
        joinable(a, join_spec(b, c)),
        join_spec(join_spec(a, b), c) == join_spec(a, join_spec(b, c)),
{
}

/// Joining a span with itself gives it back.
pub proof fn lemma_join_idempotent(a: Span)
    requires
        a.0 is Physical,
    ensures
        joinable(a, a),
        join_spec(a, a) == a,
{
}

/// The join starts no later and ends no earlier than either span.
pub proof fn lemma_join_covers(a: Span, b: Span)
    requires
        joinable(a, b),
    ensures
        join_spec(a, b).0 matches SpanInner::Physical(j) && a.0 matches SpanInner::Physical(p)
            && b.0 matches SpanInner::Physical(q) && j.start <= p.start && j.start <= q.start
            && j.end >= p.end && j.end >= q.end && j.file_id == p.file_id,
{
}

/// Interning a string twice gives the same handle and leaves the table as the
/// first call left it.
pub proof fn lemma_intern_twice(t: Seq<Seq<char>>, s: Seq<char>)
    ensures
        intern_spec(intern_spec(t, s), s) == intern_spec(t, s),
{
    if !t.contains(s) {
        assert(t.push(s)[t.len() as int] == s);
        assert(t.push(s).contains(s));
    }
}

/// Interning keeps every string at the index it had.
pub proof fn lemma_intern_keeps_indices(t: Seq<Seq<char>>, s: Seq<char>)
    ensures
        intern_spec(t, s).len() >= t.len(),
        forall|i: int| 0 <= i < t.len() ==> #[trigger] intern_spec(t, s)[i] == t[i],
{
}

/// In a table without repeats, a string sits at one index only, so equal
/// strings get equal handles.
pub proof fn lemma_interned_index_unique(t: Seq<Seq<char>>, i: int, j: int)
    requires
        distinct_strings(t),
        0 <= i < t.len(),
        0 <= j < t.len(),
        t[i] == t[j],
    ensures
        i == j,
{
    if i < j {
        assert(t[i] != t[j]);
    } else if j < i {
        assert(t[j] != t[i]);
    }
}

/// A value together with its span.
#[derive(Clone, PartialEq, Eq, Debug)]
pub struct Spanned<T>(pub T, pub Span);

impl<T> Spanned<T> {
    fn new(t: T, span: Span) -> (res: Self)
        ensures
            res.0 == t,
            res.1 == span,
    {
        Spanned(t, span)
    }

    fn into_inner(self) -> (res: T)
        ensures
            res == self.0,
    {
        self.0
    }

    fn span(&self) -> (res: &Span)
        ensures
            *res == self.1,
    {
        &self.1
    }
}

// ---------------------------------------------------------------------------
// Byte ranges of UTF-8 text
// ---------------------------------------------------------------------------

/// The number of bytes of `c` in UTF-8.
pub open spec fn utf8_len(c: char) -> nat {
    if (c as u32) < 0x80 {
        1
    } else if (c as u32) < 0x800 {
        2
    } else if (c as u32) < 0x10000 {
        3
    } else {
        4
    }
}

/// The number of bytes of `s` in UTF-8.
pub open spec fn utf8_width(s: Seq<char>) -> nat
    decreases s.len(),
{
    if s.len() == 0 {
        0
    } else {
        utf8_width(s.drop_last()) + utf8_len(s.last())
    }
}

/// Character positions `i..j` whose UTF-8 encoding is `s` with `front` bytes
/// cut from the start and `back` bytes from the end.
pub open spec fn trim_bounds(s: Seq<char>, front: nat, back: nat, i: int, j: int) -> bool {
    0 <= i <= j <= s.len() && utf8_width(s.take(i)) == front && utf8_width(s.skip(j)) == back
}

/// The text of the byte range `front..len - back` of `s` (as slicing a `str`
/// by byte offsets gives it), or `None` where an end of the range falls
/// inside a character or the range is reversed.
pub open spec fn trim_bytes(s: Seq<char>, front: nat, back: nat) -> Option<Seq<char>> {
    if exists|i: int, j: int| trim_bounds(s, front, back, i, j) {
        let (i, j) = choose|i: int, j: int| trim_bounds(s, front, back, i, j);
        Some(s.subrange(i, j))
    } else {
        None
    }
}

proof fn lemma_width_take_step(s: Seq<char>, i: int)
    requires
        0 <= i < s.len(),
    ensures
        utf8_width(s.take(i + 1)) == utf8_width(s.take(i)) + utf8_len(s[i]),
{
    assert(s.take(i + 1).drop_last() =~= s.take(i));
}

proof fn lemma_width_take_strict(s: Seq<char>, a: int, b: int)
    requires
        0 <= a < b <= s.len(),
    ensures
        utf8_width(s.take(a)) < utf8_width(s.take(b)),
    decreases b - a,
{
    lemma_width_take_step(s, b - 1);
    if a < b - 1 {
        lemma_width_take_strict(s, a, b - 1);
    }
}

proof fn lemma_width_concat(a: Seq<char>, b: Seq<char>)
    ensures
        utf8_width(a + b) == utf8_width(a) + utf8_width(b),
    decreases b.len(),
{
    if b.len() == 0 {
        assert(a + b =~= a);
    } else {
        assert((a + b).drop_last() =~= a + b.drop_last());
        lemma_width_concat(a, b.drop_last());
    }
}

proof fn lemma_width_skip_step(s: Seq<char>, j: int)
    requires
        0 <= j < s.len(),
    ensures
        utf8_width(s.skip(j)) == utf8_len(s[j]) + utf8_width(s.skip(j + 1)),
{
    let one = seq![s[j]];
    assert(s.skip(j) =~= one + s.skip(j + 1));
    lemma_width_concat(one, s.skip(j + 1));
    assert(one.drop_last() =~= Seq::<char>::empty());
    assert(utf8_width(one.drop_last()) == 0);
    assert(utf8_width(one) == utf8_len(s[j]));
}

proof fn lemma_width_skip_strict(s: Seq<char>, a: int, b: int)
    requires
        0 <= a < b <= s.len(),
    ensures
        utf8_width(s.skip(a)) > utf8_width(s.skip(b)),
    decreases b - a,
{
    lemma_width_skip_step(s, a);
    if a + 1 < b {
        lemma_width_skip_strict(s, a + 1, b);
    }
}

fn utf8_len_of(c: char) -> (n: usize)
    ensures
        n == utf8_len(c),
{
    let v = c as u32;
    if v < 0x80 {
        1
    } else if v < 0x800 {
        2
    } else if v < 0x10000 {
        3
    } else {
        4
    }
}

/// The character position at which the first `front` bytes of `cs` end.
fn front_index(cs: &[char], front: usize) -> (res: Option<usize>)
    requires
        front <= 8,
    ensures
        match res {
            Some(i) => i <= cs@.len() && utf8_width(cs@.take(i as int)) == front,
            None => forall|i: int|
                0 <= i <= cs@.len() ==> #[trigger] utf8_width(cs@.take(i)) != front,
        },
{
    let mut i: usize = 0;
    let mut w: usize = 0;
    proof {
        assert(cs@.take(0) =~= Seq::<char>::empty());
    }
    while i < cs.len() && w < front
        invariant
            i <= cs@.len(),
            front <= 8,
            w == utf8_width(cs@.take(i as int)),
            w <= front + 4,
            forall|k: int| 0 <= k < i ==> #[trigger] utf8_width(cs@.take(k)) < front,
        decreases cs@.len() - i,
    {
        proof {
            lemma_width_take_step(cs@, i as int);
        }
        w = w + utf8_len_of(cs[i]);
        i = i + 1;
        proof {
            assert forall|k: int| 0 <= k < i implies #[trigger] utf8_width(cs@.take(k)) < front by {
                if k == i - 1 {
                } else {
                    assert(utf8_width(cs@.take(k)) < front);
                }
            }
        }
    }
    if w == front {
        Some(i)
    } else {
        proof {
            assert forall|k: int| 0 <= k <= cs@.len() implies #[trigger] utf8_width(cs@.take(k))
                != front by {
                if k < i {
                } else if k > i {
                    lemma_width_take_strict(cs@, i as int, k);
                }
            }
        }
        None
    }
}

/// The character position at which the last `back` bytes of `cs` start.
fn back_index(cs: &[char], back: usize) -> (res: Option<usize>)
    requires
        back <= 8,
    ensures
        match res {
            Some(j) => j <= cs@.len() && utf8_width(cs@.skip(j as int)) == back,
            None => forall|j: int|
                0 <= j <= cs@.len() ==> #[trigger] utf8_width(cs@.skip(j)) != back,
        },
{
    let mut j: usize = cs.len();
    let mut w: usize = 0;
    proof {
        assert(cs@.skip(cs@.len() as int) =~= Seq::<char>::empty());
    }
    while j > 0 && w < back
        invariant
            j <= cs@.len(),
            back <= 8,
            w == utf8_width(cs@.skip(j as int)),
            w <= back + 4,
            forall|k: int| j < k <= cs@.len() ==> #[trigger] utf8_width(cs@.skip(k)) < back,
        decreases j,
    {
        proof {
            lemma_width_skip_step(cs@, j - 1);
        }
        w = w + utf8_len_of(cs[j - 1]);
        j = j - 1;
    }
    if w == back {
        Some(j)
    } else {
        proof {
            assert forall|k: int| 0 <= k <= cs@.len() implies #[trigger] utf8_width(cs@.skip(k))
                != back by {
                if k > j {
                } else if k < j {
                    lemma_width_skip_strict(cs@, k, j as int);
                }
            }
        }
        None
    }
}

/// The characters of the byte range `front..len - back` of `cs`.
fn trim_chars(cs: &[char], front: usize, back: usize) -> (res: Option<Vec<char>>)
    requires
        front <= 8,
        back <= 8,
    ensures
        match res {
            Some(v) => trim_bytes(cs@, front as nat, back as nat) == Some(v@),
            None => trim_bytes(cs@, front as nat, back as nat) is None,
        },
{
    let fi = front_index(cs, front);
    let bi = back_index(cs, back);
    match (fi, bi) {
        (Some(i), Some(j)) => {
            if i > j {
                proof {
                    assert forall|a: int, b: int| !trim_bounds(cs@, front as nat, back as nat, a, b) by {
                        if trim_bounds(cs@, front as nat, back as nat, a, b) {
                            if a < i {
                                lemma_width_take_strict(cs@, a, i as int);
                            } else if a > i {
                                lemma_width_take_strict(cs@, i as int, a);
                            }
                            if b < j {
                                lemma_width_skip_strict(cs@, b, j as int);
                            } else if b > j {
                                lemma_width_skip_strict(cs@, j as int, b);
                            }
                        }
                    }
                }
                return None;
            }
            let mut out: Vec<char> = Vec::new();
            let mut k: usize = i;
            while k < j
                invariant
                    i <= k <= j,
                    j <= cs@.len(),
                    out@ == cs@.subrange(i as int, k as int),
                decreases j - k,
            {
                out.push(cs[k]);
                k = k + 1;
                proof {
                    assert(out@ =~= cs@.subrange(i as int, k as int));
                }
            }
            proof {
                assert(trim_bounds(cs@, front as nat, back as nat, i as int, j as int));
                let (a, b) = choose|a: int, b: int| trim_bounds(cs@, front as nat, back as nat, a, b);
                if a < i {
                    lemma_width_take_strict(cs@, a, i as int);
                } else if a > i {
                    lemma_width_take_strict(cs@, i as int, a);
                }
                if b < j {
                    lemma_width_skip_strict(cs@, b, j as int);
                } else if b > j {
                    lemma_width_skip_strict(cs@, j as int, b);
                }
            }
            Some(out)
        },
        _ => {
            proof {
                assert forall|a: int, b: int| !trim_bounds(cs@, front as nat, back as nat, a, b) by {
                    if trim_bounds(cs@, front as nat, back as nat, a, b) {
                        assert(utf8_width(cs@.take(a)) == front);
                        assert(utf8_width(cs@.skip(b)) == back);
                    }
                }
            }
            None
        },
    }
}

// ---------------------------------------------------------------------------
// Literals, identifiers and keys
// ---------------------------------------------------------------------------

/// A string literal, as the source spells it (delimiters included).
pub enum StrLit {
    Apostrophe(Spanned<String>),
    Quote(Spanned<String>),
    TripleQuote(Spanned<String>),
}

impl StrLit {
    /// The text the literal stands for: the body between the delimiters,
    /// with escapes decoded in a double-quoted literal; `None` where
    /// decoding fails.
    pub open spec fn value_spec(&self) -> Option<Seq<char>> {
        match self {
            StrLit::Apostrophe(s) => trim_bytes(s.0@, 1, 1),
            StrLit::Quote(s) => match trim_bytes(s.0@, 1, 1) {
                Some(body) => unquote_spec(body),
                None => None,
            },
            StrLit::TripleQuote(s) => match trim_bytes(s.0@, 3, 3) {
                Some(body) => Some(without_carriage_returns(body)),
                None => None,
            },
        }
    }

    pub open spec fn span_spec(&self) -> Span {
        match self {
            StrLit::Apostrophe(s) => s.1,
            StrLit::Quote(s) => s.1,
            StrLit::TripleQuote(s) => s.1,
        }
    }

    /// The text the literal stands for.
    pub fn str_val(&self) -> (res: String)
        requires
            self.value_spec() is Some,
        ensures
            self.value_spec() == Some(res@),
    {
        match self {
            StrLit::Apostrophe(s) => {
                let cs = chars_of(s.0.as_str());
                let body = trim_chars(cs.as_slice(), 1, 1).unwrap();
                string_of(body.as_slice())
            },
            StrLit::Quote(s) => {
                let cs = chars_of(s.0.as_str());
                let body = trim_chars(cs.as_slice(), 1, 1).unwrap();
                let decoded = unquote_chars(body.as_slice()).unwrap();
                string_of(decoded.as_slice())
            },
            StrLit::TripleQuote(s) => {
                let cs = chars_of(s.0.as_str());
                let body = trim_chars(cs.as_slice(), 3, 3).unwrap();
                patch_triple_quote_string(body.as_slice())
            },
        }
    }

    /// The span of the literal.
    pub fn span(&self) -> (res: &Span)
        ensures
            *res == self.span_spec(),
    {
        match self {
            StrLit::Apostrophe(s) => &s.1,
            StrLit::Quote(s) => &s.1,
            StrLit::TripleQuote(s) => &s.1,
        }
    }
}

/// `s` without its carriage returns.
pub open spec fn without_carriage_returns(s: Seq<char>) -> Seq<char>
    decreases s.len(),
{
    if s.len() == 0 {
        s
    } else {
        without_carriage_returns(s.drop_last()) + if s.last() == '\r' {
            Seq::empty()
        } else {
            seq![s.last()]
        }
    }
}

/// The body of a triple-quoted literal, without carriage returns: lines
/// end in `\n` alone.
fn patch_triple_quote_string(s: &[char]) -> (res: String)
    ensures
        res@ == without_carriage_returns(s@),
{
    let mut out: Vec<char> = Vec::new();
    let mut i: usize = 0;
    while i < s.len()
        invariant
            i <= s@.len(),
            out@ == without_carriage_returns(s@.take(i as int)),
        decreases s@.len() - i,
    {
        proof {
            assert(s@.take(i + 1).drop_last() =~= s@.take(i as int));
        }
        if s[i] != '\r' {
            out.push(s[i]);
        }
        i = i + 1;
        proof {
            assert(out@ =~= without_carriage_returns(s@.take(i as int)));
        }
    }
    proof {
        assert(s@.take(s@.len() as int) =~= s@);
    }
    string_of(out.as_slice())
}

/// An identifier.
pub struct Ident(pub Spanned<String>);

/// A key resolved to its text, under zero or more `${..}` indirections.
pub enum ResolvedKey {
    KeyValue(String),
    Indirection(Box<ResolvedKey>),
}

/// The mathematical content of a [`ResolvedKey`].
pub enum KeyView {
    KeyValue(Seq<char>),
    Indirection(Box<KeyView>),
}

pub open spec fn key_view(k: ResolvedKey) -> KeyView
    decreases k,
{
    match k {
        ResolvedKey::KeyValue(s) => KeyView::KeyValue(s@),
        ResolvedKey::Indirection(inner) => KeyView::Indirection(Box::new(key_view(*inner))),
    }
}

/// The text at the bottom of a key.
pub open spec fn key_base(k: KeyView) -> Seq<char>
    decreases k,
{
    match k {
        KeyView::KeyValue(s) => s,
        KeyView::Indirection(inner) => key_base(*inner),
    }
}

/// The number of indirections above the text of a key.
pub open spec fn key_depth(k: KeyView) -> nat
    decreases k,
{
    match k {
        KeyView::KeyValue(_) => 0,
        KeyView::Indirection(inner) => key_depth(*inner) + 1,
    }
}

impl ResolvedKey {
    /// The text of the key and the number of indirections above it.
    pub(crate) fn lower(self) -> (res: (String, usize))
        requires
            key_depth(key_view(self)) <= usize::MAX,
        ensures
            res.0@ == key_base(key_view(self)),
            res.1 == key_depth(key_view(self)),
        decreases self,
    {
        match self {
            ResolvedKey::KeyValue(s) => (s, 0),
            ResolvedKey::Indirection(k) => {
                let (r, ind) = (*k).lower();
                (r, ind + 1)
            },
        }
    }
}

/// A key of an object: a name, a string literal, or `${key}`.
pub enum K {
    Name(Ident),
    StrLit(StrLit),
    Ref(DollarBrace, Box<K>, CloseBrace),
}

impl K {
    /// Every string literal in the key can be decoded.
    pub open spec fn key_ok(&self) -> bool
        decreases self,
    {
        match self {
            K::Name(_) => true,
            K::StrLit(s) => s.value_spec() is Some,
            K::Ref(_, k, _) => k.key_ok(),
        }
    }

    /// The key that this syntax stands for.
    pub open spec fn key_spec(&self) -> KeyView
        decreases self,
    {
        match self {
            K::Name(Ident(s)) => KeyView::KeyValue(s.0@),
            K::StrLit(s) => KeyView::KeyValue(s.value_spec().unwrap()),
            K::Ref(_, k, _) => KeyView::Indirection(Box::new(k.key_spec())),
        }
    }

    /// The braces of a `${..}` key can be joined into one span.
    pub open spec fn span_ok(&self) -> bool {
        match self {
            K::Ref(db, _, cb) => joinable(db.0, cb.0),
            _ => true,
        }
    }

    pub open spec fn span_spec(&self) -> Span {
        match self {
            K::Name(Ident(s)) => s.1,
            K::StrLit(s) => s.span_spec(),
            K::Ref(db, _, cb) => join_spec(db.0, cb.0),
        }
    }

    /// The span of the key.
    pub fn span(&self) -> (res: Span)
        requires
            self.span_ok(),
        ensures
            res == self.span_spec(),
    {
        match self {
            K::Name(Ident(s)) => *s.span(),
            K::StrLit(s) => *s.span(),
            K::Ref(db, _k, cb) => db.0.join_with(&cb.0),
        }
    }

    /// The key that this syntax stands for.
    pub fn key(&self) -> (res: ResolvedKey)
        requires
            self.key_ok(),
        ensures
            key_view(res) == self.key_spec(),
        decreases self,
    {
        match self {
            K::Name(Ident(s)) => ResolvedKey::KeyValue(s.0.clone()),
            K::StrLit(s) => ResolvedKey::KeyValue(s.str_val()),
            K::Ref(_, k, _) => ResolvedKey::Indirection(Box::new((**k).key())),
        }
    }
}

/// A boolean literal.
pub struct BoolLit {
    pub value: bool,
    pub span: Span,
}

/// A sequence of `T` separated by `S`, with an optional last `T` that no
/// separator follows.
pub struct Punctuated<T, S> {
    pub values: Vec<(T, S)>,
    pub trailing_value: Option<Box<T>>,
}

impl<T, S> Punctuated<T, S> {
    /// The items, in order, without their separators.
    pub(crate) fn iter(&self) -> (res: Vec<&T>)
        ensures
            res@.len() == self.values@.len() + (if self.trailing_value is Some {
                1int
            } else {
                0int
            }),
            forall|i: int| 0 <= i < self.values@.len() ==> *res@[i] == self.values@[i].0,
            self.trailing_value matches Some(t) ==> *res@[self.values@.len() as int] == *t,
    {
        let mut res: Vec<&T> = Vec::new();
        let mut i: usize = 0;
        while i < self.values.len()
            invariant
                i <= self.values@.len(),
                res@.len() == i,
                forall|k: int| 0 <= k < i ==> *res@[k] == self.values@[k].0,
            decreases self.values@.len() - i,
        {
            res.push(&self.values[i].0);
            i = i + 1;
        }
        match &self.trailing_value {
            Some(t) => {
                res.push(&**t);
            },
            None => {},
        }
        res
    }
}


/// The `compiler` keyword of a declaration whose value a compiler turns
/// into what a reader of the variable gets.
pub struct CompilerKw(pub Span);

impl Keyword for CompilerKw {
    open spec fn token_span(&self) -> Span {
        self.0
    }

    fn kw() -> (res: &'static str)
        ensures
            res@ == "compiler"@,
    {
        "compiler"
    }

    fn new(span: Span) -> (res: Self) {
        CompilerKw(span)
    }
}

/// The keyword that names an import.
pub struct AsKw(pub Span);

/// The token that spreads the items of a variable into an array or the
/// entries of a variable into an object.
pub struct Spread(pub Span);

// ---------------------------------------------------------------------------
// The syntax tree
// ---------------------------------------------------------------------------

/// A number literal: an integer, or a float held as its IEEE-754 bit
/// pattern.
pub enum NumLit {
    Int(Spanned<i64>),
    Float(Spanned<u64>),
}

/// A value of the language.
pub enum AstVal {
    Null(Null),
    Ident(Ident),
    Str(StrLit),
    Num(NumLit),
    Bool(BoolLit),
    Arr(OpenBracket, Vec<AstVal>, CloseBracket),
    Obj(OpenBrace, Vec<AstItem>, CloseBrace),
    FunctionCall(AstFunctionCall),
    Dot(Ident, Dot, K),
    Spread(Spread, Ident),
}

/// A call of a function by name.
pub struct AstFunctionCall {
    pub name: Ident,
    pub open_paren: OpenParen,
    pub args: Punctuated<AstVal, Comma>,
    pub close_paren: CloseParen,
}

/// An entry of the document: a path of keys and the value set there.
pub struct KV {
    pub key: Vec<K>,
    pub colon: Option<Colon>,
    pub value: AstVal,
}

/// A variable declaration: `let [cx] name [compiler c]: value`.
pub struct AstDecl {
    pub let_kw: LetKw,
    pub cx_kw: Option<CxKw>,
    pub name: Ident,
    pub compiler: Option<(CompilerKw, Ident)>,
    pub colon: Colon,
    pub value: AstVal,
}

/// An item of a file or an object body.
pub enum AstItem {
    DocPatch(KV),
    Decl(AstDecl),
    DocPatchSpread(Spread, Ident),
}

/// An import of another file, with the file it was resolved to once the
/// files are loaded.
pub struct AstImport {
    pub import_kw: Import,
    pub path: AstVal,
    pub as_name: Option<(AsKw, Ident)>,
    pub semicolon: Semicolon,
    pub resolved_file_id: Option<FileId>,
}

/// A parsed file: its imports, then its items.
pub struct AstFile {
    pub imports: Vec<AstImport>,
    pub items: Vec<AstItem>,
}

impl AstImport {
    /// An import not resolved yet.
    pub fn new(import_kw: Import, path: AstVal, as_name: Option<(AsKw, Ident)>, semicolon: Semicolon) -> (res: Self)
        ensures
            res.import_kw == import_kw,
            res.path == path,
            res.as_name == as_name,
            res.semicolon == semicolon,
            res.resolved_file_id is None,
    {
        AstImport { import_kw, path, as_name, semicolon, resolved_file_id: None }
    }

    /// Records the file that the import stands for.
    pub fn resolve_to(&mut self, file_id: FileId)
        ensures
            final(self).resolved_file_id == Some(file_id),
            final(self).import_kw == old(self).import_kw,
            final(self).path == old(self).path,
            final(self).as_name == old(self).as_name,
            final(self).semicolon == old(self).semicolon,
    {
        self.resolved_file_id = Some(file_id);
    }

    /// The file that the import was resolved to, if it was.
    pub fn resolved(&self) -> (res: Option<FileId>)
        ensures
            res == self.resolved_file_id,
    {
        self.resolved_file_id
    }
}

/// The items of `p`, in order, without their separators.
pub open spec fn punctuated_items<T, S>(p: Punctuated<T, S>) -> Seq<T> {
    p.values@.map_values(|x: (T, S)| x.0) + match p.trailing_value {
        Some(t) => seq![*t],
        None => Seq::empty(),
    }
}

impl AstFunctionCall {
    pub open spec fn span_ok(&self) -> bool {
        joinable(self.name.0.1, self.close_paren.0)
    }

    pub open spec fn span_spec(&self) -> Span {
        join_spec(self.name.0.1, self.close_paren.0)
    }

    /// The span from the name to the closing parenthesis.
    pub fn span(&self) -> (res: Span)
        requires
            self.span_ok(),
        ensures
            res == self.span_spec(),
    {
        self.name.0.1.join_with(&self.close_paren.0)
    }
}

impl AstVal {
    /// The spans that make up the value's span can be joined.
    pub open spec fn span_ok(&self) -> bool {
        match self {
            AstVal::Arr(start, _, end) => joinable(start.0, end.0),
            AstVal::Obj(start, _, end) => joinable(start.0, end.0),
            AstVal::FunctionCall(call) => call.span_ok(),
            AstVal::Dot(base, _, k) => k.span_ok() && joinable(base.0.1, k.span_spec()),
            AstVal::Spread(spread, name) => joinable(spread.0, name.0.1),
            _ => true,
        }
    }

    pub open spec fn span_spec(&self) -> Span {
        match self {
            AstVal::Null(it) => it.0,
            AstVal::Ident(it) => it.0.1,
            AstVal::Str(it) => it.span_spec(),
            AstVal::Num(NumLit::Int(it)) => it.1,
            AstVal::Num(NumLit::Float(it)) => it.1,
            AstVal::Bool(it) => it.span,
            AstVal::Arr(start, _, end) => join_spec(start.0, end.0),
            AstVal::Obj(start, _, end) => join_spec(start.0, end.0),
            AstVal::FunctionCall(call) => call.span_spec(),
            AstVal::Dot(base, _, k) => join_spec(base.0.1, k.span_spec()),
            AstVal::Spread(spread, name) => join_spec(spread.0, name.0.1),
        }
    }

    /// The span of the value.
    pub fn span(&self) -> (res: Span)
        requires
            self.span_ok(),
        ensures
            res == self.span_spec(),
    {
        match self {
            AstVal::Null(it) => it.0,
            AstVal::Ident(it) => it.0.1,
            AstVal::Str(it) => *it.span(),
            AstVal::Num(NumLit::Int(it)) => it.1,
            AstVal::Num(NumLit::Float(it)) => it.1,
            AstVal::Bool(it) => it.span,
            AstVal::Arr(start, _, end) => start.0.join_with(&end.0),
            AstVal::Obj(start, _, end) => start.0.join_with(&end.0),
            AstVal::FunctionCall(call) => call.span(),
            AstVal::Dot(base, _, k) => base.0.1.join_with(&k.span()),
            AstVal::Spread(spread, name) => spread.0.join_with(&name.0.1),
        }
    }
}

// ---------------------------------------------------------------------------
// Punctuation and keywords
// ---------------------------------------------------------------------------

/// A punctuation token, built from its span.
pub trait Punctuation: Sized {
    /// The span the token covers.
    spec fn token_span(&self) -> Span;

    /// The text of the token.
    fn punct() -> &'static str;

    /// The token at `span`.
    fn new(span: Span) -> (res: Self)
        ensures
            res.token_span() == span,
    ;
}

/// A keyword token, built from its span.
pub trait Keyword: Sized {
    /// The span the keyword covers.
    spec fn token_span(&self) -> Span;

    /// The text of the keyword.
    fn kw() -> &'static str;

    /// The keyword at `span`.
    fn new(span: Span) -> (res: Self)
        ensures
            res.token_span() == span,
    ;
}

/// The `,` token.
pub struct Comma(pub Span);

impl Punctuation for Comma {
    open spec fn token_span(&self) -> Span {
        self.0
    }

    fn punct() -> (res: &'static str)
        ensures
            res@ == ","@,
    {
        ","
    }

    fn new(span: Span) -> (res: Self) {
        Comma(span)
    }
}

/// The `\n` token.
pub struct Newline(pub Span);

impl Punctuation for Newline {
    open spec fn token_span(&self) -> Span {
        self.0
    }

    fn punct() -> (res: &'static str)
        ensures
            res@ == "\n"@,
    {
        "\n"
    }

    fn new(span: Span) -> (res: Self) {
        Newline(span)
    }
}

/// The `(` token.
pub struct OpenParen(pub Span);

impl Punctuation for OpenParen {
    open spec fn token_span(&self) -> Span {
        self.0
    }

    fn punct() -> (res: &'static str)
        ensures
            res@ == "("@,
    {
        "("
    }

    fn new(span: Span) -> (res: Self) {
        OpenParen(span)
    }
}

/// The `)` token.
pub struct CloseParen(pub Span);

impl Punctuation for CloseParen {
    open spec fn token_span(&self) -> Span {
        self.0
    }

    fn punct() -> (res: &'static str)
        ensures
            res@ == ")"@,
    {
        ")"
    }

    fn new(span: Span) -> (res: Self) {
        CloseParen(span)
    }
}

/// The `[` token.
pub struct OpenBracket(pub Span);

impl Punctuation for OpenBracket {
    open spec fn token_span(&self) -> Span {
        self.0
    }

    fn punct() -> (res: &'static str)
        ensures
            res@ == "["@,
    {
        "["
    }

    fn new(span: Span) -> (res: Self) {
        OpenBracket(span)
    }
}

/// The `]` token.
pub struct CloseBracket(pub Span);

impl Punctuation for CloseBracket {
    open spec fn token_span(&self) -> Span {
        self.0
    }

    fn punct() -> (res: &'static str)
        ensures
            res@ == "]"@,
    {
        "]"
    }

    fn new(span: Span) -> (res: Self) {
        CloseBracket(span)
    }
}

/// The `{` token.
pub struct OpenBrace(pub Span);

impl Punctuation for OpenBrace {
    open spec fn token_span(&self) -> Span {
        self.0
    }

    fn punct() -> (res: &'static str)
        ensures
            res@ == "{"@,
    {
        "{"
    }

    fn new(span: Span) -> (res: Self) {
        OpenBrace(span)
    }
}

/// The `}` token.
pub struct CloseBrace(pub Span);

impl Punctuation for CloseBrace {
    open spec fn token_span(&self) -> Span {
        self.0
    }

    fn punct() -> (res: &'static str)
        ensures
            res@ == "}"@,
    {
        "}"
    }

    fn new(span: Span) -> (res: Self) {
        CloseBrace(span)
    }
}

/// The `${` token.
pub struct DollarBrace(pub Span);

impl Punctuation for DollarBrace {
    open spec fn token_span(&self) -> Span {
        self.0
    }

    fn punct() -> (res: &'static str)
        ensures
            res@ == "${"@,
    {
        "${"
    }

    fn new(span: Span) -> (res: Self) {
        DollarBrace(span)
    }
}

/// The `;` token.
pub struct Semicolon(pub Span);

impl Punctuation for Semicolon {
    open spec fn token_span(&self) -> Span {
        self.0
    }

    fn punct() -> (res: &'static str)
        ensures
            res@ == ";"@,
    {
        ";"
    }

    fn new(span: Span) -> (res: Self) {
        Semicolon(span)
    }
}

/// The `:` token.
pub struct Colon(pub Span);

impl Punctuation for Colon {
    open spec fn token_span(&self) -> Span {
        self.0
    }

    fn punct() -> (res: &'static str)
        ensures
            res@ == ":"@,
    {
        ":"
    }

    fn new(span: Span) -> (res: Self) {
        Colon(span)
    }
}

/// The `.` token.
pub struct Dot(pub Span);

impl Punctuation for Dot {
    open spec fn token_span(&self) -> Span {
        self.0
    }

    fn punct() -> (res: &'static str)
        ensures
            res@ == "."@,
    {
        "."
    }

    fn new(span: Span) -> (res: Self) {
        Dot(span)
    }
}

/// The `import` keyword.
pub struct Import(pub Span);

impl Keyword for Import {
    open spec fn token_span(&self) -> Span {
        self.0
    }

    fn kw() -> (res: &'static str)
        ensures
            res@ == "import"@,
    {
        "import"
    }

    fn new(span: Span) -> (res: Self) {
        Import(span)
    }
}

/// The `let` keyword.
pub struct LetKw(pub Span);

impl Keyword for LetKw {
    open spec fn token_span(&self) -> Span {
        self.0
    }

    fn kw() -> (res: &'static str)
        ensures
            res@ == "let"@,
    {
        "let"
    }

    fn new(span: Span) -> (res: Self) {
        LetKw(span)
    }
}

/// The `cx` keyword.
pub struct CxKw(pub Span);

impl Keyword for CxKw {
    open spec fn token_span(&self) -> Span {
        self.0
    }

    fn kw() -> (res: &'static str)
        ensures
            res@ == "cx"@,
    {
        "cx"
    }

    fn new(span: Span) -> (res: Self) {
        CxKw(span)
    }
}

/// The `null` keyword.
pub struct Null(pub Span);

impl Keyword for Null {
    open spec fn token_span(&self) -> Span {
        self.0
    }

    fn kw() -> (res: &'static str)
        ensures
            res@ == "null"@,
    {
        "null"
    }

    fn new(span: Span) -> (res: Self) {
        Null(span)
    }
}

} // verus!
