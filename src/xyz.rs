use vstd::prelude::*;

verus! {

/// A half-open range `start..end` of character positions in a line of text.
#[derive(Debug, Clone, Copy, PartialEq, Eq, Structural)]
pub struct Span {
    pub start: usize,
    pub end: usize,
}

/// Why a line of a coordinate file cannot be read.
#[derive(Debug, Clone, Copy, PartialEq, Eq, Structural)]
pub enum XyzError {
    /// The first line is not an unsigned decimal atom count.
    BadCount,
    /// An atom line holds fewer than four fields (a symbol and three coordinates).
    BadAtomLine,
    /// The number of atom lines differs from the count announced.
    AtomCountMismatch,
}

/// The Unicode White_Space code points: tab to carriage return, space, next
/// line, no-break space, ogham space mark, the spaces from en quad to hair
/// space, line and paragraph separators, narrow no-break space, medium
/// mathematical space and ideographic space.
pub open spec fn is_space(c: char) -> bool {
    let v = c as u32;
    (0x09 <= v <= 0x0d) || v == 0x20 || v == 0x85 || v == 0xa0 || v == 0x1680 || (0x2000 <= v
        <= 0x200a) || v == 0x2028 || v == 0x2029 || v == 0x202f || v == 0x205f || v == 0x3000
}

/// `s..e` is a maximal run of non-whitespace characters of `line`.
pub open spec fn is_token(line: Seq<char>, s: int, e: int) -> bool {
    &&& 0 <= s < e <= line.len()
    &&& forall|p: int| s <= p < e ==> !is_space(#[trigger] line[p])
    &&& (s == 0 || is_space(line[s - 1]))
    &&& (e == line.len() || is_space(line[e]))
}

/// Some span of `spans` holds position `p`.
pub open spec fn covered(spans: Seq<Span>, p: int) -> bool {
    exists|k: int| 0 <= k < spans.len() && #[trigger] spans[k].start <= p < spans[k].end
}

/// `spans` are exactly the whitespace-separated fields of `line`, in order.
pub open spec fn fields_of(line: Seq<char>, spans: Seq<Span>) -> bool {
    &&& forall|k: int| 0 <= k < spans.len() ==> is_token(line, #[trigger] spans[k].start as int, spans[k].end as int)
    &&& forall|k: int, l: int| 0 <= k < l < spans.len() ==> #[trigger] spans[k].end < #[trigger] spans[l].start
    &&& forall|p: int| 0 <= p < line.len() && !is_space(#[trigger] line[p]) ==> covered(spans, p)
}

/// Tests a character for Unicode whitespace.
pub fn space_char(c: char) -> (r: bool)
    ensures
        r == is_space(c),
{
    let v = c as u32;
    (0x09 <= v && v <= 0x0d) || v == 0x20 || v == 0x85 || v == 0xa0 || v == 0x1680 || (0x2000
        <= v && v <= 0x200a) || v == 0x2028 || v == 0x2029 || v == 0x202f || v == 0x205f || v
        == 0x3000
}

/// The first position at or after `i` that holds no whitespace, or the end of the line.
fn skip_spaces(line: &[char], i: usize) -> (j: usize)
    requires
        i <= line@.len(),
    ensures
        i <= j <= line@.len(),
        forall|p: int| i <= p < j ==> is_space(#[trigger] line@[p]),
        j == line@.len() || !is_space(line@[j as int]),
{
    let mut j = i;
    while j < line.len() && space_char(line[j])
        invariant
            i <= j <= line@.len(),
            forall|p: int| i <= p < j ==> is_space(#[trigger] line@[p]),
        decreases line@.len() - j,
    {
        j = j + 1;
    }
    j
}

/// The end of the field that starts at `s`: the first whitespace after it, or the end of the line.
fn field_end(line: &[char], s: usize) -> (e: usize)
    requires
        s < line@.len(),
        !is_space(line@[s as int]),
    ensures
        s < e <= line@.len(),
        forall|p: int| s <= p < e ==> !is_space(#[trigger] line@[p]),
        e == line@.len() || is_space(line@[e as int]),
{
    let mut e = s;
    while e < line.len() && !space_char(line[e])
        invariant
            s <= e <= line@.len(),
            !is_space(line@[s as int]),
            forall|p: int| s <= p < e ==> !is_space(#[trigger] line@[p]),
        decreases line@.len() - e,
    {
        e = e + 1;
    }
    e
}

/// What the scanning loop of `split_fields` knows about the fields found before position `i`.
pub open spec fn scanned(line: Seq<char>, out: Seq<Span>, i: int) -> bool {
    &&& 0 <= i <= line.len()
    &&& forall|k: int| 0 <= k < out.len() ==> is_token(line, #[trigger] out[k].start as int, out[k].end as int)
    &&& forall|k: int, l: int| 0 <= k < l < out.len() ==> #[trigger] out[k].end < #[trigger] out[l].start
    &&& forall|p: int| 0 <= p < i && !is_space(#[trigger] line[p]) ==> covered(out, p)
    &&& (out.len() > 0 ==> out[out.len() - 1].end <= i)
    &&& (out.len() == 0 ==> forall|p: int| 0 <= p < i ==> is_space(#[trigger] line[p]))
}

/// One round of the scan: whitespace over `i0..s`, then a field over `s..e`
/// (empty when `s == e`, at the end of the line).
proof fn lemma_scan_step(line: Seq<char>, out: Seq<Span>, i0: int, s: int, e: int)
    requires
        scanned(line, out, i0),
        i0 <= s <= e <= line.len(),
        forall|p: int| i0 <= p < s ==> is_space(#[trigger] line[p]),
        forall|p: int| s <= p < e ==> !is_space(#[trigger] line[p]),
        s == line.len() || !is_space(line[s]),
        e == line.len() || is_space(line[e]),
        s == e ==> s == line.len(),
        e <= usize::MAX,
    ensures
        s < e ==> scanned(line, out.push(Span { start: s as usize, end: e as usize }), e),
        s == e ==> scanned(line, out, e),
{
    if s < e {
        assert(s == 0 || is_space(line[s - 1])) by {
            if s > i0 {
                assert(is_space(line[s - 1]));
            } else if s > 0 && out.len() > 0 {
                let last = out[out.len() - 1];
                assert(is_token(line, last.start as int, last.end as int));
            }
        }
        let sp = Span { start: s as usize, end: e as usize };
        let nout = out.push(sp);
        assert forall|p: int| 0 <= p < e && !is_space(#[trigger] line[p]) implies covered(nout, p) by {
            if p >= s {
                assert(nout[nout.len() - 1].start <= p < nout[nout.len() - 1].end);
            } else if p >= i0 {
                assert(is_space(line[p]));
            } else {
                let k = choose|k: int| 0 <= k < out.len() && #[trigger] out[k].start <= p < out[k].end;
                assert(nout[k] == out[k]);
            }
        }
        assert forall|k: int, l: int| 0 <= k < l < nout.len() implies #[trigger] nout[k].end < #[trigger] nout[l].start by {
            if l == nout.len() - 1 {
                let last = out[out.len() - 1];
                assert(is_token(line, last.start as int, last.end as int));
                assert(nout[k] == out[k]);
                if k < out.len() - 1 {
                    assert(out[k].end < out[out.len() - 1].start);
                }
            } else {
                assert(nout[k] == out[k] && nout[l] == out[l]);
            }
        }
        assert forall|k: int| 0 <= k < nout.len() implies is_token(line, #[trigger] nout[k].start as int, nout[k].end as int) by {
            if k < out.len() {
                assert(nout[k] == out[k]);
            }
        }
    } else {
        assert forall|p: int| 0 <= p < e && !is_space(#[trigger] line[p]) implies covered(out, p) by {
            if p >= i0 {
                assert(is_space(line[p]));
            }
        }
    }
}

/// Splits a line into its whitespace-separated fields.
pub fn split_fields(line: &[char]) -> (r: Vec<Span>)
    ensures
        fields_of(line@, r@),
{
    let n = line.len();
    let mut out: Vec<Span> = Vec::new();
    let mut i: usize = 0;
    while i < n
        invariant
            n == line@.len(),
            scanned(line@, out@, i as int),
        decreases n - i,
    {
        let i0 = i;
        i = skip_spaces(line, i);
        if i < n {
            let s = i;
            i = field_end(line, s);
            proof {
                lemma_scan_step(line@, out@, i0 as int, s as int, i as int);
            }
            out.push(Span { start: s, end: i });
        } else {
            proof {
                lemma_scan_step(line@, out@, i0 as int, i as int, i as int);
            }
        }
    }
    out
}

/// `s..e` is what is left of `line` once leading and trailing whitespace is
/// taken off; a line of whitespace alone leaves the empty range at its end.
pub open spec fn is_trim(line: Seq<char>, s: int, e: int) -> bool {
    &&& 0 <= s <= e <= line.len()
    &&& forall|p: int| 0 <= p < s ==> is_space(#[trigger] line[p])
    &&& forall|p: int| e <= p < line.len() ==> is_space(#[trigger] line[p])
    &&& (s < e ==> !is_space(line[s]) && !is_space(line[e - 1]))
    &&& (s == e ==> s == line.len())
}

/// Finds the part of a line between its leading and trailing whitespace.
pub fn trim_span(line: &[char]) -> (r: Span)
    ensures
        is_trim(line@, r.start as int, r.end as int),
{
    let n = line.len();
    let s = skip_spaces(line, 0);
    let mut e = n;
    while e > s && space_char(line[e - 1])
        invariant
            s <= e <= n,
            n == line@.len(),
            forall|p: int| e <= p < n ==> is_space(#[trigger] line@[p]),
        decreases e,
    {
        e = e - 1;
    }
    Span { start: s, end: e }
}

/// An ASCII decimal digit.
pub open spec fn is_digit(c: char) -> bool {
    0x30 <= (c as u32) <= 0x39
}

/// The number that a sequence of decimal digits writes, most significant first.
pub open spec fn digits_value(d: Seq<char>) -> nat
    decreases d.len(),
{
    if d.len() == 0 {
        0
    } else {
        digits_value(d.drop_last()) * 10 + (d.last() as u32 - 0x30) as nat
    }
}

/// The digits of a number written with an optional leading `+`.
pub open spec fn unsigned_digits(t: Seq<char>) -> Seq<char> {
    if t.len() > 0 && t[0] == '+' {
        t.drop_first()
    } else {
        t
    }
}

/// The `usize` that `t` writes: an optional `+`, then one or more decimal
/// digits, with a value that fits; `None` for any other text.
pub open spec fn decimal_of(t: Seq<char>) -> Option<nat> {
    let d = unsigned_digits(t);
    if d.len() > 0 && (forall|i: int| 0 <= i < d.len() ==> is_digit(#[trigger] d[i])) && digits_value(d)
        <= usize::MAX {
        Some(digits_value(d))
    } else {
        None
    }
}

/// Prepending digits never makes a number smaller: each prefix of a digit
/// sequence writes at most what the whole does.
proof fn lemma_prefix_value_le(d: Seq<char>, k: int)
    requires
        0 <= k <= d.len(),
        forall|i: int| 0 <= i < d.len() ==> is_digit(#[trigger] d[i]),
    ensures
        digits_value(d.take(k)) <= digits_value(d),
    decreases d.len() - k,
{
    if k < d.len() {
        lemma_prefix_value_le(d, k + 1);
        assert(d.take(k + 1).drop_last() =~= d.take(k));
    } else {
        assert(d.take(k) =~= d);
    }
}

/// Reads the atom count from the first line of a coordinate file: surrounding
/// whitespace is ignored, the rest must be an unsigned decimal that fits a `usize`.
pub fn parse_count(line: &[char]) -> (r: Result<usize, XyzError>)
    ensures
        forall|s: int, e: int| #[trigger] is_trim(line@, s, e) ==> {
            let v = decimal_of(line@.subrange(s, e));
            &&& (r is Ok <==> v is Some)
            &&& (r is Ok ==> r->Ok_0 == v->0)
            &&& (r is Err ==> r->Err_0 == XyzError::BadCount)
        },
{
    let t = trim_span(line);
    let ghost tv = line@.subrange(t.start as int, t.end as int);
    let mut i = t.start;
    if i < t.end && line[i] == '+' {
        i = i + 1;
    }
    let ds = i;
    let ghost d = line@.subrange(ds as int, t.end as int);
    assert(d =~= unsigned_digits(tv));
    if ds == t.end {
        proof { lemma_trim_unique(line@, t.start as int, t.end as int); }
        return Err(XyzError::BadCount);
    }
    let mut acc: usize = 0;
    while i < t.end
        invariant
            ds <= i <= t.end <= line@.len(),
            d == line@.subrange(ds as int, t.end as int),
            is_trim(line@, t.start as int, t.end as int),
            tv == line@.subrange(t.start as int, t.end as int),
            d == unsigned_digits(tv),
            d.len() > 0,
            forall|p: int| ds <= p < i ==> is_digit(#[trigger] line@[p]),
            acc == digits_value(d.take(i - ds)),
        decreases t.end - i,
    {
        let b = line[i] as u32;
        if !(0x30 <= b && b <= 0x39) {
            assert(!is_digit(d[i - ds]));
            proof { lemma_trim_unique(line@, t.start as int, t.end as int); }
            return Err(XyzError::BadCount);
        }
        assert(d.take(i - ds + 1).drop_last() =~= d.take(i - ds));
        let next = acc.checked_mul(10);
        match next {
            Some(m) => match m.checked_add((b - 0x30) as usize) {
                Some(v) => {
                    acc = v;
                },
                None => {
                    proof {
                        if forall|q: int| 0 <= q < d.len() ==> is_digit(#[trigger] d[q]) {
                            lemma_prefix_value_le(d, i - ds + 1);
                        }
                        lemma_trim_unique(line@, t.start as int, t.end as int);
                    }
                    return Err(XyzError::BadCount);
                },
            },
            None => {
                proof {
                    if forall|q: int| 0 <= q < d.len() ==> is_digit(#[trigger] d[q]) {
                        lemma_prefix_value_le(d, i - ds + 1);
                    }
                    lemma_trim_unique(line@, t.start as int, t.end as int);
                }
                return Err(XyzError::BadCount);
            },
        }
        i = i + 1;
    }
    assert(d.take(d.len() as int) =~= d);
    proof { lemma_trim_unique(line@, t.start as int, t.end as int); }
    Ok(acc)
}

/// A line has one trimmed range only.
proof fn lemma_trim_unique(line: Seq<char>, s: int, e: int)
    requires
        is_trim(line, s, e),
    ensures
        forall|s2: int, e2: int| #[trigger] is_trim(line, s2, e2) ==> s2 == s && e2 == e,
{
    assert forall|s2: int, e2: int| #[trigger] is_trim(line, s2, e2) implies s2 == s && e2 == e by {
        if s2 < s {
            assert(is_space(line[s2]));
        }
        if s < s2 {
            assert(is_space(line[s]));
        }
        if e2 < e {
            assert(is_space(line[e - 1]));
        }
        if e < e2 {
            assert(is_space(line[e2 - 1]));
        }
    }
}

/// The fields of an atom line: its element symbol, then three coordinates.
#[derive(Debug, Clone, Copy, PartialEq, Eq, Structural)]
pub struct AtomFields {
    pub symbol: Span,
    pub x: Span,
    pub y: Span,
    pub z: Span,
}

/// Every character of `line` in `lo..hi` is whitespace.
pub open spec fn blank_between(line: Seq<char>, lo: int, hi: int) -> bool {
    forall|p: int| lo <= p < hi ==> is_space(#[trigger] line[p])
}

/// `t` is a field of `line`, and only whitespace stands between `lo` and it.
pub open spec fn next_field(line: Seq<char>, lo: int, t: Span) -> bool {
    &&& lo <= t.start
    &&& is_token(line, t.start as int, t.end as int)
    &&& blank_between(line, lo, t.start as int)
}

/// `f` holds the first four fields of `line`, in order.
pub open spec fn leading_fields(line: Seq<char>, f: AtomFields) -> bool {
    &&& next_field(line, 0, f.symbol)
    &&& next_field(line, f.symbol.end as int, f.x)
    &&& next_field(line, f.x.end as int, f.y)
    &&& next_field(line, f.y.end as int, f.z)
}

/// Two fields that share a position are the same field.
proof fn lemma_fields_overlap(line: Seq<char>, a: Span, b: Span, p: int)
    requires
        is_token(line, a.start as int, a.end as int),
        is_token(line, b.start as int, b.end as int),
        a.start <= p < a.end,
        b.start <= p < b.end,
    ensures
        a == b,
{
    if a.start < b.start {
        assert(!is_space(line[b.start - 1]));
    }
    if b.start < a.start {
        assert(!is_space(line[a.start - 1]));
    }
    if a.end < b.end {
        assert(!is_space(line[a.end as int]));
    }
    if b.end < a.end {
        assert(!is_space(line[b.end as int]));
    }
}

/// The field that follows the first `k` fields of a split line, past whitespace
/// alone, is its field number `k`.
proof fn lemma_next_field_is_kth(line: Seq<char>, spans: Seq<Span>, k: int, lo: int, t: Span)
    requires
        fields_of(line, spans),
        0 <= k <= spans.len(),
        k == 0 ==> lo == 0,
        k > 0 ==> spans[k - 1].end == lo,
        next_field(line, lo, t),
    ensures
        k < spans.len(),
        spans[k] == t,
{
    assert(!is_space(line[t.start as int]));
    let j = choose|j: int| 0 <= j < spans.len() && #[trigger] spans[j].start <= t.start < spans[j].end;
    lemma_fields_overlap(line, spans[j], t, t.start as int);
    assert(is_token(line, spans[j].start as int, spans[j].end as int));
    if j < k {
        if j < k - 1 {
            assert(spans[j].end < spans[k - 1].start);
            assert(is_token(line, spans[k - 1].start as int, spans[k - 1].end as int));
        }
    }
    if j > k {
        assert(spans[k].end < spans[j].start);
        assert(is_token(line, spans[k].start as int, spans[k].end as int));
        if k > 0 {
            assert(spans[k - 1].end < spans[k].start);
        }
        assert(!is_space(line[spans[k].start as int]));
    }
}

/// Between consecutive fields of a split line, and before the first, there is
/// whitespace alone.
proof fn lemma_gap_blank(line: Seq<char>, spans: Seq<Span>, k: int)
    requires
        fields_of(line, spans),
        0 <= k < spans.len(),
    ensures
        k == 0 ==> blank_between(line, 0, spans[0].start as int),
        k > 0 ==> blank_between(line, spans[k - 1].end as int, spans[k].start as int),
{
    let lo = if k == 0 { 0 } else { spans[k - 1].end as int };
    assert forall|p: int| lo <= p < spans[k].start implies is_space(#[trigger] line[p]) by {
        assert(is_token(line, spans[k].start as int, spans[k].end as int));
        if !is_space(line[p]) {
            let j = choose|j: int| 0 <= j < spans.len() && #[trigger] spans[j].start <= p < spans[j].end;
            if j < k {
                if j < k - 1 {
                    assert(spans[j].end < spans[k - 1].start);
                    assert(is_token(line, spans[k - 1].start as int, spans[k - 1].end as int));
                }
            } else if j > k {
                assert(spans[k].end < spans[j].start);
                assert(is_token(line, spans[k].start as int, spans[k].end as int));
            }
        }
    }
}

/// Reads the fields of an atom line: the symbol and the three coordinates are
/// its first four whitespace-separated fields; any further fields are ignored.
pub fn atom_fields(line: &[char]) -> (r: Result<AtomFields, XyzError>)
    ensures
        r is Ok ==> leading_fields(line@, r->Ok_0),
        r is Err ==> r->Err_0 == XyzError::BadAtomLine && !exists|f: AtomFields| leading_fields(line@, f),
{
    let spans = split_fields(line);
    if spans.len() >= 4 {
        proof {
            lemma_gap_blank(line@, spans@, 0);
            lemma_gap_blank(line@, spans@, 1);
            lemma_gap_blank(line@, spans@, 2);
            lemma_gap_blank(line@, spans@, 3);
            assert(is_token(line@, spans@[0].start as int, spans@[0].end as int));
            assert(is_token(line@, spans@[1].start as int, spans@[1].end as int));
            assert(is_token(line@, spans@[2].start as int, spans@[2].end as int));
            assert(is_token(line@, spans@[3].start as int, spans@[3].end as int));
            assert(spans@[0].end < spans@[1].start);
            assert(spans@[1].end < spans@[2].start);
            assert(spans@[2].end < spans@[3].start);
        }
        Ok(AtomFields { symbol: spans[0], x: spans[1], y: spans[2], z: spans[3] })
    } else {
        proof {
            assert forall|f: AtomFields| !leading_fields(line@, f) by {
                if leading_fields(line@, f) {
                    lemma_next_field_is_kth(line@, spans@, 0, 0, f.symbol);
                    lemma_next_field_is_kth(line@, spans@, 1, f.symbol.end as int, f.x);
                    lemma_next_field_is_kth(line@, spans@, 2, f.x.end as int, f.y);
                    lemma_next_field_is_kth(line@, spans@, 3, f.y.end as int, f.z);
                }
            }
        }
        Err(XyzError::BadAtomLine)
    }
}

/// A coordinate file must hold exactly as many atom lines as its first line announces.
pub fn check_atom_total(count: usize, atom_lines: usize) -> (r: Result<(), XyzError>)
    ensures
        r is Ok <==> count == atom_lines,
        r is Err ==> r->Err_0 == XyzError::AtomCountMismatch,
{
    if count == atom_lines {
        Ok(())
    } else {
        Err(XyzError::AtomCountMismatch)
    }
}

} // verus!
