//! Planning the answer to a streaming request from its `Range` header.

use vstd::prelude::*;
use crate::text::{
    all_ascii, all_digits, ascii_chars, ascii_string, decimal, has_prefix, header_is_text,
    is_header_text, lemma_decimal_digits, lemma_parse_decimal, parse_u64, push_decimal,
    spec_parse_u64, visible_ascii,
};

verus! {

/// How a track is streamed back, given the request's `Range` header.
pub enum RangePlan {
    /// 200: the whole file.
    Whole,
    /// 206: `length` bytes from byte `start`, announced by `content_range`.
    Partial { start: u64, length: u64, content_range: String },
    /// 416: nothing of the file can be sent; `content_range` names its size.
    NotSatisfiable { content_range: String },
    /// 400: the header holds bytes that are not visible ASCII.
    InvalidHeader,
}

/// The meaning of a [`RangePlan`], with its strings as character sequences.
pub enum RangePlanView {
    Whole,
    Partial { start: u64, length: u64, content_range: Seq<char> },
    NotSatisfiable { content_range: Seq<char> },
    InvalidHeader,
}

impl View for RangePlan {
    type V = RangePlanView;

    open spec fn view(&self) -> RangePlanView {
        match self {
            RangePlan::Whole => RangePlanView::Whole,
            RangePlan::Partial { start, length, content_range } => RangePlanView::Partial {
                start: *start,
                length: *length,
                content_range: content_range@,
            },
            RangePlan::NotSatisfiable { content_range } => RangePlanView::NotSatisfiable {
                content_range: content_range@,
            },
            RangePlan::InvalidHeader => RangePlanView::InvalidHeader,
        }
    }
}

/// `bytes=`
pub open spec fn units_prefix() -> Seq<u8> {
    seq![98u8, 121u8, 116u8, 101u8, 115u8, 61u8]
}

/// `k` is the position of the one and only `-` in `s`.
pub open spec fn lone_dash_at(s: Seq<u8>, k: int) -> bool {
    &&& 0 <= k < s.len()
    &&& s[k] == 45
    &&& forall|j: int| 0 <= j < s.len() && j != k ==> #[trigger] s[j] != 45
}

/// The two pieces of a `bytes=a-b` header: the text after `bytes=` split on `-`,
/// when that split gives exactly two pieces.
pub open spec fn range_pieces(v: Seq<u8>) -> Option<(Seq<u8>, Seq<u8>)> {
    if has_prefix(v, units_prefix()) {
        let rest = v.subrange(6, v.len() as int);
        if exists|k: int| lone_dash_at(rest, k) {
            let k = choose|k: int| lone_dash_at(rest, k);
            Some((rest.subrange(0, k), rest.subrange(k + 1, rest.len() as int)))
        } else {
            None
        }
    } else {
        None
    }
}

/// The first byte asked for: the first piece read as a number, else 0.
pub open spec fn range_start(first: Seq<u8>) -> u64 {
    match spec_parse_u64(first) {
        Some(n) => n,
        None => 0,
    }
}

/// The last byte asked for: the second piece read as a number, else the file's last byte.
pub open spec fn range_end(second: Seq<u8>, size: u64) -> int {
    match spec_parse_u64(second) {
        Some(n) => n as int,
        None => size - 1,
    }
}

/// `bytes */<size>`
pub open spec fn unsatisfied_range(size: u64) -> Seq<u8> {
    seq![98u8, 121u8, 116u8, 101u8, 115u8, 32u8, 42u8, 47u8] + decimal(size as nat)
}

/// `bytes <first>-<last>/<size>`
pub open spec fn content_range(first: u64, last: u64, size: u64) -> Seq<u8> {
    seq![98u8, 121u8, 116u8, 101u8, 115u8, 32u8] + decimal(first as nat) + seq![45u8]
        + decimal(last as nat) + seq![47u8] + decimal(size as nat)
}

/// The inputs on which the streaming handler stops on an arithmetic overflow:
/// an empty file (its last byte, `size - 1`, is computed whenever the header
/// splits into two pieces), or a request for bytes `0` to `u64::MAX`.
pub open spec fn range_overflows(header: Option<Seq<u8>>, size: u64) -> bool {
    match header {
        None => false,
        Some(v) => header_is_text(v) && match range_pieces(v) {
            None => false,
            Some((a, b)) => size == 0 || (range_start(a) < size && range_start(a) == 0
                && range_end(b, size) == u64::MAX),
        },
    }
}

/// What the streaming handler answers for a file of `size` bytes.
pub open spec fn spec_plan_range(header: Option<Seq<u8>>, size: u64) -> RangePlanView {
    match header {
        None => RangePlanView::Whole,
        Some(v) => if !header_is_text(v) {
            RangePlanView::InvalidHeader
        } else {
            match range_pieces(v) {
                None => RangePlanView::Whole,
                Some((a, b)) => {
                    let start = range_start(a);
                    let end = range_end(b, size);
                    if start >= size || start > end {
                        RangePlanView::NotSatisfiable {
                            content_range: ascii_chars(unsatisfied_range(size)),
                        }
                    } else {
                        let length = if end - start + 1 <= size - start {
                            end - start + 1
                        } else {
                            size - start
                        };
                        RangePlanView::Partial {
                            start,
                            length: length as u64,
                            content_range: ascii_chars(
                                content_range(start, (start + length - 1) as u64, size),
                            ),
                        }
                    }
                },
            }
        },
    }
}

/// Whether `v` starts with `bytes=`.
fn starts_with_units(v: &[u8]) -> (res: bool)
    ensures
        res == has_prefix(v@, units_prefix()),
{
    if v.len() < 6 {
        return false;
    }
    let r = v[0] == 98 && v[1] == 121 && v[2] == 116 && v[3] == 101 && v[4] == 115 && v[5] == 61;
    assert(r == (v@.subrange(0, 6) =~= units_prefix()));
    r
}

/// The position of the only `-` of `s`, if it has exactly one.
fn lone_dash(s: &[u8]) -> (res: Option<usize>)
    ensures
        res matches Some(k) ==> lone_dash_at(s@, k as int),
        res is None ==> !exists|k: int| lone_dash_at(s@, k),
{
    let mut found: Option<usize> = None;
    let mut i: usize = 0;
    while i < s.len()
        invariant
            i <= s@.len(),
            found matches Some(k) ==> k < i && s@[k as int] == 45 && forall|j: int|
                0 <= j < i && j != k ==> #[trigger] s@[j] != 45,
            found is None ==> forall|j: int| 0 <= j < i ==> #[trigger] s@[j] != 45,
        decreases s.len() - i,
    {
        if s[i] == 45 {
            match found {
                Some(k) => {
                    assert forall|k2: int| !lone_dash_at(s@, k2) by {
                        if lone_dash_at(s@, k2) {
                            if k2 == k as int {
                                assert(s@[i as int] != 45);
                            } else {
                                assert(s@[k as int] != 45);
                            }
                        }
                    }
                    return None;
                },
                None => {
                    found = Some(i);
                },
            }
        }
        i = i + 1;
    }
    match found {
        Some(k) => {
            assert(lone_dash_at(s@, k as int));
        },
        None => {
            assert forall|k2: int| !lone_dash_at(s@, k2) by {
                if lone_dash_at(s@, k2) {
                    assert(s@[k2] != 45);
                }
            }
        },
    }
    found
}

/// The pieces of a `bytes=a-b` header, as positions: the dash sits at `6 + k`.
fn split_range(v: &[u8]) -> (res: Option<usize>)
    ensures
        res is None <==> range_pieces(v@) is None,
        res matches Some(k) ==> 6 + k < v@.len(),
        res matches Some(k) ==> range_pieces(v@) == Some(
            (v@.subrange(6, 6 + k), v@.subrange(6 + k + 1, v@.len() as int)),
        ),
{
    if !starts_with_units(v) {
        return None;
    }
    let rest = &v[6..v.len()];
    let ghost r = v@.subrange(6, v@.len() as int);
    assert(rest@ == r);
    match lone_dash(rest) {
        None => None,
        Some(k) => {
            proof {
                let c = choose|k2: int| lone_dash_at(r, k2);
                assert(lone_dash_at(r, c));
                if c != k as int {
                    assert(r[c] != 45);
                }
                assert(r.subrange(0, k as int) =~= v@.subrange(6, 6 + k));
                assert(r.subrange(k + 1, r.len() as int) =~= v@.subrange(
                    6 + k + 1,
                    v@.len() as int,
                ));
            }
            Some(k)
        },
    }
}

/// The first and last byte that a `bytes=a-b` header asks for, the dash at `6 + k`.
fn requested_bounds(v: &[u8], k: usize, file_size: u64) -> (res: (u64, u64))
    requires
        6 + k < v@.len(),
        file_size > 0,
    ensures
        res.0 == range_start(v@.subrange(6, 6 + k)),
        res.1 as int == range_end(v@.subrange(6 + k + 1, v@.len() as int), file_size),
{
    let n = v.len();
    let dash: usize = 6 + k;
    let after: usize = dash + 1;
    let start = match parse_u64(&v[6..dash]) {
        Some(x) => x,
        None => 0,
    };
    let end = match parse_u64(&v[after..n]) {
        Some(x) => x,
        None => file_size - 1,
    };
    (start, end)
}

/// `bytes */<size>` as a string.
fn unsatisfied_text(file_size: u64) -> (s: String)
    ensures
        s@ == ascii_chars(unsatisfied_range(file_size)),
{
    let mut out: Vec<u8> = Vec::new();
    out.push(98);
    out.push(121);
    out.push(116);
    out.push(101);
    out.push(115);
    out.push(32);
    out.push(42);
    out.push(47);
    push_decimal(&mut out, file_size);
    proof {
        lemma_decimal_digits(file_size as nat);
        assert(out@ =~= unsatisfied_range(file_size));
        assert(all_ascii(out@));
    }
    ascii_string(out)
}

/// `bytes <first>-<last>/<size>` as a string.
fn content_range_text(first: u64, last: u64, file_size: u64) -> (s: String)
    ensures
        s@ == ascii_chars(content_range(first, last, file_size)),
{
    let mut out: Vec<u8> = Vec::new();
    out.push(98);
    out.push(121);
    out.push(116);
    out.push(101);
    out.push(115);
    out.push(32);
    push_decimal(&mut out, first);
    out.push(45);
    push_decimal(&mut out, last);
    out.push(47);
    push_decimal(&mut out, file_size);
    proof {
        lemma_decimal_digits(first as nat);
        lemma_decimal_digits(last as nat);
        lemma_decimal_digits(file_size as nat);
        assert(out@ =~= content_range(first, last, file_size));
        assert(all_ascii(out@));
    }
    ascii_string(out)
}

/// Whether answering this request overflows (see [`range_overflows`]).
pub fn range_would_overflow(header: Option<&[u8]>, file_size: u64) -> (res: bool)
    ensures
        res == range_overflows(
            match header {
                Some(v) => Some(v@),
                None => None,
            },
            file_size,
        ),
{
    match header {
        None => false,
        Some(v) => {
            if !is_header_text(v) {
                return false;
            }
            match split_range(v) {
                None => false,
                Some(k) => {
                    if file_size == 0 {
                        return true;
                    }
                    let (start, end) = requested_bounds(v, k, file_size);
                    start < file_size && start == 0 && end == u64::MAX
                },
            }
        },
    }
}

/// Plans the answer to a streaming request for a file of `file_size` bytes,
/// given the raw bytes of its `Range` header, if any.
pub fn plan_range(header: Option<&[u8]>, file_size: u64) -> (res: RangePlan)
    requires
        !range_overflows(
            match header {
                Some(v) => Some(v@),
                None => None,
            },
            file_size,
        ),
    ensures
        res@ == spec_plan_range(
            match header {
                Some(v) => Some(v@),
                None => None,
            },
            file_size,
        ),
{
    let v = match header {
        None => {
            return RangePlan::Whole;
        },
        Some(v) => v,
    };
    if !is_header_text(v) {
        return RangePlan::InvalidHeader;
    }
    let k = match split_range(v) {
        None => {
            return RangePlan::Whole;
        },
        Some(k) => k,
    };
    let (start, end) = requested_bounds(v, k, file_size);
    if start >= file_size || start > end {
        return RangePlan::NotSatisfiable { content_range: unsatisfied_text(file_size) };
    }
    let wanted = end - start + 1;
    let available = file_size - start;
    let length = if wanted <= available {
        wanted
    } else {
        available
    };
    let last = start + length - 1;
    RangePlan::Partial { start, length, content_range: content_range_text(start, last, file_size) }
}

/// A partial answer sends at least one byte, all inside the file, and its
/// Content-Range names exactly the bytes sent.
pub proof fn law_partial_within_file(header: Option<Seq<u8>>, size: u64)
    ensures
        spec_plan_range(header, size) matches RangePlanView::Partial {
            start,
            length,
            content_range: cr,
        } ==> 1 <= length && start < size && start + length <= size && cr == ascii_chars(
            content_range(start, (start + length - 1) as u64, size),
        ),
{
}

/// The answer is 416 exactly when the first byte asked for lies at or past the
/// end of the file, or after the last byte asked for.
pub proof fn law_unsatisfiable_exactly(v: Seq<u8>, size: u64)
    requires
        header_is_text(v),
        range_pieces(v) is Some,
    ensures
        (spec_plan_range(Some(v), size) is NotSatisfiable) == ({
            let (a, b) = range_pieces(v).unwrap();
            range_start(a) >= size || range_start(a) > range_end(b, size)
        }),
{
}

/// A partial answer sends exactly the bytes asked for, clipped to the file: it
/// starts at the first byte asked for and runs to the last byte asked for or
/// the end of the file, whichever comes first.
pub proof fn law_partial_sends_requested_bytes(v: Seq<u8>, size: u64)
    requires
        header_is_text(v),
        range_pieces(v) matches Some((a, b)) && range_start(a) < size && range_start(a) <= range_end(
            b,
            size,
        ),
    ensures
        ({
            let (a, b) = range_pieces(v).unwrap();
            let first = range_start(a) as int;
            let last = range_end(b, size);
            spec_plan_range(Some(v), size) matches RangePlanView::Partial { start, length, .. } && start
                == first && length == (if last + 1 <= size { last - first + 1 } else { size - first })
        }),
{
}

/// The pieces of `bytes=<first>-<second>`, when both are digit strings.
proof fn lemma_range_pieces_of_digits(first: Seq<u8>, second: Seq<u8>)
    requires
        all_digits(first),
        all_digits(second),
    ensures
        ({
            let v = units_prefix() + first + seq![45u8] + second;
            &&& header_is_text(v)
            &&& range_pieces(v) == Some((first, second))
        }),
{
    let v = units_prefix() + first + seq![45u8] + second;
    let rest = first + seq![45u8] + second;
    let k = first.len() as int;
    assert(v.subrange(0, 6) =~= units_prefix());
    assert(v.subrange(6, v.len() as int) =~= rest);
    assert forall|i: int| 0 <= i < v.len() implies visible_ascii(#[trigger] v[i]) by {
        if 6 <= i < 6 + k {
            assert(v[i] == first[i - 6]);
        } else if 6 + k < i {
            assert(v[i] == second[i - 7 - k]);
        }
    }
    assert forall|j: int| 0 <= j < rest.len() && j != k implies #[trigger] rest[j] != 45 by {
        if j < k {
            assert(rest[j] == first[j]);
        } else {
            assert(rest[j] == second[j - k - 1]);
        }
    }
    assert(lone_dash_at(rest, k));
    let c = choose|c: int| lone_dash_at(rest, c);
    if c != k {
        assert(rest[c] != 45);
    }
    assert(rest.subrange(0, k) =~= first);
    assert(rest.subrange(k + 1, rest.len() as int) =~= second);
}

/// `bytes=<s>-<e>` for a first byte `s` inside the file and a last byte `e` at
/// or after it is answered with the bytes from `s` to `e`, or to the end of the
/// file when `e` lies past it.
pub proof fn law_explicit_range(s: u64, e: u64, size: u64)
    requires
        s <= e,
        s < size,
    ensures
        spec_plan_range(
            Some(units_prefix() + decimal(s as nat) + seq![45u8] + decimal(e as nat)),
            size,
        ) matches RangePlanView::Partial { start, length, .. } && start == s && length == (if e < size {
            e - s + 1
        } else {
            size - s
        }),
{
    lemma_decimal_digits(s as nat);
    lemma_decimal_digits(e as nat);
    lemma_parse_decimal(s);
    lemma_parse_decimal(e);
    lemma_range_pieces_of_digits(decimal(s as nat), decimal(e as nat));
}

/// `bytes=<s>-` for a first byte `s` inside the file is answered with every
/// byte from `s` to the end of the file.
pub proof fn law_open_range(s: u64, size: u64)
    requires
        s < size,
    ensures
        spec_plan_range(Some(units_prefix() + decimal(s as nat) + seq![45u8]), size) matches RangePlanView::Partial {
            start,
            length,
            ..
        } && start == s && length == size - s,
{
    lemma_decimal_digits(s as nat);
    lemma_parse_decimal(s);
    assert(all_digits(Seq::<u8>::empty()));
    lemma_range_pieces_of_digits(decimal(s as nat), Seq::<u8>::empty());
    assert(units_prefix() + decimal(s as nat) + seq![45u8] + Seq::<u8>::empty() =~= units_prefix()
        + decimal(s as nat) + seq![45u8]);
    assert(spec_parse_u64(Seq::<u8>::empty()) is None);
}

} // verus!
