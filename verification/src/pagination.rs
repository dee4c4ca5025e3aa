//! Pagination: mapping a text onto a fixed set of pre-allocated message
//! slots, each holding at most a fixed number of bytes.

use vstd::prelude::*;

verus! {

/// What one pre-allocated message slot displays: a slice of the mirrored
/// text, or a fixed placeholder when the slot lies wholly beyond the text.
pub enum SlotBody {
    Text(Vec<u8>),
    Placeholder,
}

/// The slice of `text` that slot `i` of capacity `c` displays, or `None`
/// when the slot starts beyond the end of the text and shows the
/// placeholder instead. A slot starting exactly at the end displays an
/// empty slice.
pub open spec fn slot_spec(text: Seq<u8>, i: int, c: int) -> Option<Seq<u8>> {
    if i * c > text.len() {
        None
    } else if i * c + c <= text.len() {
        Some(text.subrange(i * c, i * c + c))
    } else {
        Some(text.subrange(i * c, text.len() as int))
    }
}

/// `body` is what `slot_spec` prescribes for slot `i`.
pub open spec fn slot_matches(body: SlotBody, text: Seq<u8>, i: int, c: int) -> bool {
    match body {
        SlotBody::Text(b) => slot_spec(text, i, c) == Some(b@),
        SlotBody::Placeholder => slot_spec(text, i, c) is None,
    }
}

/// Render the body of slot `i`: the `i`-th consecutive slice of at most `c`
/// bytes, or the placeholder when the text ends before the slot begins.
pub fn slice_slot(text: &Vec<u8>, i: usize, c: usize) -> (body: SlotBody)
    requires
        i * c + c <= usize::MAX,
    ensures
        slot_matches(body, text@, i as int, c as int),
{
    let start: usize = i * c;
    if start > text.len() {
        SlotBody::Placeholder
    } else {
        let end: usize = if start + c <= text.len() {
            start + c
        } else {
            text.len()
        };
        let mut b: Vec<u8> = Vec::new();
        let mut j: usize = start;
        while j < end
            invariant
                start <= j <= end <= text@.len(),
                b@ == text@.subrange(start as int, j as int),
            decreases end - j,
        {
            b.push(text[j]);
            assert(b@ == text@.subrange(start as int, j + 1 as int));
            j = j + 1;
        }
        SlotBody::Text(b)
    }
}

/// Partition `text` into `n` consecutive slots of capacity `c` each,
/// in order; slots beyond the end of the text hold the placeholder.
pub fn paginate(text: &Vec<u8>, n: usize, c: usize) -> (slots: Vec<SlotBody>)
    requires
        n * c <= usize::MAX,
    ensures
        slots@.len() == n,
        forall|i: int| 0 <= i < n ==> slot_matches(#[trigger] slots@[i], text@, i, c as int),
{
    let mut slots: Vec<SlotBody> = Vec::new();
    let mut i: usize = 0;
    while i < n
        invariant
            0 <= i <= n,
            n * c <= usize::MAX,
            slots@.len() == i,
            forall|k: int| 0 <= k < i ==> slot_matches(#[trigger] slots@[k], text@, k, c as int),
        decreases n - i,
    {
        proof {
            lemma_mul_monotone(i + 1, n as int, c as int);
            assert((i + 1) * (c as int) == i * (c as int) + c) by (nonlinear_arith);
        }
        slots.push(slice_slot(text, i, c));
        i = i + 1;
    }
    slots
}

proof fn lemma_mul_monotone(a: int, b: int, c: int)
    requires
        0 <= a <= b,
        0 <= c,
    ensures
        a * c <= b * c,
{
    vstd::arithmetic::mul::lemma_mul_inequality(a, b, c);
}

/// A UTF-8 continuation byte: one that does not begin an encoded unit.
pub open spec fn is_continuation_byte(b: u8) -> bool {
    128 <= b < 192
}

/// Cutting the text at `k` splits no multi-byte unit: `k` lies at an end of
/// the text or the byte at `k` begins a unit.
pub open spec fn is_cut_point(text: Seq<u8>, k: int) -> bool {
    k <= 0 || k >= text.len() || !is_continuation_byte(text[k])
}

/// The largest cut point at or below `k`.
pub open spec fn cut_down(text: Seq<u8>, k: int) -> int
    decreases k,
{
    if is_cut_point(text, k) {
        k
    } else {
        cut_down(text, k - 1)
    }
}

/// The text truncated to a total byte budget: unchanged when it fits;
/// otherwise cut at the largest point that leaves room for the suffix
/// without splitting a multi-byte unit, with the suffix appended. A suffix
/// that alone exceeds the budget leaves no room and is dropped.
pub open spec fn truncated_spec(text: Seq<u8>, budget: int, suffix: Seq<u8>) -> Seq<u8> {
    if text.len() <= budget {
        text
    } else if suffix.len() <= budget {
        text.take(cut_down(text, budget - suffix.len())) + suffix
    } else {
        text.take(cut_down(text, budget))
    }
}

proof fn lemma_cut_down_bounds(text: Seq<u8>, k: int)
    requires
        0 <= k,
    ensures
        0 <= cut_down(text, k) <= k,
        is_cut_point(text, cut_down(text, k)),
    decreases k,
{
    if !is_cut_point(text, k) {
        lemma_cut_down_bounds(text, k - 1);
    }
}

/// The largest index at or below `k` at which the text may be cut without
/// splitting a multi-byte unit.
fn cut_point_at_or_below(text: &Vec<u8>, k: usize) -> (r: usize)
    requires
        k <= text@.len(),
    ensures
        r == cut_down(text@, k as int),
        r <= k,
{
    proof {
        lemma_cut_down_bounds(text@, k as int);
    }
    let mut j: usize = k;
    while j > 0 && j < text.len() && 128 <= text[j] && text[j] < 192
        invariant
            0 <= j <= k <= text@.len(),
            cut_down(text@, k as int) == cut_down(text@, j as int),
        decreases j,
    {
        j = j - 1;
    }
    j
}

/// A copy of the first `n` bytes of the text.
fn copy_prefix(text: &Vec<u8>, n: usize) -> (r: Vec<u8>)
    requires
        n <= text@.len(),
    ensures
        r@ == text@.take(n as int),
{
    let mut r: Vec<u8> = Vec::new();
    let mut j: usize = 0;
    while j < n
        invariant
            0 <= j <= n <= text@.len(),
            r@ == text@.take(j as int),
        decreases n - j,
    {
        r.push(text[j]);
        proof {
            assert(r@ =~= text@.take(j + 1));
        }
        j = j + 1;
    }
    r
}

/// Truncate the text to the total byte budget, reserving room for the
/// suffix: within budget the text is unchanged; over budget it is cut at a
/// multi-byte-safe point and the suffix appended, which keeps the result
/// within the budget.
pub fn truncate_to_budget(text: &Vec<u8>, budget: usize, suffix: &Vec<u8>) -> (r: Vec<u8>)
    ensures
        r@ == truncated_spec(text@, budget as int, suffix@),
        r@.len() <= budget || text@.len() <= budget,
{
    if text.len() <= budget {
        return copy_prefix(text, text.len());
    }
    let limit: usize = if suffix.len() <= budget {
        budget - suffix.len()
    } else {
        budget
    };
    let cut = cut_point_at_or_below(text, limit);
    let mut r = copy_prefix(text, cut);
    if suffix.len() <= budget {
        let mut j: usize = 0;
        while j < suffix.len()
            invariant
                0 <= j <= suffix@.len(),
                r@ == text@.take(cut_down(text@, (budget - suffix@.len()) as int)) + suffix@.take(
                    j as int,
                ),
                cut_down(text@, (budget - suffix@.len()) as int) + suffix@.len() <= usize::MAX,
                suffix@.len() <= budget < text@.len(),
            decreases suffix@.len() - j,
        {
            r.push(suffix[j]);
            proof {
                assert(suffix@.take(j + 1) =~= suffix@.take(j as int).push(suffix@[j as int]));
            }
            j = j + 1;
        }
        proof {
            assert(suffix@.take(suffix@.len() as int) =~= suffix@);
        }
        r
    } else {
        r
    }
}

/// The fixed overflow suffix for an update whose content exceeds its
/// budget: an ellipsis, a line break, and `See <url> for more`.
pub open spec fn overflow_suffix_spec(url: Seq<u8>) -> Seq<u8> {
    suffix_head() + url + suffix_tail()
}

/// The bytes of the ellipsis, a line break and `See <`.
pub open spec fn suffix_head() -> Seq<u8> {
    seq![0xe2u8, 0x80, 0xa6, 0x0a, 0x53, 0x65, 0x65, 0x20, 0x3c]
}

/// The bytes of `> for more`.
pub open spec fn suffix_tail() -> Seq<u8> {
    seq![0x3eu8, 0x20, 0x66, 0x6f, 0x72, 0x20, 0x6d, 0x6f, 0x72, 0x65]
}

/// Build the overflow suffix around the authoritative URL.
pub fn overflow_suffix(url: &Vec<u8>) -> (r: Vec<u8>)
    requires
        url@.len() + 19 <= usize::MAX,
    ensures
        r@ == overflow_suffix_spec(url@),
{
    let mut r: Vec<u8> = Vec::new();
    r.push(0xe2);
    r.push(0x80);
    r.push(0xa6);
    r.push(0x0a);
    r.push(0x53);
    r.push(0x65);
    r.push(0x65);
    r.push(0x20);
    r.push(0x3c);
    proof {
        assert(r@ =~= suffix_head());
    }
    let mut j: usize = 0;
    while j < url.len()
        invariant
            0 <= j <= url@.len(),
            url@.len() + 19 <= usize::MAX,
            r@ == suffix_head() + url@.take(j as int),
        decreases url@.len() - j,
    {
        r.push(url[j]);
        proof {
            assert(r@ =~= suffix_head() + url@.take(j + 1));
        }
        j = j + 1;
    }
    proof {
        assert(url@.take(url@.len() as int) =~= url@);
    }
    r.push(0x3e);
    r.push(0x20);
    r.push(0x66);
    r.push(0x6f);
    r.push(0x72);
    r.push(0x20);
    r.push(0x6d);
    r.push(0x6f);
    r.push(0x72);
    r.push(0x65);
    proof {
        assert(r@ =~= overflow_suffix_spec(url@));
    }
    r
}

/// Render the message bodies for one update: the text is truncated to the
/// slots' total budget, reserving room for the suffix, and partitioned onto
/// the slots.
pub fn render_update_bodies(text: &Vec<u8>, n: usize, c: usize, suffix: &Vec<u8>) -> (slots: Vec<
    SlotBody,
>)
    requires
        n * c <= usize::MAX,
    ensures
        slots@.len() == n,
        forall|i: int|
            0 <= i < n ==> slot_matches(
                #[trigger] slots@[i],
                truncated_spec(text@, (n * c) as int, suffix@),
                i,
                c as int,
            ),
{
    let budget = n * c;
    let t = truncate_to_budget(text, budget, suffix);
    paginate(&t, n, c)
}

/// The number of slots that content of this length fills: the exact
/// quotient, rounded up when a remainder is left over.
pub open spec fn pages_needed(len: int, c: int) -> int {
    if len % c == 0 {
        len / c
    } else {
        len / c + 1
    }
}

/// The slot count a creation request gets: the requested count — one when
/// none is given — raised to what the content needs, so that the content is
/// never under-allocated.
pub open spec fn effective_pages_spec(len: int, explicit: Option<usize>, c: int) -> int {
    let requested: int = match explicit {
        Some(p) => p as int,
        None => 1,
    };
    if requested >= pages_needed(len, c) {
        requested
    } else {
        pages_needed(len, c)
    }
}

/// The effective page count of a creation request over content of the
/// given length: enough slots for all of it, or more if asked for.
pub fn effective_page_count(content_len: usize, explicit: Option<usize>, c: usize) -> (n: usize)
    requires
        c >= 1,
    ensures
        n == effective_pages_spec(content_len as int, explicit, c as int),
        n * c >= content_len,
{
    let needed: usize = if content_len % c != 0 {
        proof {
            assert(content_len % c != 0 ==> c >= 2);
            assert(c >= 2 ==> content_len / c <= usize::MAX / 2) by (nonlinear_arith);
        }
        content_len / c + 1
    } else {
        content_len / c
    };
    proof {
        let d = content_len as int / (c as int);
        let m = content_len as int % (c as int);
        vstd::arithmetic::div_mod::lemma_fundamental_div_mod(content_len as int, c as int);
        assert(needed * c >= content_len) by (nonlinear_arith)
            requires
                1 <= c,
                needed as int == (if m == 0 {
                    d
                } else {
                    d + 1
                }),
                content_len as int == d * (c as int) + m,
                0 <= m,
                m < c as int;
    }
    let n = match explicit {
        Some(p) => if p >= needed {
            p
        } else {
            needed
        },
        None => if 1 >= needed {
            1
        } else {
            needed
        },
    };
    proof {
        lemma_mul_monotone(needed as int, n as int, c as int);
    }
    n
}

/// The message bodies a creation request sends: one per effective page,
/// sliced by the same rule as an update. The effective count never
/// under-allocates, so nothing is truncated here.
pub fn creation_pages(content: &Vec<u8>, explicit: Option<usize>, c: usize) -> (slots: Vec<
    SlotBody,
>)
    requires
        c >= 1,
        effective_pages_spec(content@.len() as int, explicit, c as int) * c <= usize::MAX,
    ensures
        slots@.len() == effective_pages_spec(content@.len() as int, explicit, c as int),
        forall|i: int|
            0 <= i < slots@.len() ==> slot_matches(#[trigger] slots@[i], content@, i, c as int),
{
    let n = effective_page_count(content.len(), explicit, c);
    proof {
        lemma_mul_monotone(n as int, n as int, c as int);
    }
    paginate(content, n, c)
}

/// The concatenation of the text slices of the first `n` slots; a
/// placeholder slot contributes nothing.
pub open spec fn concat_slices(text: Seq<u8>, n: int, c: int) -> Seq<u8>
    decreases n,
{
    if n <= 0 {
        Seq::empty()
    } else {
        concat_slices(text, n - 1, c) + (match slot_spec(text, n - 1, c) {
            Some(s) => s,
            None => Seq::empty(),
        })
    }
}

/// Concatenating the slices of `n` slots of capacity `c` reproduces the
/// text up to the total budget: all of it when it fits, else its first
/// `n * c` bytes.
pub proof fn lemma_slices_reproduce_prefix(text: Seq<u8>, n: int, c: int)
    requires
        n >= 0,
        c >= 0,
    ensures
        concat_slices(text, n, c) == (if n * c <= text.len() {
            text.take(n * c)
        } else {
            text
        }),
    decreases n,
{
    if n == 0 {
        assert(n * c == 0) by (nonlinear_arith)
            requires
                n == 0;
        assert(concat_slices(text, 0, c) =~= text.take(0));
    } else {
        lemma_slices_reproduce_prefix(text, n - 1, c);
        assert((n - 1) * c + c == n * c) by (nonlinear_arith);
        lemma_mul_monotone(n - 1, n, c);
        if (n - 1) * c <= text.len() {
            if n * c <= text.len() {
                assert(concat_slices(text, n, c) =~= text.take(n * c));
            } else {
                assert(concat_slices(text, n, c) =~= text);
            }
        } else {
            assert(slot_spec(text, n - 1, c) is None);
            assert(concat_slices(text, n, c) =~= text);
        }
    }
}

/// Law: partitioning the truncated text onto `n` slots of capacity `c` and
/// concatenating the non-placeholder slices reproduces the whole text when
/// it fits the total budget, and otherwise reproduces its prefix cut
/// exactly at `n * c - len(suffix)` bytes with the suffix appended —
/// whenever that cut splits no multi-byte unit and the suffix itself fits
/// the budget.
pub proof fn lemma_pagination_round_trip(text: Seq<u8>, n: int, c: int, suffix: Seq<u8>)
    requires
        n >= 0,
        c >= 0,
        suffix.len() <= n * c,
        text.len() > n * c ==> is_cut_point(text, n * c - suffix.len()),
    ensures
        text.len() <= n * c ==> concat_slices(truncated_spec(text, n * c, suffix), n, c) == text,
        text.len() > n * c ==> concat_slices(truncated_spec(text, n * c, suffix), n, c)
            == text.take(n * c - suffix.len()) + suffix,
{
    let t = truncated_spec(text, n * c, suffix);
    if text.len() > n * c {
        assert(cut_down(text, n * c - suffix.len()) == n * c - suffix.len());
        assert(t == text.take(n * c - suffix.len()) + suffix);
        assert(t.len() == n * c);
    }
    lemma_slices_reproduce_prefix(t, n, c);
    assert(t.len() <= n * c);
    if t.len() == n * c {
        assert(t.take(n * c) =~= t);
    }
}

} // verus!
