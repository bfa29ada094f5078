//! Comma-separated lists of sizes, as the sweep drivers take them on the
//! command line.
//!
//! An input such as `"16, 32,64"` splits on every comma; each entry is
//! trimmed of surrounding ASCII whitespace and read as a decimal size with an
//! optional leading `+`; entries that are empty, hold a non-digit, or do not
//! fit in `usize` are dropped.

use vstd::prelude::*;
use vstd::string::StringSliceAdditionalSpecFns;

verus! {

/// ASCII whitespace, as trimmed from around each entry.
pub open spec fn is_space(b: u8) -> bool {
    b == 32 || b == 9 || b == 10 || b == 11 || b == 12 || b == 13
}

/// An ASCII decimal digit.
pub open spec fn is_digit(b: u8) -> bool {
    48 <= b && b <= 57
}

/// The number a sequence of ASCII digits denotes in decimal.
pub open spec fn digits_value(s: Seq<u8>) -> nat
    decreases s.len(),
{
    if s.len() == 0 {
        0
    } else {
        digits_value(s.drop_last()) * 10 + ((s.last() - 48) as nat)
    }
}

/// `s` with its leading ASCII whitespace removed.
pub open spec fn trim_front(s: Seq<u8>) -> Seq<u8>
    decreases s.len(),
{
    if s.len() > 0 && is_space(s[0]) {
        trim_front(s.skip(1))
    } else {
        s
    }
}

/// `s` with its trailing ASCII whitespace removed.
pub open spec fn trim_back(s: Seq<u8>) -> Seq<u8>
    decreases s.len(),
{
    if s.len() > 0 && is_space(s.last()) {
        trim_back(s.drop_last())
    } else {
        s
    }
}

/// `s` with whitespace removed on both sides.
pub open spec fn trimmed(s: Seq<u8>) -> Seq<u8> {
    trim_back(trim_front(s))
}

/// The digit part of a trimmed entry: an optional leading `+` is skipped.
pub open spec fn digits_of(t: Seq<u8>) -> Seq<u8> {
    if t.len() > 0 && t[0] == 43 {
        t.skip(1)
    } else {
        t
    }
}

/// What one raw entry parses to: after trimming and an optional `+`, at least
/// one byte, all digits, with a value that fits in `usize`; anything else is
/// dropped.
pub open spec fn entry_value(raw: Seq<u8>) -> Option<usize> {
    let d = digits_of(trimmed(raw));
    if d.len() > 0 && (forall|i: int| 0 <= i < d.len() ==> is_digit(d[i])) && digits_value(d)
        <= usize::MAX {
        Some(digits_value(d) as usize)
    } else {
        None
    }
}

/// The index of the first comma of `s`, or `s.len()` if there is none.
pub open spec fn comma_split(s: Seq<u8>) -> nat
    decreases s.len(),
{
    if s.len() == 0 {
        0
    } else if s[0] == 44 {
        0
    } else {
        1 + comma_split(s.skip(1))
    }
}

/// An entry's contribution to the output list.
pub open spec fn opt_seq(v: Option<usize>) -> Seq<usize> {
    match v {
        Some(x) => seq![x],
        None => Seq::empty(),
    }
}

/// The sizes the comma-separated entries of `s` denote, in order, with the
/// entries that do not parse dropped.
pub open spec fn list_values(s: Seq<u8>) -> Seq<usize>
    decreases s.len(),
{
    let c = comma_split(s);
    if c >= s.len() {
        opt_seq(entry_value(s))
    } else {
        opt_seq(entry_value(s.take(c as int))) + list_values(s.skip(c as int + 1))
    }
}

proof fn lemma_comma_split_char(s: Seq<u8>, k: int)
    requires
        0 <= k <= s.len(),
        forall|j: int| 0 <= j < k ==> s[j] != 44,
        k < s.len() ==> s[k] == 44,
    ensures
        comma_split(s) == k,
    decreases s.len(),
{
    if s.len() == 0 {
    } else if s[0] == 44 {
    } else {
        assert(forall|j: int| 0 <= j < k - 1 ==> s.skip(1)[j] != 44);
        lemma_comma_split_char(s.skip(1), k - 1);
    }
}

proof fn lemma_trim_front_char(s: Seq<u8>, a: int)
    requires
        0 <= a <= s.len(),
        forall|j: int| 0 <= j < a ==> is_space(s[j]),
        a < s.len() ==> !is_space(s[a]),
    ensures
        trim_front(s) == s.skip(a),
    decreases a,
{
    if a == 0 {
        assert(s.skip(0) =~= s);
    } else {
        assert(forall|j: int| 0 <= j < a - 1 ==> is_space(s.skip(1)[j]));
        lemma_trim_front_char(s.skip(1), a - 1);
        assert(s.skip(1).skip(a - 1) =~= s.skip(a));
    }
}

proof fn lemma_trim_back_char(s: Seq<u8>, b: int)
    requires
        0 <= b <= s.len(),
        forall|j: int| b <= j < s.len() ==> is_space(s[j]),
        b > 0 ==> !is_space(s[b - 1]),
    ensures
        trim_back(s) == s.take(b),
    decreases s.len(),
{
    if b == s.len() {
        assert(s.take(b) =~= s);
    } else {
        assert(forall|j: int| b <= j < s.drop_last().len() ==> is_space(s.drop_last()[j]));
        lemma_trim_back_char(s.drop_last(), b);
        assert(s.drop_last().take(b) =~= s.take(b));
    }
}

proof fn lemma_digits_value_prefix(d: Seq<u8>, i: int)
    requires
        0 <= i <= d.len(),
    ensures
        digits_value(d.take(i)) <= digits_value(d),
    decreases d.len() - i,
{
    if i == d.len() {
        assert(d.take(i) =~= d);
    } else {
        assert(d.take(i + 1).drop_last() =~= d.take(i));
        lemma_digits_value_prefix(d, i + 1);
    }
}

fn space_byte(b: u8) -> (r: bool)
    ensures
        r == is_space(b),
{
    b == 32 || b == 9 || b == 10 || b == 11 || b == 12 || b == 13
}

/// Parses the entry held in `bytes[from..to]`, as `entry_value` describes.
#[verifier::loop_isolation(false)]
#[verifier::rlimit(60)]
fn parse_entry(bytes: &[u8], from: usize, to: usize) -> (r: Option<usize>)
    requires
        from <= to <= bytes@.len(),
    ensures
        r == entry_value(bytes@.subrange(from as int, to as int)),
{
    let ghost seg = bytes@.subrange(from as int, to as int);

    let mut a: usize = from;
    while a < to && space_byte(bytes[a])
        invariant
            from <= a <= to <= bytes@.len(),
            forall|j: int| from <= j < a ==> is_space(bytes@[j]),
        decreases to - a,
    {
        a = a + 1;
    }
    let mut b: usize = to;
    while b > a && space_byte(bytes[b - 1])
        invariant
            a <= b <= to <= bytes@.len(),
            forall|j: int| b <= j < to ==> is_space(bytes@[j]),
        decreases b,
    {
        b = b - 1;
    }
    proof {
        assert(forall|j: int| 0 <= j < a - from ==> is_space(seg[j]));
        assert(a - from < seg.len() ==> !is_space(seg[a - from]));
        lemma_trim_front_char(seg, a - from);
        assert(seg.skip(a - from) =~= bytes@.subrange(a as int, to as int));
        let t0 = bytes@.subrange(a as int, to as int);
        assert(forall|j: int| b - a <= j < t0.len() ==> is_space(t0[j]));
        lemma_trim_back_char(t0, b - a);
        assert(t0.take(b - a) =~= bytes@.subrange(a as int, b as int));
        assert(trimmed(seg) == bytes@.subrange(a as int, b as int));
    }

    let mut c: usize = a;
    if c < b && bytes[c] == 43 {
        c = c + 1;
    }
    let ghost d = bytes@.subrange(c as int, b as int);
    proof {
        assert(digits_of(trimmed(seg)) =~= d);
    }
    if c == b {
        return None;
    }

    let mut acc: usize = 0;
    let mut i: usize = c;
    while i < b
        invariant
            c <= i <= b <= bytes@.len(),
            c < b,
            d == bytes@.subrange(c as int, b as int),
            forall|j: int| c <= j < i ==> is_digit(bytes@[j]),
            acc == digits_value(d.take(i - c)),
        decreases b - i,
    {
        let by = bytes[i];
        if by < 48 || by > 57 {
            proof {
                assert(!is_digit(d[i - c]));
            }
            return None;
        }
        let digit = (by - 48) as usize;
        proof {
            assert(d.take(i - c + 1).drop_last() =~= d.take(i - c));
            assert(d.take(i - c + 1).last() == bytes@[i as int]);
        }
        if acc > usize::MAX / 10 || (acc == usize::MAX / 10 && digit > usize::MAX % 10) {
            proof {
                assert(usize::MAX as int == (usize::MAX as int / 10) * 10 + (
                usize::MAX as int % 10));
                assert(digits_value(d.take(i - c + 1)) > usize::MAX);
                lemma_digits_value_prefix(d, i - c + 1);
            }
            return None;
        }
        proof {
            assert(usize::MAX as int == (usize::MAX as int / 10) * 10 + (usize::MAX as int % 10));
            assert(acc * 10 + digit <= usize::MAX);
        }
        acc = acc * 10 + digit;
        i = i + 1;
    }
    proof {
        assert(d.take(b - c) =~= d);
        assert(forall|j: int| 0 <= j < d.len() ==> d[j] == bytes@[c + j]);
    }
    Some(acc)
}

/// Parses the comma-separated entries of `bytes[start..]`, as `list_values`
/// describes.
#[verifier::loop_isolation(false)]
fn parse_from(bytes: &[u8], start: usize) -> (r: Vec<usize>)
    requires
        start <= bytes@.len(),
    ensures
        r@ == list_values(bytes@.skip(start as int)),
    decreases bytes@.len() - start,
{
    let ghost suffix = bytes@.skip(start as int);
    let n: usize = bytes.len();
    let mut end: usize = start;
    while end < n && bytes[end] != 44
        invariant
            start <= end <= n,
            n == bytes@.len(),
            forall|j: int| start <= j < end ==> bytes@[j] != 44,
        decreases n - end,
    {
        end = end + 1;
    }
    proof {
        assert(forall|j: int| 0 <= j < end - start ==> suffix[j] != 44);
        assert(end - start < suffix.len() ==> suffix[end - start] == 44);
        lemma_comma_split_char(suffix, end - start);
    }
    let head = parse_entry(bytes, start, end);
    if end == n {
        proof {
            assert(suffix =~= bytes@.subrange(start as int, end as int));
        }
        match head {
            Some(v) => {
                let mut r: Vec<usize> = Vec::new();
                r.push(v);
                proof {
                    assert(r@ =~= list_values(suffix));
                }
                r
            },
            None => {
                let r: Vec<usize> = Vec::new();
                proof {
                    assert(r@ =~= list_values(suffix));
                }
                r
            },
        }
    } else {
        let mut rest = parse_from(bytes, end + 1);
        let ghost rest_view = rest@;
        proof {
            assert(suffix.take(end - start) =~= bytes@.subrange(start as int, end as int));
            assert(suffix.skip(end - start + 1) =~= bytes@.skip(end as int + 1));
        }
        match head {
            Some(v) => {
                let mut r: Vec<usize> = Vec::new();
                r.push(v);
                r.append(&mut rest);
                proof {
                    assert(r@ =~= seq![v] + rest_view);
                    assert(r@ =~= list_values(suffix));
                }
                r
            },
            None => {
                proof {
                    assert(rest@ =~= list_values(suffix));
                }
                rest
            },
        }
    }
}

/// The sizes named by a comma-separated list, in order; entries that are
/// empty or are not a size are dropped.
pub fn parse_list(input: &str) -> (r: Vec<usize>)
    ensures
        r@ == list_values(input.spec_bytes()),
{
    let bytes: &[u8] = input.as_bytes();
    proof {
        assert(bytes@.skip(0) =~= bytes@);
    }
    parse_from(bytes, 0)
}

/// The bond-dimension list of the growth sweep: the same list syntax.
pub fn parse_max_bonds(input: &str) -> (r: Vec<usize>)
    ensures
        r@ == list_values(input.spec_bytes()),
{
    parse_list(input)
}

} // verus!
