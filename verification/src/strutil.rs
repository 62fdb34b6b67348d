//! Verified string helpers: prefix/suffix tests, separator splitting and
//! decimal parsing over `Seq<char>` models.

use vstd::prelude::*;
use vstd::string::StrSliceExecFns;

verus! {

/// `p` is a prefix of `s`.
pub open spec fn starts_with_spec(s: Seq<char>, p: Seq<char>) -> bool {
    p.len() <= s.len() && s.take(p.len() as int) == p
}

/// `p` is a suffix of `s`.
pub open spec fn ends_with_spec(s: Seq<char>, p: Seq<char>) -> bool {
    p.len() <= s.len() && s.skip(s.len() - p.len()) == p
}

pub fn str_eq(a: &str, b: &str) -> (r: bool)
    ensures
        r == (a@ == b@),
{
    let alen = a.unicode_len();
    let blen = b.unicode_len();
    if alen != blen {
        return false;
    }
    let mut i: usize = 0;
    while i < alen
        invariant
            i <= alen,
            alen == a@.len(),
            alen == b@.len(),
            forall|j: int| 0 <= j < i ==> a@[j] == b@[j],
        decreases alen - i,
    {
        if a.get_char(i) != b.get_char(i) {
            return false;
        }
        i += 1;
    }
    proof {
        assert(a@ =~= b@);
    }
    true
}

pub fn str_starts_with(s: &str, p: &str) -> (r: bool)
    ensures
        r == starts_with_spec(s@, p@),
{
    let plen = p.unicode_len();
    if plen > s.unicode_len() {
        return false;
    }
    let mut i: usize = 0;
    while i < plen
        invariant
            i <= plen,
            plen == p@.len(),
            plen <= s@.len(),
            forall|j: int| 0 <= j < i ==> s@[j] == p@[j],
        decreases plen - i,
    {
        if s.get_char(i) != p.get_char(i) {
            return false;
        }
        i += 1;
    }
    proof {
        assert(s@.take(plen as int) =~= p@);
    }
    true
}

pub fn str_ends_with(s: &str, p: &str) -> (r: bool)
    ensures
        r == ends_with_spec(s@, p@),
{
    let plen = p.unicode_len();
    let slen = s.unicode_len();
    if plen > slen {
        return false;
    }
    let off = slen - plen;
    let mut i: usize = 0;
    while i < plen
        invariant
            i <= plen,
            plen == p@.len(),
            slen == s@.len(),
            off == slen - plen,
            forall|j: int| 0 <= j < i ==> s@[off + j] == p@[j],
        decreases plen - i,
    {
        if s.get_char(off + i) != p.get_char(i) {
            assert(s@.skip(off as int)[i as int] == s@[off + i]);
            return false;
        }
        i += 1;
    }
    proof {
        assert(s@.skip(off as int) =~= p@);
    }
    true
}

/// The characters `s[at .. at + sep.len()]` are exactly `sep`.
pub fn matches_at(s: &str, sep: &str, at: usize) -> (r: bool)
    requires
        at <= s@.len(),
    ensures
        r == (at + sep@.len() <= s@.len() && s@.subrange(at as int, at + sep@.len()) == sep@),
{
    let slen = s.unicode_len();
    let seplen = sep.unicode_len();
    if seplen > slen - at {
        return false;
    }
    let mut j: usize = 0;
    while j < seplen
        invariant
            j <= seplen,
            seplen == sep@.len(),
            slen == s@.len(),
            at + seplen <= slen,
            forall|k: int| 0 <= k < j ==> s@[at + k] == sep@[k],
        decreases seplen - j,
    {
        if s.get_char(at + j) != sep.get_char(j) {
            assert(s@.subrange(at as int, at + sep@.len())[j as int] == s@[at + j]);
            return false;
        }
        j += 1;
    }
    proof {
        assert(s@.subrange(at as int, at + sep@.len()) =~= sep@);
    }
    true
}

/// Splitting on a separator, scanning left to right and taking each
/// non-overlapping occurrence of `sep` as a cut. Mirrors how a shell-style
/// `split` of a string behaves: the result always has at least one part,
/// and an input that ends with the separator ends with an empty part.
pub open spec fn split_spec(s: Seq<char>, sep: Seq<char>) -> Seq<Seq<char>>
    decreases s.len(),
{
    if sep.len() == 0 || s.len() < sep.len() {
        seq![s]
    } else if s.subrange(0, sep.len() as int) == sep {
        seq![Seq::<char>::empty()] + split_spec(s.skip(sep.len() as int), sep)
    } else {
        let rest = split_spec(s.skip(1), sep);
        seq![seq![s[0]] + rest[0]] + rest.skip(1)
    }
}

pub proof fn lemma_split_nonempty(s: Seq<char>, sep: Seq<char>)
    ensures
        split_spec(s, sep).len() >= 1,
    decreases s.len(),
{
    if sep.len() == 0 || s.len() < sep.len() {
    } else if s.subrange(0, sep.len() as int) == sep {
    } else {
        lemma_split_nonempty(s.skip(1), sep);
    }
}

/// The first part of `ss` with `c` glued onto its front, then the rest of
/// `ss` unchanged.
pub open spec fn prepend_first(c: Seq<char>, ss: Seq<Seq<char>>) -> Seq<Seq<char>> {
    seq![c + ss[0]] + ss.skip(1)
}

pub fn split_str(s: &str, sep: &str) -> (parts: Vec<String>)
    requires
        sep@.len() >= 1,
    ensures
        parts.deep_view() == split_spec(s@, sep@),
{
    let n = s.unicode_len();
    let mut parts: Vec<String> = Vec::new();
    let mut start: usize = 0;
    let mut i: usize = 0;
    proof {
        lemma_split_nonempty(s@, sep@);
        assert(s@.skip(0) =~= s@);
        assert(parts.deep_view() =~= Seq::<Seq<char>>::empty());
        assert(s@.subrange(0, 0) + split_spec(s@, sep@)[0] =~= split_spec(s@, sep@)[0]);
        assert(prepend_first(s@.subrange(0, 0), split_spec(s@, sep@)) =~= split_spec(s@, sep@));
        assert(parts.deep_view() + prepend_first(s@.subrange(0, 0), split_spec(s@, sep@))
            =~= split_spec(s@, sep@));
    }
    while i < n
        invariant
            sep@.len() >= 1,
            n == s@.len(),
            start <= i <= n,
            parts.deep_view() + prepend_first(
                s@.subrange(start as int, i as int),
                split_spec(s@.skip(i as int), sep@),
            ) == split_spec(s@, sep@),
        decreases n - i,
    {
        let ghost cur = s@.subrange(start as int, i as int);
        let ghost tail = s@.skip(i as int);
        if matches_at(s, sep, i) {
            proof {
                // `tail` starts with the separator, so its split begins with
                // an empty part followed by the split of what comes after.
                assert(tail.subrange(0, sep@.len() as int) =~= s@.subrange(
                    i as int,
                    i + sep@.len(),
                ));
                assert(tail.skip(sep@.len() as int) =~= s@.skip(i + sep@.len()));
                lemma_split_nonempty(s@.skip(i + sep@.len()), sep@);
                assert(split_spec(tail, sep@) == seq![Seq::<char>::empty()] + split_spec(
                    s@.skip(i + sep@.len()),
                    sep@,
                ));
                assert(prepend_first(cur, split_spec(tail, sep@)) =~= seq![cur] + split_spec(
                    s@.skip(i + sep@.len()),
                    sep@,
                ));
            }
            let piece = s.substring_char(start, i).to_owned();
            let ghost old_parts = parts.deep_view();
            parts.push(piece);
            proof {
                assert(parts.deep_view() =~= old_parts.push(cur));
                let next = split_spec(s@.skip(i + sep@.len()), sep@);
                assert(parts.deep_view() + prepend_first(
                    Seq::<char>::empty(),
                    next,
                ) =~= old_parts + (seq![cur] + next));
            }
            i = i + sep.unicode_len();
            start = i;
        } else {
            proof {
                // `tail` does not start with the separator: its first
                // character joins the first part of the remaining split.
                let next = split_spec(s@.skip(i + 1), sep@);
                if tail.len() < sep@.len() {
                    assert(tail =~= seq![s@[i as int]] + s@.skip(i + 1));
                    assert(s@.skip(i + 1).len() < sep@.len());
                    assert(split_spec(tail, sep@) == seq![tail]);
                    assert(split_spec(s@.skip(i + 1), sep@) == seq![s@.skip(i + 1)]);
                    assert(cur + tail =~= s@.subrange(start as int, i + 1) + s@.skip(i + 1));
                    assert(prepend_first(cur, split_spec(tail, sep@)) =~~= prepend_first(
                        s@.subrange(start as int, i + 1),
                        next,
                    ));
                } else {
                    assert(tail.subrange(0, sep@.len() as int) =~= s@.subrange(
                        i as int,
                        i + sep@.len(),
                    ));
                    assert(tail.subrange(0, sep@.len() as int) != sep@);
                    assert(tail[0] == s@[i as int]);
                    assert(tail.skip(1) =~= s@.skip(i + 1));
                    assert(split_spec(tail, sep@) == seq![seq![tail[0]] + next[0]] + next.skip(
                        1,
                    ));
                    lemma_split_nonempty(s@.skip(i + 1), sep@);
                    assert(cur + (seq![s@[i as int]] + next[0]) =~= s@.subrange(start as int, i + 1)
                        + next[0]);
                    assert(prepend_first(cur, split_spec(tail, sep@)) =~= prepend_first(
                        s@.subrange(start as int, i + 1),
                        next,
                    ));
                }
            }
            i = i + 1;
        }
    }
    let last = s.substring_char(start, n).to_owned();
    let ghost old_parts = parts.deep_view();
    parts.push(last);
    proof {
        let ghost cur = s@.subrange(start as int, n as int);
        assert(s@.skip(n as int).len() == 0);
        assert(split_spec(s@.skip(n as int), sep@) == seq![s@.skip(n as int)]);
        assert(prepend_first(cur, split_spec(s@.skip(n as int), sep@)) =~= seq![cur]);
        assert(parts.deep_view() =~= old_parts.push(cur));
        assert(parts.deep_view() =~= old_parts + seq![cur]);
    }
    parts
}

/// A decimal digit.
pub open spec fn is_digit(c: char) -> bool {
    '0' as int <= c as int <= '9' as int
}

pub open spec fn digit_val(c: char) -> int {
    c as int - '0' as int
}

pub open spec fn all_digits(s: Seq<char>) -> bool {
    forall|i: int| 0 <= i < s.len() ==> is_digit(s[i])
}

/// Value of a digit string, most significant digit first.
pub open spec fn digits_val(s: Seq<char>) -> int
    decreases s.len(),
{
    if s.len() == 0 {
        0
    } else {
        digits_val(s.drop_last()) * 10 + digit_val(s.last())
    }
}

pub proof fn lemma_digits_val_nonneg(s: Seq<char>)
    requires
        all_digits(s),
    ensures
        digits_val(s) >= 0,
    decreases s.len(),
{
    if s.len() > 0 {
        assert(all_digits(s.drop_last()));
        lemma_digits_val_nonneg(s.drop_last());
    }
}

pub proof fn lemma_digits_val_monotone(s: Seq<char>, k: int)
    requires
        0 <= k <= s.len(),
        all_digits(s),
    ensures
        digits_val(s.take(k)) <= digits_val(s),
    decreases s.len() - k,
{
    if k == s.len() {
        assert(s.take(k) =~= s);
    } else {
        lemma_digits_val_monotone(s, k + 1);
        assert(s.take(k + 1).drop_last() =~= s.take(k));
        assert(all_digits(s.take(k)));
        lemma_digits_val_nonneg(s.take(k));
        assert(digits_val(s.take(k + 1)) == digits_val(s.take(k)) * 10 + digit_val(s[k]));
        assert(digits_val(s.take(k)) * 10 >= digits_val(s.take(k)));
    }
}

/// What `usize::from_str` accepts: an optional leading `+`, then at least
/// one decimal digit, with a value that fits in `usize`.
pub open spec fn parse_usize_spec(s: Seq<char>) -> Option<usize> {
    let ds = if s.len() >= 1 && s[0] == '+' {
        s.skip(1)
    } else {
        s
    };
    if ds.len() >= 1 && all_digits(ds) && digits_val(ds) <= usize::MAX {
        Some(digits_val(ds) as usize)
    } else {
        None
    }
}

pub fn parse_usize(s: &str) -> (r: Option<usize>)
    ensures
        r == parse_usize_spec(s@),
{
    let n = s.unicode_len();
    let start: usize = if n >= 1 && s.get_char(0) == '+' {
        1
    } else {
        0
    };
    let ghost ds = if start == 1 {
        s@.skip(1)
    } else {
        s@
    };
    if n == start {
        return None;
    }
    let mut val: usize = 0;
    let mut i: usize = start;
    while i < n
        invariant
            n == s@.len(),
            start <= i <= n,
            start <= 1,
            start == 1 ==> n >= 1 && s@[0] == '+',
            start == 0 ==> !(n >= 1 && s@[0] == '+'),
            ds == if start == 1 {
                s@.skip(1)
            } else {
                s@
            },
            all_digits(s@.subrange(start as int, i as int)),
            val == digits_val(s@.subrange(start as int, i as int)),
        decreases n - i,
    {
        let c = s.get_char(i);
        let cv = c as u32;
        proof {
            assert(ds[i - start] == s@[i as int]);
        }
        if cv < 48 || cv > 57 {
            assert(!is_digit(s@[i as int]));
            assert(!all_digits(ds));
            return None;
        }
        let d = (cv - 48) as usize;
        let ghost prefix = s@.subrange(start as int, i as int);
        let ghost prefix1 = s@.subrange(start as int, i + 1);
        proof {
            assert(prefix1.drop_last() =~= prefix);
            assert(prefix1.last() == s@[i as int]);
            assert(digits_val(prefix1) == val * 10 + d);
        }
        if val > (usize::MAX - d) / 10 {
            // The value read so far already overflows `usize`, and digit
            // strings only grow in value as digits are appended.
            proof {
                let m = usize::MAX as int;
                let q = (m - d) / 10;
                assert(q * 10 + (m - d) % 10 == m - d && 0 <= (m - d) % 10 < 10)
                    by (nonlinear_arith)
                    requires
                        q == (m - d) / 10,
                        0 <= d <= 9,
                        m >= 9,
                ;
                assert(val * 10 >= q * 10 + 10) by (nonlinear_arith)
                    requires
                        val >= q + 1,
                ;
                assert(digits_val(prefix1) > m);
                if all_digits(ds) {
                    assert(ds.take(i + 1 - start) =~= prefix1);
                    lemma_digits_val_monotone(ds, i + 1 - start);
                    assert(digits_val(ds) > usize::MAX);
                }
            }
            return None;
        }
        proof {
            let m = usize::MAX as int;
            let q = (m - d) / 10;
            assert(q * 10 <= m - d) by (nonlinear_arith)
                requires
                    q == (m - d) / 10,
                    0 <= d <= 9,
                    m >= 9,
            ;
            assert(val * 10 <= q * 10) by (nonlinear_arith)
                requires
                    val <= q,
            ;
        }
        val = val * 10 + d;
        i += 1;
    }
    proof {
        assert(s@.subrange(start as int, n as int) =~= ds);
    }
    Some(val)
}

} // verus!
