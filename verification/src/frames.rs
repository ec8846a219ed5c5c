//! The frame-file naming convention and the deterministic frame order.
//!
//! Frame files are named `frame<N>.png`, `<N>` a base-10 non-negative
//! integer with no zero-padding requirement. The name is the wire contract
//! between the rasterizer's output naming and the assembler: the assembler
//! derives each file's frame index from its name and always emits frames in
//! ascending numeric-index order, whatever order storage listed them in.
//! Names are handled as bytes; the caller converts to and from its path
//! strings at the boundary.
use vstd::multiset::Multiset;
use vstd::prelude::*;

use crate::errors::RenderError;

verus! {

broadcast use vstd::seq_lib::group_to_multiset_ensures, vstd::multiset::group_multiset_axioms;

/// ASCII `0` through `9`.
pub open spec fn is_ascii_digit(c: u8) -> bool {
    48 <= c <= 57
}

/// The numeric weight of one ASCII digit (0 for a non-digit).
pub open spec fn digit_val(c: u8) -> nat {
    if is_ascii_digit(c) {
        (c - 48) as nat
    } else {
        0
    }
}

/// The base-10 value of a digit string, most significant digit first.
pub open spec fn digits_value(s: Seq<u8>) -> nat
    decreases s.len(),
{
    if s.len() == 0 {
        0
    } else {
        digits_value(s.drop_last()) * 10 + digit_val(s.last())
    }
}

pub open spec fn all_digits(s: Seq<u8>) -> bool {
    forall|i: int| 0 <= i < s.len() ==> is_ascii_digit(s[i])
}

/// The literal prefix `frame`.
pub open spec fn frame_prefix() -> Seq<u8> {
    seq![102u8, 114u8, 97u8, 109u8, 101u8]
}

/// The literal suffix `.png`.
pub open spec fn png_suffix() -> Seq<u8> {
    seq![46u8, 112u8, 110u8, 103u8]
}

/// The digit run between the prefix and the suffix.
pub open spec fn frame_stem(s: Seq<u8>) -> Seq<u8> {
    s.subrange(5, s.len() - 4)
}

/// The name has the shape `frame<digits>.png` with at least one digit.
pub open spec fn has_frame_shape(s: Seq<u8>) -> bool {
    &&& s.len() >= 10
    &&& s.subrange(0, 5) == frame_prefix()
    &&& s.subrange(s.len() - 4, s.len() as int) == png_suffix()
    &&& all_digits(frame_stem(s))
}

/// A name the assembler accepts: the `frame<N>.png` shape, with an index
/// that fits the 64-bit range the core computes in.
pub open spec fn is_frame_name(s: Seq<u8>) -> bool {
    has_frame_shape(s) && digits_value(frame_stem(s)) <= u64::MAX
}

/// The frame index encoded in a well-shaped name.
pub open spec fn frame_index(s: Seq<u8>) -> nat {
    digits_value(frame_stem(s))
}

/// The canonical decimal spelling of `n`, with no leading zeros.
pub open spec fn decimal_digits(n: nat) -> Seq<u8>
    decreases n,
{
    if n < 10 {
        seq![(48 + n) as u8]
    } else {
        decimal_digits(n / 10).push((48 + n % 10) as u8)
    }
}

/// The canonical name of frame `n`: `frame` + decimal digits + `.png`.
pub open spec fn frame_name_for(n: nat) -> Seq<u8> {
    frame_prefix() + decimal_digits(n) + png_suffix()
}

/// Extending a digit string by one character multiplies its value by ten.
proof fn lemma_digits_value_step(s: Seq<u8>, k: int)
    requires
        0 <= k < s.len(),
    ensures
        digits_value(s.take(k + 1)) == digits_value(s.take(k)) * 10 + digit_val(s[k]),
{
    assert(s.take(k + 1).drop_last() =~= s.take(k));
    assert(s.take(k + 1).last() == s[k]);
}

/// A digit string is worth at least any of its prefixes.
proof fn lemma_digits_value_prefix_le(s: Seq<u8>, k: int)
    requires
        0 <= k <= s.len(),
    ensures
        digits_value(s.take(k)) <= digits_value(s),
    decreases s.len() - k,
{
    if k == s.len() {
        assert(s.take(k) =~= s);
    } else {
        lemma_digits_value_step(s, k);
        assert(digits_value(s.take(k)) * 10 >= digits_value(s.take(k))) by (nonlinear_arith);
        lemma_digits_value_prefix_le(s, k + 1);
    }
}

/// The canonical decimal spelling is all digits and reads back as `n`.
proof fn lemma_decimal_digits_ok(n: nat)
    ensures
        decimal_digits(n).len() >= 1,
        all_digits(decimal_digits(n)),
        digits_value(decimal_digits(n)) == n,
    decreases n,
{
    if n < 10 {
        let s = decimal_digits(n);
        assert(s =~= seq![(48 + n) as u8]);
        assert(s.len() == 1);
        assert(s.last() == (48 + n) as u8);
        assert(s.drop_last().len() == 0);
        assert(digits_value(s.drop_last()) == 0);
        assert(digits_value(s) == digits_value(s.drop_last()) * 10 + digit_val(s.last()));
        assert(digit_val((48 + n) as u8) == n);
    } else {
        lemma_decimal_digits_ok(n / 10);
        let s = decimal_digits(n);
        assert(s.drop_last() =~= decimal_digits(n / 10));
        assert(s.last() == (48 + n % 10) as u8);
        assert(digit_val(s.last()) == n % 10);
        assert(digits_value(s) == (n / 10) * 10 + n % 10);
        assert((n / 10) * 10 + n % 10 == n) by (nonlinear_arith);
        assert(forall|i: int|
            0 <= i < s.len() ==> is_ascii_digit(
                #[trigger] s[i],
            )) by {
            assert(forall|i: int|
                0 <= i < s.len() - 1 ==> s[i] == decimal_digits(n / 10)[i]);
        }
    }
}

/// Parses a file name against the `frame<N>.png` pattern: `Some` with the
/// decoded index exactly when the name matches, `None` otherwise.
pub fn parse_frame_name(name: &[u8]) -> (r: Option<u64>)
    ensures
        r is Some ==> is_frame_name(name@) && r.unwrap() as nat == frame_index(name@),
        r is None ==> !is_frame_name(name@),
{
    let n = name.len();
    if n < 10 {
        return None;
    }
    if name[0] != 102 || name[1] != 114 || name[2] != 97 || name[3] != 109 || name[4] != 101 {
        proof {
            assert(!has_frame_shape(name@)) by {
                if name@.subrange(0, 5) == frame_prefix() {
                    assert(name@[0] == 102 && name@[1] == 114 && name@[2] == 97 && name@[3] == 109
                        && name@[4] == 101) by {
                        assert(forall|i: int|
                            0 <= i < 5 ==> name@.subrange(0, 5)[i] == name@[i]);
                    }
                }
            }
        }
        return None;
    }
    if name[n - 4] != 46 || name[n - 3] != 112 || name[n - 2] != 110 || name[n - 1] != 103 {
        proof {
            let len = name@.len() as int;
            assert(!has_frame_shape(name@)) by {
                if name@.subrange(len - 4, len) == png_suffix() {
                    assert(forall|i: int|
                        0 <= i < 4 ==> #[trigger] name@.subrange(len - 4, len)[i] == name@[len - 4
                            + i]);
                }
            }
        }
        return None;
    }
    proof {
        assert(name@.subrange(0, 5) =~= frame_prefix());
        assert(name@.subrange(name@.len() - 4, name@.len() as int) =~= png_suffix());
    }
    let stop = n - 4;
    let mut acc: u64 = 0;
    let mut i: usize = 5;
    while i < stop
        invariant
            5 <= i <= stop,
            stop == name@.len() - 4,
            name@.len() >= 10,
            all_digits(name@.subrange(5, i as int)),
            acc as nat == digits_value(name@.subrange(5, i as int)),
        decreases stop - i,
    {
        let c = name[i];
        if c < 48 || c > 57 {
            proof {
                assert(frame_stem(name@)[i - 5] == name@[i as int]);
            }
            return None;
        }
        let d = (c - 48) as u64;
        let ghost pre = name@.subrange(5, i as int);
        let ghost ext = name@.subrange(5, i + 1 as int);
        proof {
            let stem = frame_stem(name@);
            assert(ext =~= stem.take(i - 5 + 1));
            assert(pre =~= stem.take(i - 5));
            lemma_digits_value_step(stem, i - 5);
            assert(digit_val(stem[i - 5]) == d);
        }
        if acc > (u64::MAX - d) / 10 {
            proof {
                let stem = frame_stem(name@);
                let m = (u64::MAX - d) as int;
                assert(m == 10 * (m / 10) + m % 10);
                assert(acc * 10 >= (m / 10 + 1) * 10) by (nonlinear_arith)
                    requires acc as int >= m / 10 + 1;
                assert(digits_value(ext) > u64::MAX);
                lemma_digits_value_prefix_le(stem, i - 5 + 1);
            }
            return None;
        }
        proof {
            let m = (u64::MAX - d) as int;
            assert(m == 10 * (m / 10) + m % 10);
            assert(acc * 10 <= (m / 10) * 10) by (nonlinear_arith)
                requires acc as int <= m / 10;
        }
        acc = acc * 10 + d;
        i = i + 1;
    }
    proof {
        assert(name@.subrange(5, i as int) =~= frame_stem(name@));
    }
    Some(acc)
}

/// Appends the decimal digits of `n` to `out`, most significant first.
fn push_decimal(out: &mut Vec<u8>, n: u64)
    ensures
        final(out)@ == old(out)@ + decimal_digits(n as nat),
    decreases n,
{
    if n >= 10 {
        push_decimal(out, n / 10);
        out.push((n % 10) as u8 + 48);
        proof {
            assert(final(out)@ =~= old(out)@ + decimal_digits(n as nat));
        }
    } else {
        out.push(n as u8 + 48);
        proof {
            assert(final(out)@ =~= old(out)@ + decimal_digits(n as nat));
        }
    }
}

/// Builds the canonical file name of frame `n`: `frame<n>.png`, base 10,
/// no zero padding.
pub fn frame_file_name(n: u64) -> (r: Vec<u8>)
    ensures
        r@ == frame_name_for(n as nat),
{
    let mut out: Vec<u8> = Vec::new();
    out.push(102);
    out.push(114);
    out.push(97);
    out.push(109);
    out.push(101);
    proof {
        assert(out@ =~= frame_prefix());
    }
    push_decimal(&mut out, n);
    out.push(46);
    out.push(112);
    out.push(110);
    out.push(103);
    proof {
        assert(out@ =~= frame_name_for(n as nat));
    }
    out
}

/// Synthesizes the frame names of an explicit count: exactly
/// `frame0.png` through `frame<count-1>.png`, in that ascending order.
pub fn explicit_frame_names(count: usize) -> (r: Vec<Vec<u8>>)
    ensures
        r@.len() == count,
        forall|i: int| 0 <= i < count ==> (#[trigger] r@[i])@ == frame_name_for(i as nat),
{
    let mut out: Vec<Vec<u8>> = Vec::new();
    let mut i: usize = 0;
    while i < count
        invariant
            i <= count,
            out@.len() == i,
            forall|k: int| 0 <= k < i ==> (#[trigger] out@[k])@ == frame_name_for(k as nat),
        decreases count - i,
    {
        out.push(frame_file_name(i as u64));
        i = i + 1;
    }
    out
}

/// The name sequence a sequence of owned name buffers holds.
pub open spec fn names_deep(s: Seq<Vec<u8>>) -> Seq<Seq<u8>> {
    s.map_values(|n: Vec<u8>| n@)
}

/// The names of a sequence of indexed pairs.
pub open spec fn pair_names(s: Seq<(u64, Vec<u8>)>) -> Seq<Seq<u8>> {
    s.map_values(|p: (u64, Vec<u8>)| p.1@)
}

/// Every pair carries a matching name and its decoded frame index.
spec fn pairs_indexed(s: Seq<(u64, Vec<u8>)>) -> bool {
    forall|k: int|
        0 <= k < s.len() ==> is_frame_name((#[trigger] s[k]).1@) && s[k].0 as nat == frame_index(
            s[k].1@,
        )
}

/// Indices ascend.
spec fn pairs_sorted(s: Seq<(u64, Vec<u8>)>) -> bool {
    forall|i: int, j: int| 0 <= i <= j < s.len() ==> (#[trigger] s[i]).0 <= (#[trigger] s[j]).0
}

/// Orders a storage listing of frame names by ascending numeric frame
/// index. Exactly the listings in which every name matches `frame<N>.png`
/// are accepted; one mismatched name aborts the whole call with a format
/// error rather than being skipped. The result is a permutation of the
/// input; between two names carrying the same index the order is
/// unspecified.
pub fn order_frames(names: Vec<Vec<u8>>) -> (r: Result<Vec<Vec<u8>>, RenderError>)
    ensures
        r is Ok ==> names_deep(r.unwrap()@).to_multiset() == names_deep(names@).to_multiset(),
        r is Ok ==> forall|k: int|
            0 <= k < r.unwrap()@.len() ==> is_frame_name((#[trigger] r.unwrap()@[k])@),
        r is Ok ==> names_sorted(names_deep(r.unwrap()@)),
        r is Err ==> r == Err::<Vec<Vec<u8>>, RenderError>(RenderError::BadFrameName) && exists|
            k: int,
        |
            0 <= k < names@.len() && !is_frame_name((#[trigger] names@[k])@),
        (forall|k: int| 0 <= k < names@.len() ==> is_frame_name((#[trigger] names@[k])@)) ==> r
            is Ok,
{
    let ghost orig = names@;
    let mut k: usize = 0;
    while k < names.len()
        invariant
            k <= orig.len(),
            names@ == orig,
            forall|t: int| 0 <= t < k ==> is_frame_name((#[trigger] orig[t])@),
        decreases orig.len() - k,
    {
        if parse_frame_name(names[k].as_slice()).is_none() {
            return Err(RenderError::BadFrameName);
        }
        k = k + 1;
    }
    let mut rest = names;
    let mut pairs: Vec<(u64, Vec<u8>)> = Vec::new();
    while rest.len() > 0
        invariant
            rest@ == orig.take(rest@.len() as int),
            rest@.len() <= orig.len(),
            forall|t: int| 0 <= t < orig.len() ==> is_frame_name((#[trigger] orig[t])@),
            pairs_indexed(pairs@),
            pair_names(pairs@).to_multiset().add(names_deep(rest@).to_multiset()) == names_deep(
                orig,
            ).to_multiset(),
        decreases rest@.len(),
    {
        let ghost rest_before = rest@;
        let name = match rest.pop() {
            Some(n) => n,
            None => {
                proof {
                    assert(false);
                }
                return Err(RenderError::BadFrameName);
            },
        };
        proof {
            assert(name == orig[rest_before.len() - 1]);
            assert(is_frame_name(name@));
        }
        let idx = match parse_frame_name(name.as_slice()) {
            Some(i) => i,
            None => {
                proof {
                    assert(false);
                }
                return Err(RenderError::BadFrameName);
            },
        };
        let ghost pairs_before = pairs@;
        pairs.push((idx, name));
        proof {
            assert(rest@ =~= orig.take(rest@.len() as int));
            assert(names_deep(rest_before) =~= names_deep(rest@).push(name@));
            assert(pair_names(pairs@) =~= pair_names(pairs_before).push(name@));
            assert(pair_names(pairs@).to_multiset().add(names_deep(rest@).to_multiset())
                =~= pair_names(pairs_before).to_multiset().add(
                names_deep(rest_before).to_multiset(),
            ));
        }
    }
    proof {
        assert(names_deep(rest@).to_multiset() =~= Multiset::<Seq<u8>>::empty());
        assert(pair_names(pairs@).to_multiset().add(Multiset::<Seq<u8>>::empty())
            =~= pair_names(pairs@).to_multiset());
    }
    let mut sorted: Vec<(u64, Vec<u8>)> = Vec::new();
    while pairs.len() > 0
        invariant
            pairs_indexed(pairs@),
            pairs_indexed(sorted@),
            pairs_sorted(sorted@),
            forall|i: int, j: int|
                0 <= i < sorted@.len() && 0 <= j < pairs@.len() ==> (#[trigger] sorted@[i]).0
                    <= (#[trigger] pairs@[j]).0,
            pair_names(sorted@).to_multiset().add(pair_names(pairs@).to_multiset()) == names_deep(
                orig,
            ).to_multiset(),
        decreases pairs@.len(),
    {
        let mut mi: usize = 0;
        let mut j: usize = 1;
        while j < pairs.len()
            invariant
                mi < j,
                1 <= j <= pairs@.len(),
                pairs@.len() > 0,
                forall|t: int| 0 <= t < j ==> (#[trigger] pairs@[t]).0 >= pairs@[mi as int].0,
            decreases pairs@.len() - j,
        {
            if pairs[j].0 < pairs[mi].0 {
                mi = j;
            }
            j = j + 1;
        }
        let ghost pairs_before = pairs@;
        let p = pairs.remove(mi);
        let ghost sorted_before = sorted@;
        sorted.push(p);
        proof {
            let pn_before = pair_names(pairs_before);
            assert(pn_before[mi as int] == p.1@);
            assert(pn_before.contains(pn_before[mi as int]));
            assert(pair_names(pairs@) =~= pn_before.remove(mi as int));
            assert(pair_names(sorted@) =~= pair_names(sorted_before).push(p.1@));
            assert(pair_names(sorted@).to_multiset().add(pair_names(pairs@).to_multiset())
                =~= pair_names(sorted_before).to_multiset().add(pn_before.to_multiset()));
        }
    }
    proof {
        assert(pair_names(pairs@).to_multiset() =~= Multiset::<Seq<u8>>::empty());
        assert(pair_names(sorted@).to_multiset().add(Multiset::<Seq<u8>>::empty())
            =~= pair_names(sorted@).to_multiset());
    }
    let ghost plan = sorted@;
    let mut out: Vec<Vec<u8>> = Vec::new();
    while sorted.len() > 0
        invariant
            out@.len() + sorted@.len() == plan.len(),
            sorted@ == plan.skip(out@.len() as int),
            forall|t: int| 0 <= t < out@.len() ==> (#[trigger] out@[t])@ == pair_names(plan)[t],
            pairs_indexed(plan),
            pairs_sorted(plan),
            pair_names(plan).to_multiset() == names_deep(orig).to_multiset(),
        decreases sorted@.len(),
    {
        let p = sorted.remove(0);
        proof {
            assert(p == plan[out@.len() as int]);
            assert(sorted@ =~= plan.skip(out@.len() as int + 1));
        }
        out.push(p.1);
    }
    proof {
        assert(names_deep(out@) =~= pair_names(plan));
        assert(forall|t: int|
            0 <= t < plan.len() ==> pair_names(plan)[t] == (#[trigger] plan[t]).1@);
    }
    Ok(out)
}

/// Ascending frame-index order over a listing.
pub open spec fn names_sorted(s: Seq<Seq<u8>>) -> bool {
    forall|i: int, j: int|
        0 <= i <= j < s.len() ==> frame_index(#[trigger] s[i]) <= frame_index(#[trigger] s[j])
}

/// No two names of the listing carry the same frame index.
pub open spec fn distinct_indices(s: Seq<Seq<u8>>) -> bool {
    forall|i: int, j: int|
        0 <= i < j < s.len() ==> frame_index(#[trigger] s[i]) != frame_index(#[trigger] s[j])
}

/// The assembler's frame order is pinned: when no two names of a listing
/// share a frame index, there is exactly one permutation of it in
/// ascending index order — so the ordering contract determines the
/// output in full, numerically and not lexicographically.
pub proof fn lemma_sorted_permutation_unique(a: Seq<Seq<u8>>, b: Seq<Seq<u8>>)
    requires
        a.to_multiset() == b.to_multiset(),
        names_sorted(a),
        names_sorted(b),
        distinct_indices(a),
    ensures
        a == b,
    decreases a.len(),
{
    assert(a.len() == a.to_multiset().len());
    assert(b.len() == b.to_multiset().len());
    if a.len() == 0 {
        assert(a =~= b);
    } else {
        assert(a.contains(a[0])) by {
            assert(a.to_multiset().count(a[0]) > 0);
        }
        assert(b.to_multiset().count(a[0]) > 0);
        assert(b.contains(a[0]));
        let k = b.lemma_contains_to_index(a[0]);
        assert(b.to_multiset().count(b[0]) > 0);
        assert(a.to_multiset().count(b[0]) > 0);
        assert(a.contains(b[0]));
        let m = a.lemma_contains_to_index(b[0]);
        assert(frame_index(b[0]) <= frame_index(b[k]));
        assert(frame_index(a[0]) <= frame_index(a[m]));
        assert(frame_index(a[0]) == frame_index(b[0]));
        assert(b[0] == a[0]) by {
            if m != 0 {
                assert(frame_index(a[0]) != frame_index(a[m]));
            }
        }
        let at = a.drop_first();
        let bt = b.drop_first();
        assert(a.remove(0) =~= at);
        assert(b.remove(0) =~= bt);
        assert(at.to_multiset() =~= a.to_multiset().remove(a[0]));
        assert(bt.to_multiset() =~= b.to_multiset().remove(b[0]));
        assert(at.to_multiset() == bt.to_multiset());
        assert(names_sorted(at)) by {
            assert(forall|i: int| 0 <= i < at.len() ==> #[trigger] at[i] == a[i + 1]);
        }
        assert(names_sorted(bt)) by {
            assert(forall|i: int| 0 <= i < bt.len() ==> #[trigger] bt[i] == b[i + 1]);
        }
        assert(distinct_indices(at)) by {
            assert(forall|i: int| 0 <= i < at.len() ==> #[trigger] at[i] == a[i + 1]);
        }
        lemma_sorted_permutation_unique(at, bt);
        assert forall|i: int| 0 <= i < a.len() implies a[i] == b[i] by {
            if i > 0 {
                assert(at[i - 1] == a[i]);
                assert(bt[i - 1] == b[i]);
                assert(at[i - 1] == bt[i - 1]);
            }
        }
        assert(a =~= b);
    }
}

/// Round trip of the naming convention: the canonical name of any index in
/// the 64-bit range matches the pattern and decodes back to that index.
pub proof fn lemma_frame_name_round_trip(n: nat)
    requires
        n <= u64::MAX,
    ensures
        is_frame_name(frame_name_for(n)),
        frame_index(frame_name_for(n)) == n,
{
    lemma_decimal_digits_ok(n);
    let s = frame_name_for(n);
    assert(s.subrange(0, 5) =~= frame_prefix());
    assert(s.subrange(s.len() - 4, s.len() as int) =~= png_suffix());
    assert(frame_stem(s) =~= decimal_digits(n));
}

} // verus!
