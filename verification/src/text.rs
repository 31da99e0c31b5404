//! Byte-level scanning of program text: line splitting, whitespace
//! trimming, and token boundaries.  The program text is ASCII, so all
//! of it is specified directly over sequences of bytes.

use vstd::prelude::*;

verus! {

/// Whitespace bytes recognised inside and around instruction lines.
pub open spec fn is_space(b: u8) -> bool {
    b == 32 || (9 <= b && b <= 13)
}

/// Executable mirror of [`is_space`].
pub fn byte_is_space(b: u8) -> (r: bool)
    ensures
        r == is_space(b),
{
    b == 32 || (9 <= b && b <= 13)
}

/// Index of the first newline byte in `s`, or `s.len()` if there is none.
pub open spec fn find_nl(s: Seq<u8>) -> int
    decreases s.len(),
{
    if s.len() == 0 {
        0
    } else if s[0] == 10 {
        0
    } else {
        1 + find_nl(s.drop_first())
    }
}

pub proof fn lemma_find_nl(s: Seq<u8>)
    ensures
        0 <= find_nl(s) <= s.len(),
        find_nl(s) < s.len() ==> s[find_nl(s)] == 10,
        forall|j: int| 0 <= j < find_nl(s) ==> s[j] != 10,
    decreases s.len(),
{
    if s.len() == 0 {
    } else if s[0] == 10 {
    } else {
        lemma_find_nl(s.drop_first());
        assert forall|j: int| 0 <= j < find_nl(s) implies s[j] != 10 by {
            if j > 0 {
                assert(s.drop_first()[j - 1] == s[j]);
            }
        }
    }
}

/// Index of the first whitespace byte in `s`, or `s.len()` if there is none.
pub open spec fn find_space(s: Seq<u8>) -> int
    decreases s.len(),
{
    if s.len() == 0 {
        0
    } else if is_space(s[0]) {
        0
    } else {
        1 + find_space(s.drop_first())
    }
}

pub proof fn lemma_find_space(s: Seq<u8>)
    ensures
        0 <= find_space(s) <= s.len(),
        find_space(s) < s.len() ==> is_space(s[find_space(s)]),
        forall|j: int| 0 <= j < find_space(s) ==> !is_space(s[j]),
    decreases s.len(),
{
    if s.len() == 0 {
    } else if is_space(s[0]) {
    } else {
        lemma_find_space(s.drop_first());
        assert forall|j: int| 0 <= j < find_space(s) implies !is_space(s[j]) by {
            if j > 0 {
                assert(s.drop_first()[j - 1] == s[j]);
            }
        }
    }
}

/// `s` without its leading whitespace.
pub open spec fn ltrim(s: Seq<u8>) -> Seq<u8>
    decreases s.len(),
{
    if s.len() > 0 && is_space(s[0]) {
        ltrim(s.drop_first())
    } else {
        s
    }
}

/// `s` without its trailing whitespace.
pub open spec fn rtrim(s: Seq<u8>) -> Seq<u8>
    decreases s.len(),
{
    if s.len() > 0 && is_space(s.last()) {
        rtrim(s.drop_last())
    } else {
        s
    }
}

/// `s` without leading and trailing whitespace.
pub open spec fn trim(s: Seq<u8>) -> Seq<u8> {
    rtrim(ltrim(s))
}

pub proof fn lemma_ltrim_skip(s: Seq<u8>, a: int)
    requires
        0 <= a <= s.len(),
        forall|j: int| 0 <= j < a ==> is_space(s[j]),
        a < s.len() ==> !is_space(s[a]),
    ensures
        ltrim(s) == s.skip(a),
    decreases a,
{
    if a == 0 {
        assert(s.skip(0) =~= s);
    } else {
        assert(is_space(s[0]));
        lemma_ltrim_skip(s.drop_first(), a - 1);
        assert(s.drop_first().skip(a - 1) =~= s.skip(a));
    }
}

pub proof fn lemma_rtrim_take(s: Seq<u8>, b: int)
    requires
        0 <= b <= s.len(),
        forall|j: int| b <= j < s.len() ==> is_space(s[j]),
        b > 0 ==> !is_space(s[b - 1]),
    ensures
        rtrim(s) == s.take(b),
    decreases s.len(),
{
    if b == s.len() {
        assert(s.take(b) =~= s);
    } else {
        assert(is_space(s.last()));
        lemma_rtrim_take(s.drop_last(), b);
        assert(s.drop_last().take(b) =~= s.take(b));
    }
}

/// The lines of `s`, split at every newline byte.  A trailing newline
/// yields a final empty line, as splitting on a separator does.
pub open spec fn spec_lines(s: Seq<u8>) -> Seq<Seq<u8>>
    decreases s.len(),
{
    let r = find_nl(s);
    if 0 <= r && r < s.len() {
        seq![s.take(r)] + spec_lines(s.skip(r + 1))
    } else {
        seq![s]
    }
}

/// The byte sequences held by a sequence of owned lines.
pub open spec fn lines_view(ls: Seq<Vec<u8>>) -> Seq<Seq<u8>> {
    ls.map_values(|v: Vec<u8>| v@)
}

pub proof fn lemma_lines_view_push(ls: Seq<Vec<u8>>, v: Vec<u8>)
    ensures
        lines_view(ls.push(v)) == lines_view(ls).push(v@),
{
    assert(lines_view(ls.push(v)) =~= lines_view(ls).push(v@));
}

/// Splits `src` at newline bytes into owned lines.
pub fn split_lines(src: &[u8]) -> (r: Vec<Vec<u8>>)
    ensures
        lines_view(r@) == spec_lines(src@),
{
    let mut out: Vec<Vec<u8>> = Vec::new();
    let mut start: usize = 0;
    let mut i: usize = 0;
    proof {
        assert(src@.skip(0) =~= src@);
        assert(lines_view(out@) =~= Seq::<Seq<u8>>::empty());
        assert(Seq::<Seq<u8>>::empty() + spec_lines(src@) =~= spec_lines(src@));
    }
    while i < src.len()
        invariant
            0 <= start <= i <= src@.len(),
            forall|j: int| start <= j < i ==> src@[j] != 10,
            spec_lines(src@) == lines_view(out@) + spec_lines(src@.skip(start as int)),
        decreases src@.len() - i,
    {
        if src[i] == 10 {
            let line = vstd::slice::slice_to_vec(vstd::slice::slice_subrange(src, start, i));
            proof {
                let rest = src@.skip(start as int);
                lemma_find_nl(rest);
                let k = i - start;
                assert(rest[k] == src@[i as int]);
                assert forall|j: int| 0 <= j < k implies rest[j] != 10 by {
                    assert(rest[j] == src@[start + j]);
                }
                assert(find_nl(rest) == k);
                assert(rest.take(k) =~= src@.subrange(start as int, i as int));
                assert(rest.skip(k + 1) =~= src@.skip(i + 1));
                assert(spec_lines(rest) == seq![rest.take(k)] + spec_lines(rest.skip(k + 1)));
                lemma_lines_view_push(out@, line);
                assert(lines_view(out@).push(line@) + spec_lines(src@.skip(i + 1)) =~= lines_view(
                    out@,
                ) + (seq![rest.take(k)] + spec_lines(rest.skip(k + 1))));
            }
            out.push(line);
            start = i + 1;
        }
        i += 1;
    }
    let line = vstd::slice::slice_to_vec(vstd::slice::slice_subrange(src, start, src.len()));
    proof {
        let rest = src@.skip(start as int);
        lemma_find_nl(rest);
        assert forall|j: int| 0 <= j < rest.len() implies rest[j] != 10 by {
            assert(rest[j] == src@[start + j]);
        }
        assert(find_nl(rest) == rest.len());
        assert(spec_lines(rest) == seq![rest]);
        assert(rest =~= src@.subrange(start as int, src@.len() as int));
        lemma_lines_view_push(out@, line);
        assert(lines_view(out@).push(line@) =~= lines_view(out@) + seq![rest]);
    }
    out.push(line);
    out
}

/// Returns `s` without leading and trailing whitespace.
pub fn trim_slice<'a>(s: &'a [u8]) -> (r: &'a [u8])
    ensures
        r@ == trim(s@),
{
    let mut a: usize = 0;
    while a < s.len() && byte_is_space(s[a])
        invariant
            0 <= a <= s@.len(),
            forall|j: int| 0 <= j < a ==> is_space(s@[j]),
        decreases s@.len() - a,
    {
        a += 1;
    }
    if a == s.len() {
        proof {
            lemma_ltrim_skip(s@, a as int);
            assert(s@.skip(a as int) =~= Seq::<u8>::empty());
            assert(rtrim(Seq::<u8>::empty()) == Seq::<u8>::empty());
            assert(s@.subrange(a as int, a as int) =~= Seq::<u8>::empty());
        }
        return vstd::slice::slice_subrange(s, a, a);
    }
    assert(!is_space(s@[a as int]));
    let mut b: usize = s.len();
    while b > a && byte_is_space(s[b - 1])
        invariant
            a < s@.len(),
            a <= b <= s@.len(),
            forall|j: int| b <= j < s@.len() ==> is_space(s@[j]),
        decreases b,
    {
        b -= 1;
    }
    proof {
        assert(b > a) by {
            if b == a {
                assert(is_space(s@[a as int]));
            }
        }
        lemma_ltrim_skip(s@, a as int);
        let rest = s@.skip(a as int);
        assert forall|j: int| b - a <= j < rest.len() implies is_space(rest[j]) by {
            assert(rest[j] == s@[a + j]);
        }
        assert(rest[b - a - 1] == s@[b - 1]);
        lemma_rtrim_take(rest, b - a);
        assert(rest.take(b - a) =~= s@.subrange(a as int, b as int));
    }
    vstd::slice::slice_subrange(s, a, b)
}

/// Byte-for-byte equality of two slices.
pub fn bytes_eq(a: &[u8], b: &[u8]) -> (r: bool)
    ensures
        r == (a@ == b@),
{
    if a.len() != b.len() {
        return false;
    }
    let mut i: usize = 0;
    while i < a.len()
        invariant
            a@.len() == b@.len(),
            0 <= i <= a@.len(),
            forall|j: int| 0 <= j < i ==> a@[j] == b@[j],
        decreases a@.len() - i,
    {
        if a[i] != b[i] {
            return false;
        }
        i += 1;
    }
    proof {
        assert(a@ =~= b@);
    }
    true
}

} // verus!
