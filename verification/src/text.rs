//! Byte-level text utilities: ASCII case folding, substring search and
//! digit-string parsing.  The remote feeds arrive as UTF-8 bytes, and all
//! matching in this crate is defined over those bytes; ASCII case folding
//! is safe on UTF-8 because every byte of a multi-byte character is at
//! least 0x80 and is left unchanged.

use vstd::prelude::*;

verus! {

/// The UTF-8 bytes of a character sequence; all byte-level matching in
/// this crate is defined over these.
pub open spec fn utf8_bytes(s: Seq<char>) -> Seq<u8> {
    vstd::utf8::encode_utf8(s)
}

/// Case-folded image of one byte: ASCII capital letters map to the
/// corresponding small letter, every other byte is unchanged.
pub open spec fn lower_byte(b: u8) -> u8 {
    if 65 <= b <= 90 {
        (b + 32) as u8
    } else {
        b
    }
}

/// Byte-wise ASCII case folding of a byte string.
pub open spec fn lower_bytes(s: Seq<u8>) -> Seq<u8> {
    s.map_values(|b: u8| lower_byte(b))
}

/// `pat` occurs in `s` starting at offset `i`.
pub open spec fn matches_at(s: Seq<u8>, pat: Seq<u8>, i: int) -> bool {
    0 <= i && i + pat.len() <= s.len() && s.subrange(i, i + pat.len()) == pat
}

/// `pat` occurs somewhere in `s`.
pub open spec fn contains_bytes(s: Seq<u8>, pat: Seq<u8>) -> bool {
    exists|i: int| matches_at(s, pat, i)
}

/// `pat` occurs somewhere in `s`, ignoring ASCII case.
pub open spec fn contains_bytes_ci(s: Seq<u8>, pat: Seq<u8>) -> bool {
    contains_bytes(lower_bytes(s), lower_bytes(pat))
}

/// The two byte strings are equal, ignoring ASCII case.
pub open spec fn eq_bytes_ci(a: Seq<u8>, b: Seq<u8>) -> bool {
    lower_bytes(a) == lower_bytes(b)
}

pub fn eq_bytes(a: &[u8], b: &[u8]) -> (r: bool)
    ensures
        r == (a@ == b@),
{
    if a.len() != b.len() {
        return false;
    }
    let mut i: usize = 0;
    while i < a.len()
        invariant
            i <= a@.len(),
            a@.len() == b@.len(),
            forall|j: int| 0 <= j < i ==> a@[j] == b@[j],
        decreases a@.len() - i,
    {
        if a[i] != b[i] {
            return false;
        }
        i = i + 1;
    }
    proof {
        assert(a@ =~= b@);
    }
    true
}

/// Whether `pat` occurs in `s` at the fixed offset `i`.
fn is_match_at(s: &[u8], pat: &[u8], i: usize) -> (r: bool)
    requires
        i + pat@.len() <= s@.len(),
    ensures
        r == matches_at(s@, pat@, i as int),
{
    proof {
        assert(s.len() == s@.len());
    }
    let ghost sub = s@.subrange(i as int, i + pat@.len());
    let mut j: usize = 0;
    while j < pat.len()
        invariant
            j <= pat@.len(),
            i + pat@.len() <= s@.len(),
            s@.len() <= usize::MAX,
            sub == s@.subrange(i as int, i + pat@.len()),
            forall|k: int| 0 <= k < j ==> s@[i + k] == pat@[k],
        decreases pat@.len() - j,
    {
        if s[i + j] != pat[j] {
            proof {
                assert(sub[j as int] == s@[i + j]);
            }
            return false;
        }
        j = j + 1;
    }
    proof {
        assert(sub =~= pat@);
    }
    true
}

pub fn contains_sub(s: &[u8], pat: &[u8]) -> (r: bool)
    ensures
        r == contains_bytes(s@, pat@),
{
    if pat.len() > s.len() {
        proof {
            assert(forall|i: int| !matches_at(s@, pat@, i));
        }
        return false;
    }
    if pat.len() == 0 {
        proof {
            assert(s@.subrange(0, 0) =~= pat@);
            assert(matches_at(s@, pat@, 0));
        }
        return true;
    }
    let last = s.len() - pat.len();
    let mut i: usize = 0;
    while i <= last
        invariant
            1 <= pat@.len() <= s@.len(),
            s@.len() <= usize::MAX,
            last == s@.len() - pat@.len(),
            i <= last + 1,
            forall|j: int| 0 <= j < i ==> !matches_at(s@, pat@, j),
        decreases last + 1 - i,
    {
        if is_match_at(s, pat, i) {
            return true;
        }
        i = i + 1;
    }
    proof {
        assert(forall|j: int| matches_at(s@, pat@, j) ==> 0 <= j <= last);
    }
    false
}

pub fn lower_ascii(s: &[u8]) -> (r: Vec<u8>)
    ensures
        r@ == lower_bytes(s@),
{
    let mut out: Vec<u8> = Vec::new();
    let mut i: usize = 0;
    while i < s.len()
        invariant
            i <= s@.len(),
            out@.len() == i,
            forall|j: int| 0 <= j < i ==> out@[j] == lower_byte(s@[j]),
        decreases s@.len() - i,
    {
        let b = s[i];
        if 65 <= b && b <= 90 {
            out.push(b + 32);
        } else {
            out.push(b);
        }
        i = i + 1;
    }
    proof {
        assert(out@ =~= lower_bytes(s@));
    }
    out
}

pub fn contains_sub_ci(s: &[u8], pat: &[u8]) -> (r: bool)
    ensures
        r == contains_bytes_ci(s@, pat@),
{
    let ls = lower_ascii(s);
    let lp = lower_ascii(pat);
    contains_sub(ls.as_slice(), lp.as_slice())
}

pub fn eq_sub_ci(a: &[u8], b: &[u8]) -> (r: bool)
    ensures
        r == eq_bytes_ci(a@, b@),
{
    let la = lower_ascii(a);
    let lb = lower_ascii(b);
    eq_bytes(la.as_slice(), lb.as_slice())
}

/// `pat` is a prefix of `s`.
pub open spec fn starts_with_bytes(s: Seq<u8>, pat: Seq<u8>) -> bool {
    matches_at(s, pat, 0)
}

/// `pat` is a prefix of `s`, ignoring ASCII case.
pub open spec fn starts_with_ci(s: Seq<u8>, pat: Seq<u8>) -> bool {
    starts_with_bytes(lower_bytes(s), lower_bytes(pat))
}

pub fn starts_with_sub(s: &[u8], pat: &[u8]) -> (r: bool)
    ensures
        r == starts_with_bytes(s@, pat@),
{
    if pat.len() > s.len() {
        return false;
    }
    is_match_at(s, pat, 0)
}

pub fn starts_with_sub_ci(s: &[u8], pat: &[u8]) -> (r: bool)
    ensures
        r == starts_with_ci(s@, pat@),
{
    let ls = lower_ascii(s);
    let lp = lower_ascii(pat);
    starts_with_sub(ls.as_slice(), lp.as_slice())
}

/// Byte-lexicographic order on byte strings: the order a binary text
/// collation gives.  A proper prefix comes first.
pub open spec fn lex_leq(a: Seq<u8>, b: Seq<u8>) -> bool
    decreases a.len(),
{
    if a.len() == 0 {
        true
    } else if b.len() == 0 {
        false
    } else if a[0] < b[0] {
        true
    } else if a[0] > b[0] {
        false
    } else {
        lex_leq(a.drop_first(), b.drop_first())
    }
}

pub proof fn lemma_lex_refl(a: Seq<u8>)
    ensures
        lex_leq(a, a),
    decreases a.len(),
{
    if a.len() > 0 {
        lemma_lex_refl(a.drop_first());
    }
}

pub proof fn lemma_lex_total(a: Seq<u8>, b: Seq<u8>)
    ensures
        lex_leq(a, b) || lex_leq(b, a),
    decreases a.len(),
{
    if a.len() > 0 && b.len() > 0 && a[0] == b[0] {
        lemma_lex_total(a.drop_first(), b.drop_first());
    }
}

pub proof fn lemma_lex_trans(a: Seq<u8>, b: Seq<u8>, c: Seq<u8>)
    requires
        lex_leq(a, b),
        lex_leq(b, c),
    ensures
        lex_leq(a, c),
    decreases a.len(),
{
    if a.len() > 0 {
        // b and c cannot be empty below a non-empty predecessor
        assert(b.len() > 0);
        assert(c.len() > 0);
        if a[0] == b[0] && b[0] == c[0] {
            lemma_lex_trans(a.drop_first(), b.drop_first(), c.drop_first());
        }
    }
}

pub proof fn lemma_lex_antisym(a: Seq<u8>, b: Seq<u8>)
    requires
        lex_leq(a, b),
        lex_leq(b, a),
    ensures
        a == b,
    decreases a.len(),
{
    if a.len() == 0 {
        assert(b.len() == 0);
        assert(a =~= b);
    } else {
        assert(b.len() > 0);
        assert(a[0] == b[0]);
        lemma_lex_antisym(a.drop_first(), b.drop_first());
        assert(a =~= b) by {
            assert(forall|i: int|
                1 <= i < a.len() ==> #[trigger] a[i] == a.drop_first()[i - 1] && b[i]
                    == b.drop_first()[i - 1]);
        }
    }
}

pub fn lex_le(a: &[u8], b: &[u8]) -> (r: bool)
    ensures
        r == lex_leq(a@, b@),
{
    proof {
        assert(a@.skip(0) =~= a@);
        assert(b@.skip(0) =~= b@);
    }
    let mut i: usize = 0;
    while i < a.len() && i < b.len()
        invariant
            i <= a@.len(),
            i <= b@.len(),
            lex_leq(a@, b@) == lex_leq(a@.skip(i as int), b@.skip(i as int)),
        decreases a@.len() - i,
    {
        let ghost sa = a@.skip(i as int);
        let ghost sb = b@.skip(i as int);
        proof {
            assert(sa[0] == a@[i as int]);
            assert(sb[0] == b@[i as int]);
            assert(sa.drop_first() =~= a@.skip(i + 1));
            assert(sb.drop_first() =~= b@.skip(i + 1));
        }
        if a[i] < b[i] {
            return true;
        }
        if a[i] > b[i] {
            return false;
        }
        i = i + 1;
    }
    proof {
        assert(a@.skip(i as int).len() == a@.len() - i);
        assert(b@.skip(i as int).len() == b@.len() - i);
    }
    a.len() <= b.len()
}

pub open spec fn is_ascii_digit(b: u8) -> bool {
    48 <= b <= 57
}

pub open spec fn all_digits(s: Seq<u8>) -> bool {
    forall|i: int| 0 <= i < s.len() ==> is_ascii_digit(#[trigger] s[i])
}

/// Numeric value of a digit string, most significant digit first.
pub open spec fn digits_value(s: Seq<u8>) -> nat
    decreases s.len(),
{
    if s.len() == 0 {
        0
    } else {
        digits_value(s.drop_last()) * 10 + (s.last() - 48) as nat
    }
}

proof fn lemma_digits_value_prefix(s: Seq<u8>, i: int)
    requires
        0 <= i <= s.len(),
    ensures
        digits_value(s.take(i)) <= digits_value(s),
    decreases s.len() - i,
{
    if i == s.len() {
        assert(s.take(i) =~= s);
    } else {
        assert(s.take(i + 1).drop_last() =~= s.take(i));
        assert(s.take(i + 1).last() == s[i]);
        assert(digits_value(s.take(i)) <= digits_value(s.take(i)) * 10 + (s[i] - 48) as nat);
        lemma_digits_value_prefix(s, i + 1);
    }
}

/// Parses an unsigned decimal digit string.  Accepts exactly the strings
/// that are non-empty, all digits, and whose value fits in a `u32`.
pub fn parse_u32_digits(s: &[u8]) -> (r: Option<u32>)
    ensures
        r is Some <==> (s@.len() > 0 && all_digits(s@) && digits_value(s@) <= u32::MAX),
        r matches Some(v) ==> v as nat == digits_value(s@),
{
    if s.len() == 0 {
        return None;
    }
    let mut acc: u64 = 0;
    let mut i: usize = 0;
    while i < s.len()
        invariant
            i <= s@.len(),
            all_digits(s@.take(i as int)),
            acc == digits_value(s@.take(i as int)),
            acc <= u32::MAX,
        decreases s@.len() - i,
    {
        let b = s[i];
        if b < 48 || b > 57 {
            assert(!all_digits(s@));
            return None;
        }
        proof {
            assert(s@.take(i + 1).drop_last() =~= s@.take(i as int));
            assert(s@.take(i + 1).last() == s@[i as int]);
        }
        acc = acc * 10 + (b - 48) as u64;
        if acc > u32::MAX as u64 {
            proof {
                lemma_digits_value_prefix(s@, i + 1);
            }
            return None;
        }
        i = i + 1;
    }
    proof {
        assert(s@.take(s@.len() as int) =~= s@);
    }
    Some(acc as u32)
}

/// A non-empty all-digit string.
pub open spec fn is_digits1(s: Seq<u8>) -> bool {
    s.len() > 0 && all_digits(s)
}

/// The grammar this crate accepts for the decimal counts carried by the
/// gene-dependency feed: an optional sign, one or more digits, and an
/// optional fractional part introduced by a single dot.
pub open spec fn is_decimal_text(s: Seq<u8>) -> bool {
    if s.len() > 0 && (s[0] == 43 || s[0] == 45) {
        is_unsigned_decimal(s.subrange(1, s.len() as int))
    } else {
        is_unsigned_decimal(s)
    }
}

pub open spec fn is_unsigned_decimal(s: Seq<u8>) -> bool {
    is_digits1(s) || (exists|k: int|
        0 < k < s.len() && #[trigger] s[k] == 46 && is_digits1(s.subrange(0, k)) && is_digits1(
            s.subrange(k + 1, s.len() as int),
        ))
}

/// Index of the first occurrence of `b`, if any.
fn find_byte(s: &[u8], b: u8, from: usize) -> (r: Option<usize>)
    requires
        from <= s@.len(),
    ensures
        r matches Some(k) ==> from <= k < s@.len() && s@[k as int] == b && forall|j: int|
            from <= j < k ==> s@[j] != b,
        r is None ==> forall|j: int| from <= j < s@.len() ==> s@[j] != b,
{
    let mut i: usize = from;
    while i < s.len()
        invariant
            from <= i <= s@.len(),
            forall|j: int| from <= j < i ==> s@[j] != b,
        decreases s@.len() - i,
    {
        if s[i] == b {
            return Some(i);
        }
        i = i + 1;
    }
    None
}

fn all_digits_exec(s: &[u8]) -> (r: bool)
    ensures
        r == all_digits(s@),
{
    let mut i: usize = 0;
    while i < s.len()
        invariant
            i <= s@.len(),
            forall|j: int| 0 <= j < i ==> is_ascii_digit(#[trigger] s@[j]),
        decreases s@.len() - i,
    {
        let b = s[i];
        if b < 48 || b > 57 {
            return false;
        }
        i = i + 1;
    }
    true
}

fn is_unsigned_decimal_exec(s: &[u8]) -> (r: bool)
    ensures
        r == is_unsigned_decimal(s@),
{
    match find_byte(s, 46, 0) {
        None => {
            let r = s.len() > 0 && all_digits_exec(s);
            proof {
                if !r {
                    assert(forall|k: int| 0 < k < s@.len() ==> s@[k] != 46);
                }
            }
            r
        },
        Some(k) => {
            let n = s.len();
            if k == 0 || k + 1 >= n {
                proof {
                    // any split point would have a digit-only prefix, but the
                    // first byte is the dot, or the fractional part is empty
                    assert forall|j: int|
                        !(0 < j < s@.len() && s@[j] == 46 && is_digits1(s@.subrange(0, j))
                            && is_digits1(s@.subrange(j + 1, s@.len() as int))) by {
                        if 0 < j < s@.len() && s@[j] == 46 {
                            if k == 0 {
                                assert(s@.subrange(0, j)[0] == s@[0]);
                                assert(!is_ascii_digit(s@.subrange(0, j)[0]));
                            } else {
                                assert(j == k);
                            }
                        }
                    }
                    assert(!is_digits1(s@));
                }
                return false;
            }
            let head = all_digits_exec(slice_take(s, k));
            let tail_ok = {
                let t = slice_from(s, k + 1);
                t.len() > 0 && all_digits_exec(t)
            };
            let r = head && tail_ok;
            proof {
                assert(s@.subrange(0, k as int).len() > 0);
                if r {
                    assert(0 < k < s@.len() && s@[k as int] == 46 && is_digits1(
                        s@.subrange(0, k as int),
                    ) && is_digits1(s@.subrange(k + 1, s@.len() as int)));
                } else {
                    assert(!is_ascii_digit(46u8));
                    assert(!is_digits1(s@)) by {
                        assert(s@[k as int] == 46);
                    }
                    assert forall|j: int|
                        !(0 < j < s@.len() && s@[j] == 46 && is_digits1(s@.subrange(0, j))
                            && is_digits1(s@.subrange(j + 1, s@.len() as int))) by {
                        if 0 < j < s@.len() && s@[j] == 46 {
                            if j < k {
                                assert(s@[j] != 46);
                            } else if j == k {
                            } else {
                                assert(s@.subrange(0, j)[k as int] == s@[k as int]);
                                assert(!all_digits(s@.subrange(0, j)));
                            }
                        }
                    }
                }
            }
            r
        },
    }
}

pub fn is_decimal_text_exec(s: &[u8]) -> (r: bool)
    ensures
        r == is_decimal_text(s@),
{
    if s.len() > 0 && (s[0] == 43 || s[0] == 45) {
        is_unsigned_decimal_exec(slice_from(s, 1))
    } else {
        is_unsigned_decimal_exec(s)
    }
}

/// The prefix of `s` of length `k`.
pub fn slice_take(s: &[u8], k: usize) -> (r: &[u8])
    requires
        k <= s@.len(),
    ensures
        r@ == s@.subrange(0, k as int),
{
    vstd::slice::slice_subrange(s, 0, k)
}

/// The suffix of `s` starting at `k`.
pub fn slice_from(s: &[u8], k: usize) -> (r: &[u8])
    requires
        k <= s@.len(),
    ensures
        r@ == s@.subrange(k as int, s@.len() as int),
{
    vstd::slice::slice_subrange(s, k, s.len())
}

} // verus!
