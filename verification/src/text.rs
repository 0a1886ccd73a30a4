//! Verified helpers over character sequences: decimal numbers, splitting,
//! trimming, and plain string equality.
//!
//! The spec functions here are the reference grammar for everything the
//! parsers read out of command output lines.

use vstd::prelude::*;

verus! {

/// One trusted rendering primitive: std's `String::push` appends one
/// character.  vstd specifies most `String` operations but not `push`.
#[verifier::external_body]
pub fn push_char(s: &mut String, c: char)
    ensures
        final(s)@ == old(s)@.push(c),
{
    s.push(c);
}

pub open spec fn is_digit(c: char) -> bool {
    48 <= c as u32 <= 57
}

pub open spec fn digit_val(c: char) -> int {
    c as u32 - 48
}

/// All characters are decimal digits (true of the empty sequence).
pub open spec fn all_digits(s: Seq<char>) -> bool {
    forall|i: int| 0 <= i < s.len() ==> is_digit(#[trigger] s[i])
}

/// The numeric value of a digit sequence, most significant digit first.
pub open spec fn dec_value(s: Seq<char>) -> int
    decreases s.len(),
{
    if s.len() == 0 {
        0
    } else {
        dec_value(s.drop_last()) * 10 + digit_val(s.last())
    }
}

/// What a decimal-number field means: a non-empty run of digits, read in
/// base ten.  Anything else is not a number.
pub open spec fn parse_dec_spec(s: Seq<char>) -> Option<int> {
    if s.len() >= 1 && all_digits(s) {
        Some(dec_value(s))
    } else {
        None
    }
}

proof fn lemma_dec_value_nonneg(s: Seq<char>)
    requires
        all_digits(s),
    ensures
        dec_value(s) >= 0,
    decreases s.len(),
{
    if s.len() > 0 {
        assert(all_digits(s.drop_last())) by {
            assert(forall|i: int|
                0 <= i < s.len() - 1 ==> is_digit(#[trigger] s.drop_last()[i]) == is_digit(s[i]));
        }
        lemma_dec_value_nonneg(s.drop_last());
    }
}

/// Parse a non-empty run of decimal digits; `None` on any other text and on
/// values above `u32::MAX`.
pub fn parse_u32(s: &str) -> (r: Option<u32>)
    ensures
        match r {
            Some(v) => parse_dec_spec(s@) == Some(v as int),
            None => parse_dec_spec(s@) is None || parse_dec_spec(s@)->0 > u32::MAX,
        },
{
    let len = s.unicode_len();
    if len == 0 {
        return None;
    }
    let mut acc: u64 = 0;
    let mut i: usize = 0;
    while i < len
        invariant
            0 <= i <= len,
            len == s@.len(),
            all_digits(s@.take(i as int)),
            dec_value(s@.take(i as int)) <= u32::MAX ==> acc == dec_value(s@.take(i as int)),
            dec_value(s@.take(i as int)) > u32::MAX ==> acc == 0x1_0000_0000u64,
            acc <= 0x1_0000_0000u64,
        decreases len - i,
    {
        let c = s.get_char(i);
        let cv = c as u32;
        if cv < 48 || cv > 57 {
            assert(!is_digit(s@[i as int]));
            return None;
        }
        let d: u64 = (cv - 48) as u64;
        proof {
            assert(s@.take(i + 1).drop_last() =~= s@.take(i as int));
            assert(s@.take(i + 1).last() == s@[i as int]);
            lemma_dec_value_nonneg(s@.take(i as int));
        }
        acc = acc * 10 + d;
        if acc > 0xffff_ffffu64 {
            acc = 0x1_0000_0000u64;
        }
        i += 1;
        assert(all_digits(s@.take(i as int))) by {
            assert(forall|k: int|
                0 <= k < i ==> is_digit(#[trigger] s@.take(i as int)[k]) == is_digit(
                    s@.take(i as int)[k],
                ));
        }
    }
    proof {
        assert(s@.take(len as int) =~= s@);
    }
    if acc > 0xffff_ffffu64 {
        None
    } else {
        Some(acc as u32)
    }
}

/// The index of the first occurrence of `sep` at or after `from`, or the
/// length of the sequence when there is none.
pub open spec fn find_from(s: Seq<char>, sep: char, from: int) -> int
    decreases s.len() - from,
{
    if from < 0 || from >= s.len() {
        s.len() as int
    } else if s[from] == sep {
        from
    } else {
        find_from(s, sep, from + 1)
    }
}

pub proof fn lemma_find_from(s: Seq<char>, sep: char, from: int)
    requires
        0 <= from <= s.len(),
    ensures
        from <= find_from(s, sep, from) <= s.len(),
        find_from(s, sep, from) < s.len() ==> s[find_from(s, sep, from)] == sep,
        forall|k: int| from <= k < find_from(s, sep, from) ==> s[k] != sep,
    decreases s.len() - from,
{
    if from < s.len() && s[from] != sep {
        lemma_find_from(s, sep, from + 1);
    }
}

/// Splitting on a separator: the pieces between occurrences of `sep`, with
/// empty pieces kept, as `str::split` yields them.
pub open spec fn spec_split(s: Seq<char>, sep: char) -> Seq<Seq<char>>
    decreases s.len(),
{
    let i = find_from(s, sep, 0);
    if i == s.len() {
        seq![s]
    } else if 0 <= i < s.len() {
        seq![s.take(i)] + spec_split(s.skip(i + 1), sep)
    } else {
        seq![s]
    }
}

proof fn lemma_find_from_prefix_free(s: Seq<char>, sep: char, j: int)
    requires
        0 <= j <= s.len(),
        forall|k: int| 0 <= k < j ==> s[k] != sep,
    ensures
        find_from(s, sep, 0) >= j,
        j < s.len() && s[j] == sep ==> find_from(s, sep, 0) == j,
        j == s.len() ==> find_from(s, sep, 0) == j,
{
    lemma_find_from(s, sep, 0);
    let f = find_from(s, sep, 0);
    if f < j {
        assert(s[f] != sep);
        assert(false);
    }
    if j < s.len() && s[j] == sep && f > j {
        assert(s[j] != sep);
        assert(false);
    }
}

/// One unfolding step of `spec_split`: when the next separator of the
/// remaining suffix sits at absolute index `i`, the piece before it is
/// `s[start..i]`.
proof fn lemma_split_step(s: Seq<char>, sep: char, start: int, i: int)
    requires
        0 <= start <= i <= s.len(),
        forall|k: int| start <= k < i ==> s[k] != sep,
        i < s.len() && s[i] == sep,
    ensures
        spec_split(s.skip(start), sep) == seq![s.subrange(start, i)] + spec_split(
            s.skip(i + 1),
            sep,
        ),
{
    let t = s.skip(start);
    assert(forall|k: int| 0 <= k < i - start ==> t[k] != sep);
    assert(t[i - start] == sep);
    lemma_find_from_prefix_free(t, sep, i - start);
    assert(find_from(t, sep, 0) == i - start);
    assert(t.take(i - start) =~= s.subrange(start, i));
    assert(t.skip(i - start + 1) =~= s.skip(i + 1));
}

/// The final piece: when no separator remains after `start`, the rest is one
/// piece.
proof fn lemma_split_last(s: Seq<char>, sep: char, start: int)
    requires
        0 <= start <= s.len(),
        forall|k: int| start <= k < s.len() ==> s[k] != sep,
    ensures
        spec_split(s.skip(start), sep) == seq![s.subrange(start, s.len() as int)],
{
    let t = s.skip(start);
    assert(forall|k: int| 0 <= k < t.len() ==> t[k] != sep);
    lemma_find_from_prefix_free(t, sep, t.len() as int);
    assert(find_from(t, sep, 0) == t.len());
    assert(t =~= s.subrange(start, s.len() as int));
}

/// Split a string on a separator character, keeping empty pieces.
pub fn split_str(s: &str, sep: char) -> (r: Vec<String>)
    ensures
        r.deep_view() == spec_split(s@, sep),
{
    let len = s.unicode_len();
    let mut parts: Vec<String> = Vec::new();
    let mut start: usize = 0;
    let mut i: usize = 0;
    proof {
        assert(parts.deep_view() =~= Seq::<Seq<char>>::empty());
        assert(s@.skip(0) =~= s@);
        assert(Seq::<Seq<char>>::empty() + spec_split(s@, sep) =~= spec_split(s@, sep));
    }
    while i < len
        invariant
            0 <= start <= i <= len,
            len == s@.len(),
            forall|k: int| start <= k < i ==> s@[k] != sep,
            parts.deep_view() + spec_split(s@.skip(start as int), sep) == spec_split(s@, sep),
        decreases len - i,
    {
        if s.get_char(i) == sep {
            let piece = String::from_str(s.substring_char(start, i));
            proof {
                lemma_split_step(s@, sep, start as int, i as int);
            }
            let ghost old_parts = parts.deep_view();
            parts.push(piece);
            proof {
                assert(parts.deep_view() =~= old_parts.push(piece@));
                assert(old_parts.push(piece@) + spec_split(s@.skip(i + 1), sep) =~= old_parts + (
                seq![piece@] + spec_split(s@.skip(i + 1), sep)));
            }
            start = i + 1;
        }
        i += 1;
    }
    let piece = String::from_str(s.substring_char(start, len));
    proof {
        lemma_split_last(s@, sep, start as int);
    }
    let ghost old_parts = parts.deep_view();
    parts.push(piece);
    proof {
        assert(parts.deep_view() =~= old_parts.push(piece@));
        assert(old_parts.push(piece@) =~= old_parts + seq![piece@]);
    }
    parts
}

pub open spec fn is_space(c: char) -> bool {
    c == ' ' || c == '\t' || c == '\r' || c == '\n'
}

/// Runs of spaces collapsed to a single space, the fixpoint of replacing
/// every two adjacent spaces by one.
pub open spec fn collapse_spaces(s: Seq<char>) -> Seq<char>
    decreases s.len(),
{
    if s.len() == 0 {
        s
    } else if s.len() >= 2 && s[0] == ' ' && s[1] == ' ' {
        collapse_spaces(s.drop_first())
    } else {
        seq![s[0]] + collapse_spaces(s.drop_first())
    }
}

/// Leading and trailing whitespace removed.
pub open spec fn spec_trim(s: Seq<char>) -> Seq<char>
    decreases s.len(),
{
    if s.len() == 0 {
        s
    } else if is_space(s[0]) {
        spec_trim(s.drop_first())
    } else if is_space(s.last()) {
        spec_trim(s.drop_last())
    } else {
        s
    }
}

/// Collapse runs of spaces to one space.
pub fn collapse_spaces_str(s: &str) -> (r: String)
    ensures
        r@ == collapse_spaces(s@),
{
    let len = s.unicode_len();
    let mut out = String::new();
    let mut i: usize = 0;
    proof {
        assert(s@.skip(0) =~= s@);
        assert(out@ + collapse_spaces(s@) =~= collapse_spaces(s@));
    }
    while i < len
        invariant
            0 <= i <= len,
            len == s@.len(),
            out@ + collapse_spaces(s@.skip(i as int)) == collapse_spaces(s@),
        decreases len - i,
    {
        let c = s.get_char(i);
        proof {
            assert(s@.skip(i as int)[0] == s@[i as int]);
            assert(s@.skip(i as int).drop_first() =~= s@.skip(i + 1));
        }
        if c == ' ' && i + 1 < len && s.get_char(i + 1) == ' ' {
            proof {
                assert(s@.skip(i as int)[1] == s@[i + 1]);
            }
        } else {
            push_char(&mut out, c);
            proof {
                assert(out@ + collapse_spaces(s@.skip(i + 1)) =~= collapse_spaces(s@));
            }
        }
        i += 1;
    }
    proof {
        assert(collapse_spaces(s@.skip(len as int)) =~= Seq::<char>::empty());
        assert(out@ =~= out@ + collapse_spaces(s@.skip(len as int)));
    }
    out
}

spec fn trim_bounds_ok(s: Seq<char>, lo: int, hi: int) -> bool {
    &&& 0 <= lo <= hi <= s.len()
    &&& forall|k: int| 0 <= k < lo ==> is_space(s[k])
    &&& forall|k: int| hi <= k < s.len() ==> is_space(s[k])
    &&& (lo < hi ==> !is_space(s[lo]) && !is_space(s[hi - 1]))
    &&& (lo == hi ==> lo == 0 || hi == s.len())
}

proof fn lemma_trim_window(s: Seq<char>, lo: int, hi: int)
    requires
        trim_bounds_ok(s, lo, hi),
    ensures
        spec_trim(s) == s.subrange(lo, hi),
    decreases s.len(),
{
    if s.len() == 0 {
        assert(spec_trim(s) =~= s.subrange(lo, hi));
    } else if is_space(s[0]) {
        if lo == hi {
            if lo == 0 {
                lemma_trim_window(s.drop_first(), 0, 0);
                assert(s.drop_first().subrange(0, 0) =~= s.subrange(lo, hi));
            } else {
                lemma_trim_window(s.drop_first(), (lo - 1) as int, (hi - 1) as int);
                assert(s.drop_first().subrange(lo - 1, hi - 1) =~= s.subrange(lo, hi));
            }
        } else {
            assert(lo >= 1);
            lemma_trim_window(s.drop_first(), lo - 1, hi - 1);
            assert(s.drop_first().subrange(lo - 1, hi - 1) =~= s.subrange(lo, hi));
        }
    } else if is_space(s.last()) {
        assert(hi < s.len() || (lo == hi && hi == s.len()));
        if lo == hi && hi == s.len() {
            assert(!is_space(s[0]));
            assert(false);
        }
        lemma_trim_window(s.drop_last(), lo, hi);
        assert(s.drop_last().subrange(lo, hi) =~= s.subrange(lo, hi));
    } else {
        assert(lo == 0);
        assert(hi == s.len());
        assert(spec_trim(s) == s);
        assert(s.subrange(0, s.len() as int) =~= s);
    }
}

/// Remove leading and trailing whitespace.
pub fn trim_str(s: &str) -> (r: String)
    ensures
        r@ == spec_trim(s@),
{
    let len = s.unicode_len();
    let mut lo: usize = 0;
    while lo < len && is_space_char(s.get_char(lo))
        invariant
            0 <= lo <= len,
            len == s@.len(),
            forall|k: int| 0 <= k < lo ==> is_space(s@[k]),
        decreases len - lo,
    {
        lo += 1;
    }
    let mut hi: usize = len;
    while hi > lo && is_space_char(s.get_char(hi - 1))
        invariant
            lo <= hi <= len,
            len == s@.len(),
            forall|k: int| 0 <= k < lo ==> is_space(s@[k]),
            lo < len ==> !is_space(s@[lo as int]),
            forall|k: int| hi <= k < len ==> is_space(s@[k]),
        decreases hi,
    {
        hi -= 1;
    }
    proof {
        if lo == len {
            assert(trim_bounds_ok(s@, lo as int, lo as int));
        } else {
            assert(trim_bounds_ok(s@, lo as int, hi as int));
        }
        lemma_trim_window(s@, lo as int, hi as int);
    }
    String::from_str(s.substring_char(lo, hi))
}

/// Whitespace test used by trimming.
pub fn is_space_char(c: char) -> (r: bool)
    ensures
        r == is_space(c),
{
    c == ' ' || c == '\t' || c == '\r' || c == '\n'
}

/// Plain string equality, character by character.
pub fn str_eq(a: &str, b: &str) -> (r: bool)
    ensures
        r == (a@ == b@),
{
    let alen = a.unicode_len();
    let blen = b.unicode_len();
    if alen != blen {
        return false;
    }
    let mut i: usize = 0;
    while i < alen
        invariant
            0 <= i <= alen,
            alen == a@.len(),
            alen == b@.len(),
            forall|k: int| 0 <= k < i ==> a@[k] == b@[k],
        decreases alen - i,
    {
        if a.get_char(i) != b.get_char(i) {
            return false;
        }
        i += 1;
    }
    proof {
        assert(a@ =~= b@);
    }
    true
}

/// The decimal rendering of a non-negative number, no sign, no leading
/// zeros (the single digit `0` for zero).
pub open spec fn dec_str(n: int) -> Seq<char>
    recommends
        n >= 0,
    decreases n,
{
    if n < 10 {
        seq![((48 + if n >= 0 {
            n
        } else {
            0
        }) as u8) as char]
    } else {
        dec_str(n / 10) + seq![((48 + n % 10) as u8) as char]
    }
}

/// Render a number in decimal.
pub fn dec_string(n: u64) -> (r: String)
    ensures
        r@ == dec_str(n as int),
    decreases n,
{
    if n < 10 {
        let mut s = String::new();
        push_char(&mut s, ((48 + n) as u8) as char);
        proof {
            assert(s@ =~= dec_str(n as int));
        }
        s
    } else {
        let mut s = dec_string(n / 10);
        push_char(&mut s, ((48 + n % 10) as u8) as char);
        proof {
            assert(s@ =~= dec_str(n as int));
        }
        s
    }
}

/// The lowercase hexadecimal rendering of a non-negative number, no leading
/// zeros.
pub open spec fn hex_digit(d: int) -> char {
    if d < 10 {
        ((48 + if d >= 0 {
            d
        } else {
            0
        }) as u8) as char
    } else {
        ((87 + if d <= 15 {
            d
        } else {
            15
        }) as u8) as char
    }
}

pub open spec fn hex_str(n: int) -> Seq<char>
    recommends
        n >= 0,
    decreases n,
{
    if n < 16 {
        seq![hex_digit(n)]
    } else {
        hex_str(n / 16) + seq![hex_digit(n % 16)]
    }
}

/// Render a number in lowercase hexadecimal.
pub fn hex_string(n: u64) -> (r: String)
    ensures
        r@ == hex_str(n as int),
    decreases n,
{
    if n < 16 {
        let mut s = String::new();
        let d = n;
        if d < 10 {
            push_char(&mut s, ((48 + d) as u8) as char);
        } else {
            push_char(&mut s, ((87 + d) as u8) as char);
        }
        proof {
            assert(s@ =~= hex_str(n as int));
        }
        s
    } else {
        let mut s = hex_string(n / 16);
        let d = n % 16;
        if d < 10 {
            push_char(&mut s, ((48 + d) as u8) as char);
        } else {
            push_char(&mut s, ((87 + d) as u8) as char);
        }
        proof {
            assert(s@ =~= hex_str(n as int));
        }
        s
    }
}

} // verus!
verus! {

/// One piece of a line split: the piece with one trailing carriage return
/// removed.
pub open spec fn strip_cr(s: Seq<char>) -> Seq<char> {
    if s.len() > 0 && s.last() == '\r' {
        s.drop_last()
    } else {
        s
    }
}

/// The lines of a text: pieces between newlines, each with one trailing
/// carriage return removed, and no final empty line after a trailing
/// newline.
pub open spec fn spec_lines(s: Seq<char>) -> Seq<Seq<char>> {
    let parts = spec_split(s, '\n');
    let kept = if parts.len() > 0 && parts.last().len() == 0 {
        parts.drop_last()
    } else {
        parts
    };
    kept.map_values(|p: Seq<char>| strip_cr(p))
}

/// Split a text into lines.
pub fn lines_of(s: &str) -> (r: Vec<String>)
    ensures
        r.deep_view() == spec_lines(s@),
{
    let parts = split_str(s, '\n');
    let ghost pv = parts.deep_view();
    let n = parts.len();
    let keep_n = if n > 0 && parts[n - 1].as_str().unicode_len() == 0 {
        n - 1
    } else {
        n
    };
    proof {
        assert(pv.len() == n);
        if keep_n < n {
            assert(pv.take(keep_n as int) =~= pv.drop_last());
        } else {
            assert(pv.take(keep_n as int) =~= pv);
        }
    }
    let mut out: Vec<String> = Vec::new();
    let mut i: usize = 0;
    proof {
        assert(out.deep_view() =~= pv.take(0).map_values(|p: Seq<char>| strip_cr(p)));
    }
    while i < keep_n
        invariant
            0 <= i <= keep_n <= n,
            pv == parts.deep_view(),
            n == pv.len(),
            out.deep_view() == pv.take(i as int).map_values(|p: Seq<char>| strip_cr(p)),
        decreases keep_n - i,
    {
        let piece = parts[i].as_str();
        proof {
            assert(piece@ == pv[i as int]);
        }
        let plen = piece.unicode_len();
        let stripped = if plen > 0 && piece.get_char(plen - 1) == '\r' {
            String::from_str(piece.substring_char(0, plen - 1))
        } else {
            String::from_str(piece)
        };
        proof {
            if plen > 0 && piece@.last() == '\r' {
                assert(piece@.subrange(0, plen - 1) =~= piece@.drop_last());
            }
            assert(stripped@ == strip_cr(pv[i as int]));
        }
        let ghost prev = out.deep_view();
        let ghost sv = stripped@;
        out.push(stripped);
        i += 1;
        proof {
            assert(out.deep_view() =~= prev.push(sv));
            assert(out.deep_view() =~= pv.take(i as int).map_values(|p: Seq<char>| strip_cr(p)));
        }
    }
    proof {
        let kept = if pv.len() > 0 && pv.last().len() == 0 {
            pv.drop_last()
        } else {
            pv
        };
        assert(pv.take(keep_n as int) =~= kept);
    }
    out
}

} // verus!
verus! {

/// The text holds the given substring.
pub open spec fn has_sub(s: Seq<char>, sub: Seq<char>) -> bool {
    exists|i: int|
        0 <= i <= s.len() - sub.len() && #[trigger] s.subrange(i, i + sub.len() as int) == sub
}

/// Substring search.
pub fn contains_sub(s: &str, sub: &str) -> (r: bool)
    ensures
        r == has_sub(s@, sub@),
{
    let slen = s.unicode_len();
    let sublen = sub.unicode_len();
    if sublen > slen {
        proof {
            assert(!has_sub(s@, sub@));
        }
        return false;
    }
    let mut i: usize = 0;
    while i <= slen - sublen
        invariant
            0 <= i,
            i <= slen - sublen + 1,
            sublen <= slen,
            slen == s@.len(),
            sublen == sub@.len(),
            forall|j: int|
                0 <= j < i ==> #[trigger] s@.subrange(j, j + sub@.len() as int) != sub@,
        decreases slen - sublen + 1 - i,
    {
        let mut k: usize = 0;
        while k < sublen && s.get_char(i + k) == sub.get_char(k)
            invariant
                0 <= k <= sublen,
                i + sublen <= slen,
                slen == s@.len(),
                sublen == sub@.len(),
                forall|m: int| 0 <= m < k ==> s@[i + m] == sub@[m],
            decreases sublen - k,
        {
            k += 1;
        }
        if k == sublen {
            proof {
                assert(s@.subrange(i as int, i + sub@.len() as int) =~= sub@);
            }
            return true;
        }
        proof {
            assert(s@[i + k as int] != sub@[k as int]);
            assert(s@.subrange(i as int, i + sub@.len() as int) != sub@) by {
                assert(s@.subrange(i as int, i + sub@.len() as int)[k as int] == s@[i + k as int]);
            }
        }
        i += 1;
    }
    proof {
        assert(!has_sub(s@, sub@));
    }
    false
}

} // verus!
