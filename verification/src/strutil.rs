use vstd::prelude::*;

verus! {

// ---------------------------------------------------------------------------
// Character classes
// ---------------------------------------------------------------------------

/// Whitespace tolerated around a wire frame.
pub open spec fn is_space_char(c: char) -> bool {
    c == ' ' || c == '\t' || c == '\n' || c == '\r'
}

pub open spec fn is_digit_char(c: char) -> bool {
    48 <= c as int && c as int <= 57
}

/// Numeric value of a decimal digit character.
pub open spec fn digit_val(c: char) -> nat {
    (c as int - 48) as nat
}

/// The character for a decimal digit below ten.
pub open spec fn digit_char_spec(d: nat) -> char {
    (((48 + d) as u8) as char)
}

pub open spec fn all_digits(s: Seq<char>) -> bool {
    forall|i: int| 0 <= i < s.len() ==> is_digit_char(#[trigger] s[i])
}

// ---------------------------------------------------------------------------
// Decimal values and representations
// ---------------------------------------------------------------------------

/// Value of a digit string, most significant digit first.
pub open spec fn dec_val(s: Seq<char>) -> nat
    decreases s.len(),
{
    if s.len() == 0 {
        0
    } else {
        dec_val(s.drop_last()) * 10 + digit_val(s.last())
    }
}

/// Canonical decimal representation of a number, without leading zeros.
pub open spec fn dec_rep(n: nat) -> Seq<char>
    decreases n,
{
    if n < 10 {
        seq![digit_char_spec(n)]
    } else {
        dec_rep(n / 10).push(digit_char_spec(n % 10))
    }
}

/// Canonical decimal representation of a signed value.
pub open spec fn int_rep(v: int) -> Seq<char> {
    if v < 0 {
        seq!['-'] + dec_rep((-v) as nat)
    } else {
        dec_rep(v as nat)
    }
}

/// Two-digit, zero-padded representation of a number below one hundred.
pub open spec fn two_digit_rep(n: nat) -> Seq<char> {
    seq![digit_char_spec(n / 10), digit_char_spec(n % 10)]
}

/// A digit character carries the digit it was made from, and is never a sign.
pub proof fn lemma_digit_char_val(d: nat)
    requires
        d < 10,
    ensures
        is_digit_char(digit_char_spec(d)),
        digit_val(digit_char_spec(d)) == d,
        digit_char_spec(d) != '+',
        digit_char_spec(d) != '-',
{
    assert(digit_char_spec(d) as int == 48 + d);
}

pub proof fn lemma_dec_rep_props(n: nat)
    ensures
        dec_rep(n).len() >= 1,
        all_digits(dec_rep(n)),
        dec_val(dec_rep(n)) == n,
    decreases n,
{
    if n < 10 {
        assert(dec_rep(n) =~= seq![digit_char_spec(n)]);
        lemma_digit_char_val(n);
        assert(dec_rep(n).drop_last() =~= Seq::<char>::empty());
        assert(dec_rep(n).last() == digit_char_spec(n));
        assert(dec_val(Seq::<char>::empty()) == 0);
        assert(dec_val(dec_rep(n)) == 0 * 10 + digit_val(digit_char_spec(n)));
    } else {
        lemma_dec_rep_props(n / 10);
        let s = dec_rep(n);
        assert(s =~= dec_rep(n / 10).push(digit_char_spec(n % 10)));
        assert(s.drop_last() =~= dec_rep(n / 10));
        assert(s.last() == digit_char_spec(n % 10));
        lemma_digit_char_val(n % 10);
        assert(dec_val(s) == (n / 10) * 10 + n % 10);
        assert((n / 10) * 10 + n % 10 == n) by (nonlinear_arith);
        assert forall|i: int| 0 <= i < s.len() implies is_digit_char(#[trigger] s[i]) by {
            if i < s.len() - 1 {
                assert(s[i] == dec_rep(n / 10)[i]);
            } else {
                assert(s[i] == digit_char_spec(n % 10));
            }
        }
    }
}

/// Appending digits never lowers the value of a digit string.
pub proof fn lemma_dec_val_extend(s: Seq<char>, k: int)
    requires
        0 <= k <= s.len(),
    ensures
        dec_val(s.subrange(0, k)) <= dec_val(s),
    decreases s.len() - k,
{
    if k == s.len() {
        assert(s.subrange(0, k) =~= s);
    } else {
        let t = s.subrange(0, k + 1);
        assert(t.drop_last() =~= s.subrange(0, k));
        assert(dec_val(t) == dec_val(s.subrange(0, k)) * 10 + digit_val(t.last()));
        assert(dec_val(s.subrange(0, k)) * 10 >= dec_val(s.subrange(0, k))) by (nonlinear_arith);
        lemma_dec_val_extend(s, k + 1);
    }
}

// ---------------------------------------------------------------------------
// Trimming
// ---------------------------------------------------------------------------

/// Number of leading whitespace characters.
pub open spec fn ltrim_len(s: Seq<char>) -> int
    decreases s.len(),
{
    if s.len() > 0 && is_space_char(s[0]) {
        1 + ltrim_len(s.drop_first())
    } else {
        0
    }
}

/// Number of trailing whitespace characters.
pub open spec fn rtrim_len(s: Seq<char>) -> int
    decreases s.len(),
{
    if s.len() > 0 && is_space_char(s.last()) {
        1 + rtrim_len(s.drop_last())
    } else {
        0
    }
}

/// The string with leading and trailing whitespace removed.
pub open spec fn trim_spec(s: Seq<char>) -> Seq<char> {
    if ltrim_len(s) == s.len() {
        Seq::<char>::empty()
    } else {
        s.subrange(ltrim_len(s), s.len() - rtrim_len(s))
    }
}

pub proof fn lemma_ltrim_is(s: Seq<char>, l: int)
    requires
        0 <= l <= s.len(),
        forall|i: int| 0 <= i < l ==> is_space_char(#[trigger] s[i]),
        l < s.len() ==> !is_space_char(s[l as int]),
    ensures
        ltrim_len(s) == l,
    decreases l,
{
    if l == 0 {
    } else {
        let t = s.drop_first();
        assert forall|i: int| 0 <= i < l - 1 implies is_space_char(#[trigger] t[i]) by {
            assert(t[i] == s[i + 1]);
        }
        assert(l - 1 < t.len() ==> !is_space_char(t[l - 1]));
        lemma_ltrim_is(t, l - 1);
    }
}

pub proof fn lemma_rtrim_is(s: Seq<char>, r: int)
    requires
        0 <= r <= s.len(),
        forall|i: int| s.len() - r <= i < s.len() ==> is_space_char(#[trigger] s[i]),
        r < s.len() ==> !is_space_char(s[s.len() - r - 1]),
    ensures
        rtrim_len(s) == r,
    decreases r,
{
    if r == 0 {
    } else {
        let t = s.drop_last();
        assert(is_space_char(s.last()));
        assert forall|i: int| t.len() - (r - 1) <= i < t.len() implies is_space_char(
            #[trigger] t[i],
        ) by {
            assert(t[i] == s[i]);
        }
        assert(r - 1 < t.len() ==> !is_space_char(t[t.len() - (r - 1) - 1]));
        lemma_rtrim_is(t, r - 1);
    }
}

/// A string whose first and last characters are not whitespace trims to itself.
pub proof fn lemma_trim_noop(s: Seq<char>)
    requires
        s.len() > 0,
        !is_space_char(s[0]),
        !is_space_char(s.last()),
    ensures
        trim_spec(s) == s,
{
    lemma_ltrim_is(s, 0);
    lemma_rtrim_is(s, 0);
    assert(s.subrange(0, s.len() as int) =~= s);
}

// ---------------------------------------------------------------------------
// Space collapsing
// ---------------------------------------------------------------------------

/// The string with every run of spaces collapsed to a single space.
pub open spec fn collapse_spaces(s: Seq<char>) -> Seq<char>
    decreases s.len(),
{
    if s.len() == 0 {
        Seq::<char>::empty()
    } else if s.len() >= 2 && s[0] == ' ' && s[1] == ' ' {
        collapse_spaces(s.drop_first())
    } else {
        seq![s[0]] + collapse_spaces(s.drop_first())
    }
}

// ---------------------------------------------------------------------------
// Executable helpers
// ---------------------------------------------------------------------------

/// The double-quote character of the wire formats.
pub open spec fn dq() -> char {
    ((34 as u8) as char)
}

/// The opening-brace character of the wire formats.
pub open spec fn lb() -> char {
    ((123 as u8) as char)
}

/// The closing-brace character of the wire formats.
pub open spec fn rb() -> char {
    ((125 as u8) as char)
}

pub fn dq_exec() -> (c: char)
    ensures
        c == dq(),
{
    ((34 as u8) as char)
}

pub fn lb_exec() -> (c: char)
    ensures
        c == lb(),
{
    ((123 as u8) as char)
}

pub fn rb_exec() -> (c: char)
    ensures
        c == rb(),
{
    ((125 as u8) as char)
}

/// Relies on String::push: appends one character to the string.
#[verifier::external_body]
pub fn push_char(s: &mut String, c: char)
    ensures
        final(s)@ == old(s)@.push(c),
{
    s.push(c)
}

pub fn digit_exec(d: u8) -> (c: char)
    requires
        d < 10,
    ensures
        c == digit_char_spec(d as nat),
{
    ((48 + d) as u8) as char
}

/// Append the canonical decimal form of `n`.
pub fn push_u64(s: &mut String, n: u64)
    ensures
        final(s)@ == old(s)@ + dec_rep(n as nat),
    decreases n,
{
    if n < 10 {
        push_char(s, digit_exec(n as u8));
        proof {
            assert(old(s)@.push(digit_char_spec(n as nat)) =~= old(s)@ + dec_rep(n as nat));
        }
    } else {
        push_u64(s, n / 10);
        push_char(s, digit_exec((n % 10) as u8));
        proof {
            assert((old(s)@ + dec_rep((n / 10) as nat)).push(digit_char_spec((n % 10) as nat))
                =~= old(s)@ + dec_rep(n as nat));
        }
    }
}

/// Append the canonical decimal form of a signed value.
pub fn push_i64(s: &mut String, v: i64)
    requires
        v > i64::MIN,
    ensures
        final(s)@ == old(s)@ + int_rep(v as int),
{
    if v < 0 {
        s.append("-");
        push_u64(s, (-v) as u64);
        proof {
            reveal_strlit("-");
            assert("-"@ =~= seq!['-']);
            assert(old(s)@ + "-"@ + dec_rep((-(v as int)) as nat) =~= old(s)@ + int_rep(v as int));
        }
    } else {
        push_u64(s, v as u64);
    }
}

/// Append the two-digit, zero-padded form of `n`.
pub fn push_two_digits(s: &mut String, n: u16)
    requires
        n < 100,
    ensures
        final(s)@ == old(s)@ + two_digit_rep(n as nat),
{
    push_char(s, digit_exec((n / 10) as u8));
    push_char(s, digit_exec((n % 10) as u8));
    proof {
        assert(old(s)@.push(digit_char_spec((n / 10) as nat)).push(
            digit_char_spec((n % 10) as nat),
        ) =~= old(s)@ + two_digit_rep(n as nat));
    }
}

/// Whether two string slices hold the same characters.
pub fn str_eq(a: &str, b: &str) -> (r: bool)
    ensures
        r == (a@ == b@),
{
    let alen = a.unicode_len();
    let blen = b.unicode_len();
    if alen != blen {
        return false;
    }
    let mut i: usize = 0;
    while i < alen
        invariant
            0 <= i <= alen,
            alen == a@.len(),
            alen == b@.len(),
            forall|j: int| 0 <= j < i ==> a@[j] == b@[j],
        decreases alen - i,
    {
        if a.get_char(i) != b.get_char(i) {
            return false;
        }
        i = i + 1;
    }
    proof {
        assert(a@ =~= b@);
    }
    true
}

/// Whether `pat` occurs in `s` starting at position `i`.
pub open spec fn has_at(s: Seq<char>, i: int, pat: Seq<char>) -> bool {
    &&& 0 <= i
    &&& i + pat.len() <= s.len()
    &&& s.subrange(i, i + pat.len()) == pat
}

pub fn match_at(s: &str, i: usize, pat: &str) -> (r: bool)
    requires
        i <= s@.len(),
    ensures
        r == has_at(s@, i as int, pat@),
{
    let slen = s.unicode_len();
    let plen = pat.unicode_len();
    if plen > slen - i {
        return false;
    }
    let mut j: usize = 0;
    while j < plen
        invariant
            0 <= j <= plen,
            plen == pat@.len(),
            slen == s@.len(),
            i + plen <= slen,
            forall|k: int| 0 <= k < j ==> s@[i + k] == pat@[k],
        decreases plen - j,
    {
        if s.get_char(i + j) != pat.get_char(j) {
            proof {
                assert(s@.subrange(i as int, i + pat@.len())[j as int] == s@[i + j]);
            }
            return false;
        }
        j = j + 1;
    }
    proof {
        assert(s@.subrange(i as int, i + pat@.len()) =~= pat@);
    }
    true
}

/// The slice with surrounding whitespace removed.
pub fn trim_str<'a>(s: &'a str) -> (t: &'a str)
    ensures
        t@ == trim_spec(s@),
{
    let len = s.unicode_len();
    let mut lo: usize = 0;
    loop
        invariant_except_break
            0 <= lo <= len,
            len == s@.len(),
            forall|i: int| 0 <= i < lo ==> is_space_char(#[trigger] s@[i]),
        ensures
            0 <= lo <= len,
            len == s@.len(),
            forall|i: int| 0 <= i < lo ==> is_space_char(#[trigger] s@[i]),
            lo < len ==> !is_space_char(s@[lo as int]),
        decreases len - lo,
    {
        if lo >= len {
            break;
        }
        let c = s.get_char(lo);
        if !(c == ' ' || c == '\t' || c == '\n' || c == '\r') {
            break;
        }
        lo = lo + 1;
    }
    if lo == len {
        proof {
            lemma_ltrim_is(s@, len as int);
            reveal_strlit("");
            assert(""@ =~= Seq::<char>::empty());
        }
        return "";
    }
    let mut hi: usize = len;
    loop
        invariant_except_break
            lo < hi <= len,
            len == s@.len(),
            !is_space_char(s@[lo as int]),
            forall|i: int| hi <= i < len ==> is_space_char(#[trigger] s@[i]),
        ensures
            lo < hi <= len,
            len == s@.len(),
            forall|i: int| hi <= i < len ==> is_space_char(#[trigger] s@[i]),
            !is_space_char(s@[hi - 1]),
        decreases hi,
    {
        let c = s.get_char(hi - 1);
        if !(c == ' ' || c == '\t' || c == '\n' || c == '\r') {
            break;
        }
        proof {
            if hi - 1 == lo {
                assert(is_space_char(s@[lo as int]));
            }
        }
        hi = hi - 1;
    }
    proof {
        lemma_ltrim_is(s@, lo as int);
        lemma_rtrim_is(s@, (len - hi) as int);
    }
    s.substring_char(lo, hi)
}

/// The string trimmed, with inner runs of spaces collapsed to single spaces.
pub fn trim_whitespace(s: &str) -> (r: String)
    ensures
        r@ == collapse_spaces(trim_spec(s@)),
{
    let t = trim_str(s);
    let len = t.unicode_len();
    let mut out = String::new();
    proof {
        assert(t@.subrange(0, len as int) =~= t@);
        assert(out@ + collapse_spaces(t@) =~= collapse_spaces(t@));
    }
    let mut i: usize = 0;
    while i < len
        invariant
            0 <= i <= len,
            len == t@.len(),
            out@ + collapse_spaces(t@.subrange(i as int, len as int)) == collapse_spaces(t@),
        decreases len - i,
    {
        let c = t.get_char(i);
        let drop = c == ' ' && i + 1 < len && t.get_char(i + 1) == ' ';
        proof {
            let rest = t@.subrange(i as int, len as int);
            let rest2 = t@.subrange(i + 1, len as int);
            assert(rest.len() > 0);
            assert(rest[0] == t@[i as int]);
            assert(rest.drop_first() =~= rest2);
            if drop {
                assert(rest.len() >= 2 && rest[0] == ' ' && rest[1] == ' ');
                assert(collapse_spaces(rest) == collapse_spaces(rest2));
            } else {
                assert(!(rest.len() >= 2 && rest[0] == ' ' && rest[1] == ' '));
                assert(collapse_spaces(rest) == seq![rest[0]] + collapse_spaces(rest2));
            }
        }
        if !drop {
            push_char(&mut out, c);
            proof {
                let rest2 = t@.subrange(i + 1, len as int);
                assert(out@ + collapse_spaces(rest2) =~= collapse_spaces(t@));
            }
        }
        i = i + 1;
    }
    proof {
        assert(t@.subrange(len as int, len as int) =~= Seq::<char>::empty());
        assert(out@ =~= collapse_spaces(t@));
    }
    out
}

/// Index of the last occurrence of a character, or -1 when it is absent.
pub open spec fn last_index(s: Seq<char>, c: char) -> int
    decreases s.len(),
{
    if s.len() == 0 {
        -1
    } else if s.last() == c {
        s.len() - 1
    } else {
        last_index(s.drop_last(), c)
    }
}

pub proof fn lemma_last_index_is(s: Seq<char>, c: char, j: int)
    requires
        -1 <= j < s.len(),
        j >= 0 ==> s[j] == c,
        forall|i: int| j < i < s.len() ==> s[i] != c,
    ensures
        last_index(s, c) == j,
    decreases s.len(),
{
    if s.len() == 0 {
    } else if s.last() == c {
        assert(j == s.len() - 1);
    } else {
        let t = s.drop_last();
        assert(j < s.len() - 1);
        assert forall|i: int| j < i < t.len() implies t[i] != c by {
            assert(t[i] == s[i]);
        }
        lemma_last_index_is(t, c, j);
    }
}

/// Index right after the last occurrence of `c` before `upto`, or `from`
/// when there is none in that range.
pub fn rscan_char(s: &str, from: usize, upto: usize, c: char) -> (r: usize)
    requires
        from <= upto <= s@.len(),
    ensures
        from <= r <= upto,
        r > from ==> s@[r - 1] == c,
        forall|i: int| r <= i < upto ==> s@[i] != c,
    decreases upto,
{
    let mut r: usize = upto;
    loop
        invariant_except_break
            from <= r <= upto <= s@.len(),
            forall|i: int| r <= i < upto ==> s@[i] != c,
        ensures
            from <= r <= upto,
            r > from ==> s@[r - 1] == c,
            forall|i: int| r <= i < upto ==> s@[i] != c,
        decreases r,
    {
        if r == from {
            break;
        }
        if s.get_char(r - 1) == c {
            break;
        }
        r = r - 1;
    }
    r
}

/// Length of the run of digits that opens the string.
pub open spec fn digits_len(s: Seq<char>) -> int
    decreases s.len(),
{
    if s.len() > 0 && is_digit_char(s[0]) {
        1 + digits_len(s.drop_first())
    } else {
        0
    }
}

pub proof fn lemma_digits_len_is(s: Seq<char>, k: int)
    requires
        0 <= k <= s.len(),
        forall|i: int| 0 <= i < k ==> is_digit_char(#[trigger] s[i]),
        k < s.len() ==> !is_digit_char(s[k as int]),
    ensures
        digits_len(s) == k,
    decreases k,
{
    if k == 0 {
    } else {
        let t = s.drop_first();
        assert forall|i: int| 0 <= i < k - 1 implies is_digit_char(#[trigger] t[i]) by {
            assert(t[i] == s[i + 1]);
        }
        assert(k - 1 < t.len() ==> !is_digit_char(t[k - 1]));
        lemma_digits_len_is(t, k - 1);
    }
}

/// First position at or after `from` where the digit run ends.
pub fn scan_digits(s: &str, from: usize) -> (e: usize)
    requires
        from <= s@.len(),
    ensures
        from <= e <= s@.len(),
        forall|i: int| from <= i < e ==> is_digit_char(#[trigger] s@[i]),
        e < s@.len() ==> !is_digit_char(s@[e as int]),
        digits_len(s@.skip(from as int)) == e - from,
{
    let len = s.unicode_len();
    let mut e: usize = from;
    loop
        invariant_except_break
            from <= e <= len,
            len == s@.len(),
            forall|i: int| from <= i < e ==> is_digit_char(#[trigger] s@[i]),
        ensures
            from <= e <= len,
            len == s@.len(),
            forall|i: int| from <= i < e ==> is_digit_char(#[trigger] s@[i]),
            e < len ==> !is_digit_char(s@[e as int]),
        decreases len - e,
    {
        if e >= len {
            break;
        }
        let c = s.get_char(e);
        let cv = c as u32;
        if !(48 <= cv && cv <= 57) {
            break;
        }
        e = e + 1;
    }
    proof {
        let t = s@.skip(from as int);
        assert forall|i: int| 0 <= i < e - from implies is_digit_char(#[trigger] t[i]) by {
            assert(t[i] == s@[i + from]);
        }
        assert(e - from < t.len() ==> !is_digit_char(t[e - from]));
        lemma_digits_len_is(t, e - from);
    }
    e
}

/// Parse the digits of `s` between `from` and `to` as a number up to `bound`.
pub fn parse_num_range(s: &str, from: usize, to: usize, bound: u64) -> (r: Option<u64>)
    requires
        from <= to <= s@.len(),
        bound <= 0x1_0000_0000u64,
    ensures
        ({
            let sub = s@.subrange(from as int, to as int);
            r == (if to > from && all_digits(sub) && dec_val(sub) <= bound {
                Some((dec_val(sub) as u64))
            } else {
                None::<u64>
            })
        }),
{
    let ghost sub = s@.subrange(from as int, to as int);
    if to == from {
        return None;
    }
    let mut acc: u64 = 0;
    let mut i: usize = from;
    while i < to
        invariant
            from <= i <= to <= s@.len(),
            bound <= 0x1_0000_0000u64,
            sub == s@.subrange(from as int, to as int),
            forall|j: int| 0 <= j < i - from ==> is_digit_char(#[trigger] sub[j]),
            acc as nat == dec_val(sub.subrange(0, i - from)),
            acc <= bound,
        decreases to - i,
    {
        let c = s.get_char(i);
        let cv = c as u32;
        if !(48 <= cv && cv <= 57) {
            proof {
                assert(sub[i - from] == s@[i as int]);
                assert(!is_digit_char(sub[i - from]));
            }
            return None;
        }
        let d: u64 = (cv - 48) as u64;
        proof {
            assert(sub[i - from] == s@[i as int]);
            assert(is_digit_char(sub[i - from]));
            assert(digit_val(sub[i - from]) == d as nat);
            let pre = sub.subrange(0, i - from);
            let pre2 = sub.subrange(0, i + 1 - from);
            assert(pre2.drop_last() =~= pre);
            assert(pre2.last() == sub[i - from]);
            assert(dec_val(pre2) == dec_val(pre) * 10 + d as nat);
        }
        let next: u64 = acc * 10 + d;
        if next > bound {
            proof {
                lemma_dec_val_extend(sub, i + 1 - from);
            }
            return None;
        }
        acc = next;
        i = i + 1;
    }
    proof {
        assert(sub.subrange(0, to - from) =~= sub);
        assert(all_digits(sub));
    }
    Some(acc)
}

/// Parse the digits of `s` between `from` and `to` as a number up to `u16::MAX`.
pub fn parse_u16_range(s: &str, from: usize, to: usize) -> (r: Option<u16>)
    requires
        from <= to <= s@.len(),
    ensures
        ({
            let sub = s@.subrange(from as int, to as int);
            r == (if to > from && all_digits(sub) && dec_val(sub) <= 0xffff {
                Some((dec_val(sub) as u16))
            } else {
                None::<u16>
            })
        }),
{
    let ghost sub = s@.subrange(from as int, to as int);
    if to == from {
        return None;
    }
    let mut acc: u32 = 0;
    let mut i: usize = from;
    while i < to
        invariant
            from <= i <= to <= s@.len(),
            sub == s@.subrange(from as int, to as int),
            forall|j: int| 0 <= j < i - from ==> is_digit_char(#[trigger] sub[j]),
            acc as nat == dec_val(sub.subrange(0, i - from)),
            acc <= 0xffff,
        decreases to - i,
    {
        let c = s.get_char(i);
        let cv = c as u32;
        if !(48 <= cv && cv <= 57) {
            proof {
                assert(sub[i - from] == s@[i as int]);
                assert(!is_digit_char(sub[i - from]));
            }
            return None;
        }
        let d: u32 = cv - 48;
        proof {
            assert(sub[i - from] == s@[i as int]);
            assert(is_digit_char(sub[i - from]));
            assert(digit_val(sub[i - from]) == d as nat);
            let pre = sub.subrange(0, i - from);
            let pre2 = sub.subrange(0, i + 1 - from);
            assert(pre2.drop_last() =~= pre);
            assert(pre2.last() == sub[i - from]);
            assert(dec_val(pre2) == dec_val(pre) * 10 + d as nat);
        }
        let next: u32 = acc * 10 + d;
        if next > 0xffff {
            proof {
                lemma_dec_val_extend(sub, i + 1 - from);
            }
            return None;
        }
        acc = next;
        i = i + 1;
    }
    proof {
        assert(sub.subrange(0, to - from) =~= sub);
        assert(all_digits(sub));
    }
    Some(acc as u16)
}

} // verus!
