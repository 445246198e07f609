//! Verified helpers over `&str` and `String`: trimming, line splitting,
//! substring search, whitespace fields, and decimal / binary numerals.
//! Every executable function is pinned to a spec function over `Seq<char>`.

use vstd::prelude::*;
use vstd::string::*;

verus! {

/// Whitespace recognized when trimming lines and splitting commands
/// into fields.
pub open spec fn is_ws(c: char) -> bool {
    c == ' ' || c == '\t' || c == '\r' || c == '\n'
}

/// Executable mirror of [`is_ws`].
pub fn is_ws_char(c: char) -> (r: bool)
    ensures
        r == is_ws(c),
{
    c == ' ' || c == '\t' || c == '\r' || c == '\n'
}

/// A decimal digit.
pub open spec fn is_digit(c: char) -> bool {
    48 <= c as u32 <= 57
}

/// Executable mirror of [`is_digit`].
pub fn is_digit_char(c: char) -> (r: bool)
    ensures
        r == is_digit(c),
{
    let v = c as u32;
    48 <= v && v <= 57
}

/// Character-wise string equality.
pub fn str_eq(a: &str, b: &str) -> (r: bool)
    ensures
        r == (a@ == b@),
{
    let an = a.unicode_len();
    let bn = b.unicode_len();
    if an != bn {
        return false;
    }
    let mut i: usize = 0;
    while i < an
        invariant
            an == a@.len(),
            bn == b@.len(),
            an == bn,
            i <= an,
            forall|j: int| 0 <= j < i ==> a@[j] == b@[j],
        decreases an - i,
    {
        if a.get_char(i) != b.get_char(i) {
            return false;
        }
        i += 1;
    }
    proof {
        assert(a@ =~= b@);
    }
    true
}

/// The string with leading whitespace removed.
pub open spec fn trim_start(s: Seq<char>) -> Seq<char>
    decreases s.len(),
{
    if s.len() > 0 && is_ws(s[0]) {
        trim_start(s.drop_first())
    } else {
        s
    }
}

/// The string with trailing whitespace removed.
pub open spec fn trim_end(s: Seq<char>) -> Seq<char>
    decreases s.len(),
{
    if s.len() > 0 && is_ws(s.last()) {
        trim_end(s.drop_last())
    } else {
        s
    }
}

/// The string with whitespace removed from both ends.
pub open spec fn trimmed(s: Seq<char>) -> Seq<char> {
    trim_end(trim_start(s))
}

proof fn lemma_trim_start_at(s: Seq<char>, lo: int)
    requires
        0 <= lo <= s.len(),
        forall|j: int| 0 <= j < lo ==> is_ws(s[j]),
        lo < s.len() ==> !is_ws(s[lo]),
    ensures
        trim_start(s) =~= s.subrange(lo, s.len() as int),
    decreases lo,
{
    if lo == 0 {
        if s.len() > 0 && is_ws(s[0]) {
            assert(false);
        }
        assert(trim_start(s) =~= s.subrange(0, s.len() as int));
    } else {
        let t = s.drop_first();
        assert(forall|j: int| 0 <= j < lo - 1 ==> is_ws(t[j]));
        lemma_trim_start_at(t, lo - 1);
        assert(t.subrange(lo - 1, t.len() as int) =~= s.subrange(lo, s.len() as int));
    }
}

proof fn lemma_trim_end_at(s: Seq<char>, hi: int)
    requires
        0 <= hi <= s.len(),
        forall|j: int| hi <= j < s.len() ==> is_ws(s[j]),
        hi > 0 ==> !is_ws(s[hi - 1]),
    ensures
        trim_end(s) =~= s.subrange(0, hi),
    decreases s.len() - hi,
{
    if hi == s.len() {
        if s.len() > 0 && is_ws(s.last()) {
            assert(false);
        }
        assert(trim_end(s) =~= s.subrange(0, hi));
    } else {
        let t = s.drop_last();
        assert(forall|j: int| hi <= j < t.len() ==> is_ws(t[j]));
        lemma_trim_end_at(t, hi);
        assert(t.subrange(0, hi) =~= s.subrange(0, hi));
    }
}

/// Copy of `s` with whitespace removed from both ends.
pub fn trim(s: &str) -> (r: String)
    ensures
        r@ == trimmed(s@),
{
    let n = s.unicode_len();
    let mut lo: usize = 0;
    while lo < n && is_ws_char(s.get_char(lo))
        invariant
            n == s@.len(),
            lo <= n,
            forall|j: int| 0 <= j < lo ==> is_ws(s@[j]),
        decreases n - lo,
    {
        lo += 1;
    }
    proof {
        lemma_trim_start_at(s@, lo as int);
    }
    if lo == n {
        proof {
            assert(trim_start(s@) =~= Seq::<char>::empty());
            assert(trimmed(s@) =~= Seq::<char>::empty());
        }
        return String::new();
    }
    let mut hi: usize = n;
    while hi > lo && is_ws_char(s.get_char(hi - 1))
        invariant
            n == s@.len(),
            lo < n,
            lo <= hi <= n,
            forall|j: int| hi <= j < n ==> is_ws(s@[j]),
        decreases hi,
    {
        hi -= 1;
    }
    // The character at `lo` is not whitespace, so the trimmed range is
    // non-empty and ends at `hi`.
    proof {
        let t = trim_start(s@);
        assert(t =~= s@.subrange(lo as int, n as int));
        assert(!is_ws(s@[lo as int]));
        assert(hi > lo);
        assert(forall|j: int| hi - lo <= j < t.len() ==> is_ws(t[j]));
        assert(t[hi - lo - 1] == s@[hi as int - 1]);
        lemma_trim_end_at(t, hi - lo);
        assert(trimmed(s@) =~= s@.subrange(lo as int, hi as int));
    }
    let r = s.substring_char(lo, hi);
    String::from_str(r)
}

/// The pieces of `s` between `'\n'` separators, the final piece dropped
/// when it is empty (so a terminating newline adds no line).
pub open spec fn split_lines_spec(s: Seq<char>) -> Seq<Seq<char>>
    decreases s.len(),
{
    if s.len() == 0 {
        Seq::empty()
    } else if s[0] == '\n' {
        seq![Seq::<char>::empty()] + split_lines_spec(s.drop_first())
    } else {
        let r = split_lines_spec(s.drop_first());
        if r.len() == 0 {
            seq![seq![s[0]]]
        } else {
            seq![seq![s[0]] + r[0]] + r.drop_first()
        }
    }
}

proof fn lemma_split_lines_at(s: Seq<char>, k: int)
    requires
        0 <= k < s.len(),
        s[k] == '\n',
        forall|j: int| 0 <= j < k ==> s[j] != '\n',
    ensures
        split_lines_spec(s) == seq![s.subrange(0, k)] + split_lines_spec(
            s.subrange(k + 1, s.len() as int),
        ),
    decreases k,
{
    if k == 0 {
        assert(s.subrange(0, 0) =~= Seq::<char>::empty());
        assert(s.drop_first() =~= s.subrange(1, s.len() as int));
        assert(split_lines_spec(s) =~= seq![s.subrange(0, 0)] + split_lines_spec(
            s.subrange(1, s.len() as int),
        ));
    } else {
        let t = s.drop_first();
        lemma_split_lines_at(t, k - 1);
        let r = split_lines_spec(t);
        assert(r == seq![t.subrange(0, k - 1)] + split_lines_spec(
            t.subrange(k, t.len() as int),
        ));
        assert(r.len() > 0);
        assert(seq![s[0]] + r[0] =~= s.subrange(0, k));
        assert(r.drop_first() =~= split_lines_spec(t.subrange(k, t.len() as int)));
        assert(t.subrange(k, t.len() as int) =~= s.subrange(k + 1, s.len() as int));
        assert(split_lines_spec(s) =~= seq![s.subrange(0, k)] + split_lines_spec(
            s.subrange(k + 1, s.len() as int),
        ));
    }
}

proof fn lemma_split_lines_no_newline(s: Seq<char>)
    requires
        forall|j: int| 0 <= j < s.len() ==> s[j] != '\n',
    ensures
        split_lines_spec(s) == if s.len() == 0 {
            Seq::<Seq<char>>::empty()
        } else {
            seq![s]
        },
    decreases s.len(),
{
    if s.len() > 0 {
        let t = s.drop_first();
        lemma_split_lines_no_newline(t);
        if t.len() == 0 {
            assert(seq![s[0]] =~= s);
            assert(split_lines_spec(s) =~= seq![s]);
        } else {
            let r = split_lines_spec(t);
            assert(r == seq![t]);
            assert(seq![s[0]] + t =~= s);
            assert(r.drop_first() =~= Seq::<Seq<char>>::empty());
            assert(split_lines_spec(s) =~= seq![s]);
        }
    }
}

/// A text has at least as many characters as it has lines.
pub proof fn lemma_split_lines_count(s: Seq<char>)
    ensures
        split_lines_spec(s).len() <= s.len(),
    decreases s.len(),
{
    if s.len() > 0 {
        lemma_split_lines_count(s.drop_first());
    }
}

/// The views of a sequence of owned strings.
pub open spec fn views_of(v: Seq<String>) -> Seq<Seq<char>> {
    v.map_values(|x: String| x@)
}

/// Splits `s` into its lines, as [`split_lines_spec`] describes.
pub fn split_lines(s: &str) -> (r: Vec<String>)
    ensures
        views_of(r@) == split_lines_spec(s@),
{
    let n = s.unicode_len();
    let mut out: Vec<String> = Vec::new();
    let mut start: usize = 0;
    let mut i: usize = 0;
    proof {
        assert(s@.subrange(0, n as int) =~= s@);
        assert(views_of(out@) + split_lines_spec(s@) =~= split_lines_spec(s@));
    }
    while i < n
        invariant
            n == s@.len(),
            start <= i <= n,
            forall|j: int| start <= j < i ==> s@[j] != '\n',
            views_of(out@) + split_lines_spec(s@.subrange(start as int, n as int))
                =~= split_lines_spec(s@),
        decreases n - i,
    {
        if s.get_char(i) == '\n' {
            let piece = s.substring_char(start, i);
            proof {
                let suf = s@.subrange(start as int, n as int);
                lemma_split_lines_at(suf, i - start);
                assert(suf.subrange(0, i - start) =~= s@.subrange(start as int, i as int));
                assert(suf.subrange(i - start + 1, suf.len() as int) =~= s@.subrange(
                    i as int + 1,
                    n as int,
                ));
            }
            let owned = String::from_str(piece);
            out.push(owned);
            proof {
                assert(views_of(out@) =~= views_of(out@.drop_last()) + seq![s@.subrange(
                    start as int,
                    i as int,
                )]);
            }
            start = i + 1;
        }
        i += 1;
    }
    if start < n {
        let piece = s.substring_char(start, n);
        proof {
            lemma_split_lines_no_newline(s@.subrange(start as int, n as int));
        }
        let owned = String::from_str(piece);
        out.push(owned);
        proof {
            assert(views_of(out@) =~= views_of(out@.drop_last()) + seq![s@.subrange(
                start as int,
                n as int,
            )]);
        }
    } else {
        proof {
            assert(s@.subrange(start as int, n as int) =~= Seq::<char>::empty());
            assert(views_of(out@) + Seq::<Seq<char>>::empty() =~= views_of(out@));
        }
    }
    out
}

/// The pattern occurs in `s` starting at `i`.
pub open spec fn matches_at(s: Seq<char>, pat: Seq<char>, i: int) -> bool {
    0 <= i && i + pat.len() <= s.len() && s.subrange(i, i + pat.len() as int) == pat
}

/// The pattern occurs somewhere in `s`.
pub open spec fn contains_seq(s: Seq<char>, pat: Seq<char>) -> bool {
    exists|i: int| matches_at(s, pat, i)
}

/// Index of the first occurrence of `pat` in `s`, if any.
pub fn find_sub(s: &str, pat: &str) -> (r: Option<usize>)
    ensures
        match r {
            Some(i) => matches_at(s@, pat@, i as int) && forall|j: int|
                0 <= j < i ==> !matches_at(s@, pat@, j),
            None => !contains_seq(s@, pat@),
        },
{
    let n = s.unicode_len();
    let m = pat.unicode_len();
    if m > n {
        return None;
    }
    if m == 0 {
        proof {
            assert(s@.subrange(0, 0) =~= pat@);
        }
        return Some(0);
    }
    let mut i: usize = 0;
    while i <= n - m
        invariant
            n == s@.len(),
            m == pat@.len(),
            0 < m <= n,
            i <= n - m + 1,
            forall|j: int| 0 <= j < i ==> !matches_at(s@, pat@, j),
        decreases n - i,
    {
        let mut k: usize = 0;
        let mut hit = true;
        while k < m
            invariant
                n == s@.len(),
                m == pat@.len(),
                i + m <= n,
                k <= m,
                hit ==> forall|j: int| 0 <= j < k ==> s@[i + j] == pat@[j],
                !hit ==> !matches_at(s@, pat@, i as int),
            decreases m - k,
        {
            if s.get_char(i + k) != pat.get_char(k) {
                proof {
                    if matches_at(s@, pat@, i as int) {
                        assert(s@.subrange(i as int, i + m as int)[k as int] == pat@[k as int]);
                    }
                }
                hit = false;
                k = m;
            } else {
                k += 1;
            }
        }
        if hit {
            proof {
                assert(s@.subrange(i as int, i + m as int) =~= pat@);
            }
            return Some(i);
        }
        i += 1;
    }
    proof {
        assert(forall|j: int| 0 <= j < n - m + 1 ==> !matches_at(s@, pat@, j));
        if contains_seq(s@, pat@) {
            let j = choose|j: int| matches_at(s@, pat@, j);
            assert(!matches_at(s@, pat@, j));
        }
    }
    None
}

/// `pat` occurs at `i` and nowhere earlier.
pub open spec fn is_first_match(s: Seq<char>, pat: Seq<char>, i: int) -> bool {
    matches_at(s, pat, i) && forall|j: int| 0 <= j < i ==> !matches_at(s, pat, j)
}

/// Index of the first occurrence of `pat` in `s`; meaningful only when
/// one exists.
pub open spec fn first_match_idx(s: Seq<char>, pat: Seq<char>) -> int {
    choose|i: int| is_first_match(s, pat, i)
}

/// The first occurrence is unique, so a witness pins [`first_match_idx`].
pub proof fn lemma_first_match_idx(s: Seq<char>, pat: Seq<char>, i: int)
    requires
        is_first_match(s, pat, i),
    ensures
        first_match_idx(s, pat) == i,
{
    assert(exists|k: int| is_first_match(s, pat, k));
    let c = first_match_idx(s, pat);
    assert(is_first_match(s, pat, c));
    if c < i {
        assert(!matches_at(s, pat, c));
    } else if c > i {
        assert(!matches_at(s, pat, i));
    }
}

/// Whether `pat` occurs in `s`.
pub fn contains_sub(s: &str, pat: &str) -> (r: bool)
    ensures
        r == contains_seq(s@, pat@),
{
    match find_sub(s, pat) {
        Some(i) => {
            proof {
                assert(matches_at(s@, pat@, i as int));
            }
            true
        },
        None => false,
    }
}

proof fn lemma_trim_start_first(s: Seq<char>)
    ensures
        trim_start(s).len() > 0 ==> !is_ws(trim_start(s)[0]),
    decreases s.len(),
{
    if s.len() > 0 && is_ws(s[0]) {
        lemma_trim_start_first(s.drop_first());
    }
}

proof fn lemma_trim_end_take(s: Seq<char>)
    ensures
        trim_end(s).len() <= s.len(),
        trim_end(s) == s.take(trim_end(s).len() as int),
    decreases s.len(),
{
    if s.len() > 0 && is_ws(s.last()) {
        let t = s.drop_last();
        lemma_trim_end_take(t);
        assert(t.take(trim_end(t).len() as int) =~= s.take(trim_end(t).len() as int));
    } else {
        assert(s =~= s.take(s.len() as int));
    }
}

/// A non-empty trimmed string starts with a non-whitespace character.
pub proof fn lemma_trimmed_first(s: Seq<char>)
    ensures
        trimmed(s).len() > 0 ==> !is_ws(trimmed(s)[0]),
{
    lemma_trim_start_first(s);
    lemma_trim_end_take(trim_start(s));
    if trimmed(s).len() > 0 {
        assert(trimmed(s)[0] == trim_start(s)[0]);
    }
}

/// View of an optional owned string.
pub open spec fn opt_view(o: Option<String>) -> Option<Seq<char>> {
    match o {
        Some(s) => Some(s@),
        None => None,
    }
}

/// The maximal whitespace-separated fields of `s`, in order.
pub open spec fn ws_tokens(s: Seq<char>) -> Seq<Seq<char>>
    decreases s.len(),
{
    if s.len() == 0 {
        Seq::empty()
    } else if is_ws(s[0]) {
        ws_tokens(s.drop_first())
    } else {
        let r = ws_tokens(s.drop_first());
        if s.len() > 1 && !is_ws(s[1]) {
            seq![seq![s[0]] + r[0]] + r.drop_first()
        } else {
            seq![seq![s[0]]] + r
        }
    }
}

proof fn lemma_ws_tokens_take(s: Seq<char>, k: int)
    requires
        0 < k <= s.len(),
        forall|j: int| 0 <= j < k ==> !is_ws(s[j]),
        k < s.len() ==> is_ws(s[k]),
    ensures
        ws_tokens(s) == seq![s.subrange(0, k)] + ws_tokens(s.subrange(k, s.len() as int)),
    decreases k,
{
    let t = s.drop_first();
    if k == 1 {
        assert(seq![s[0]] =~= s.subrange(0, 1));
        assert(t =~= s.subrange(1, s.len() as int));
        if s.len() > 1 {
            assert(is_ws(s[1]));
        }
        assert(ws_tokens(s) =~= seq![s.subrange(0, k)] + ws_tokens(
            s.subrange(k, s.len() as int),
        ));
    } else {
        lemma_ws_tokens_take(t, k - 1);
        let r = ws_tokens(t);
        assert(r == seq![t.subrange(0, k - 1)] + ws_tokens(t.subrange(k - 1, t.len() as int)));
        assert(r.len() > 0);
        assert(seq![s[0]] + r[0] =~= s.subrange(0, k));
        assert(r.drop_first() =~= ws_tokens(t.subrange(k - 1, t.len() as int)));
        assert(t.subrange(k - 1, t.len() as int) =~= s.subrange(k, s.len() as int));
        assert(ws_tokens(s) =~= seq![s.subrange(0, k)] + ws_tokens(
            s.subrange(k, s.len() as int),
        ));
    }
}

/// The `n`-th whitespace-separated field of `s`, if there is one.
pub fn nth_field(s: &str, n: usize) -> (r: Option<String>)
    ensures
        match r {
            Some(t) => n < ws_tokens(s@).len() && t@ == ws_tokens(s@)[n as int],
            None => n >= ws_tokens(s@).len(),
        },
{
    let len = s.unicode_len();
    let mut i: usize = 0;
    let mut c: usize = 0;
    proof {
        assert(s@.subrange(0, len as int) =~= s@);
        assert(ws_tokens(s@).skip(0) =~= ws_tokens(s@));
    }
    loop
        invariant
            len == s@.len(),
            i <= len,
            c <= n,
            c <= ws_tokens(s@).len(),
            ws_tokens(s@.subrange(i as int, len as int)) == ws_tokens(s@).skip(c as int),
        decreases len - i,
    {
        let ghost i_entry = i as int;
        while i < len && is_ws_char(s.get_char(i))
            invariant
                len == s@.len(),
                i_entry <= i <= len,
                ws_tokens(s@.subrange(i as int, len as int)) == ws_tokens(s@).skip(c as int),
            decreases len - i,
        {
            proof {
                let suf = s@.subrange(i as int, len as int);
                assert(suf.drop_first() =~= s@.subrange(i as int + 1, len as int));
            }
            i += 1;
        }
        if i == len {
            proof {
                assert(s@.subrange(len as int, len as int) =~= Seq::<char>::empty());
                assert(ws_tokens(s@).skip(c as int).len() == 0);
            }
            return None;
        }
        let start = i;
        let mut j = i + 1;
        while j < len && !is_ws_char(s.get_char(j))
            invariant
                len == s@.len(),
                start < j <= len,
                forall|q: int| start <= q < j ==> !is_ws(s@[q]),
            decreases len - j,
        {
            j += 1;
        }
        proof {
            let suf = s@.subrange(start as int, len as int);
            lemma_ws_tokens_take(suf, j - start);
            assert(suf.subrange(0, j - start) =~= s@.subrange(start as int, j as int));
            assert(suf.subrange(j - start, suf.len() as int) =~= s@.subrange(
                j as int,
                len as int,
            ));
            let a = ws_tokens(s@);
            let tok = s@.subrange(start as int, j as int);
            let rest = ws_tokens(s@.subrange(j as int, len as int));
            assert(a.skip(c as int) == seq![tok] + rest);
            assert(a.skip(c as int).len() > 0);
            assert(a.skip(c as int)[0] == a[c as int]);
            assert(a[c as int] == tok);
            assert forall|k: int| 0 <= k < rest.len() implies a.skip(c as int + 1)[k]
                == rest[k] by {
                assert(a.skip(c as int + 1)[k] == a[c as int + 1 + k]);
                assert(a.skip(c as int)[k + 1] == a[c as int + 1 + k]);
                assert((seq![tok] + rest)[k + 1] == rest[k]);
            }
            assert(a.skip(c as int + 1) =~= rest);
        }
        if c == n {
            let piece = s.substring_char(start, j);
            return Some(String::from_str(piece));
        }
        c += 1;
        i = j;
    }
}

/// Every character is a decimal digit.
pub open spec fn all_digits(s: Seq<char>) -> bool {
    forall|i: int| 0 <= i < s.len() ==> is_digit(s[i])
}

/// Numeric value of a digit character.
pub open spec fn digit_val(c: char) -> int {
    c as u32 - 48
}

/// Value of a string of decimal digits.
pub open spec fn dec_val(s: Seq<char>) -> int
    decreases s.len(),
{
    if s.len() == 0 {
        0
    } else {
        dec_val(s.drop_last()) * 10 + digit_val(s.last())
    }
}

proof fn lemma_dec_val_prefix(s: Seq<char>, i: int)
    requires
        all_digits(s),
        0 <= i <= s.len(),
    ensures
        0 <= dec_val(s.subrange(0, i)) <= dec_val(s),
    decreases s.len() - i,
{
    if i == s.len() {
        assert(s.subrange(0, i) =~= s);
        lemma_dec_val_nonneg(s);
    } else {
        lemma_dec_val_prefix(s, i + 1);
        let p = s.subrange(0, i + 1);
        assert(p.drop_last() =~= s.subrange(0, i));
        assert(all_digits(p.drop_last()));
        lemma_dec_val_nonneg(p.drop_last());
        assert(is_digit(p.last()));
        assert(dec_val(p) == dec_val(s.subrange(0, i)) * 10 + digit_val(p.last()));
    }
}

proof fn lemma_dec_val_nonneg(s: Seq<char>)
    requires
        all_digits(s),
    ensures
        dec_val(s) >= 0,
    decreases s.len(),
{
    if s.len() > 0 {
        assert(all_digits(s.drop_last()));
        lemma_dec_val_nonneg(s.drop_last());
        assert(is_digit(s.last()));
    }
}

/// Result of reading `s` as an unsigned decimal numeral that fits in 16
/// bits: the numeral must be non-empty, all digits, and at most 65535.
pub open spec fn spec_parse_u16(s: Seq<char>) -> Option<u16> {
    if s.len() > 0 && all_digits(s) && dec_val(s) <= 65535 {
        Some(dec_val(s) as u16)
    } else {
        None
    }
}

/// Reads a 16-bit unsigned decimal numeral.
pub fn parse_u16(s: &str) -> (r: Option<u16>)
    ensures
        r == spec_parse_u16(s@),
{
    let n = s.unicode_len();
    if n == 0 {
        return None;
    }
    let mut acc: u32 = 0;
    let mut i: usize = 0;
    proof {
        assert(s@.subrange(0, 0) =~= Seq::<char>::empty());
    }
    while i < n
        invariant
            n == s@.len(),
            i <= n,
            forall|j: int| 0 <= j < i ==> is_digit(s@[j]),
            acc as int == dec_val(s@.subrange(0, i as int)),
            acc <= 65535,
        decreases n - i,
    {
        let ch = s.get_char(i);
        if !is_digit_char(ch) {
            return None;
        }
        let d = ch as u32 - 48;
        acc = acc * 10 + d;
        proof {
            let p = s@.subrange(0, i as int + 1);
            assert(p.drop_last() =~= s@.subrange(0, i as int));
            assert(p.last() == s@[i as int]);
        }
        i += 1;
        if acc > 65535 {
            proof {
                if all_digits(s@) {
                    lemma_dec_val_prefix(s@, i as int);
                }
            }
            return None;
        }
    }
    proof {
        assert(s@.subrange(0, n as int) =~= s@);
    }
    Some(acc as u16)
}

/// The digit character for a value below ten.
pub open spec fn digit_char(d: int) -> char {
    if d == 0 {
        '0'
    } else if d == 1 {
        '1'
    } else if d == 2 {
        '2'
    } else if d == 3 {
        '3'
    } else if d == 4 {
        '4'
    } else if d == 5 {
        '5'
    } else if d == 6 {
        '6'
    } else if d == 7 {
        '7'
    } else if d == 8 {
        '8'
    } else {
        '9'
    }
}

/// The decimal numeral of `n`, most significant digit first.
pub open spec fn dec_rep(n: nat) -> Seq<char>
    decreases n,
{
    if n < 10 {
        seq![digit_char(n as int)]
    } else {
        dec_rep(n / 10) + seq![digit_char((n % 10) as int)]
    }
}

fn digit_str(d: u64) -> (r: &'static str)
    requires
        d < 10,
    ensures
        r@ == seq![digit_char(d as int)],
{
    proof {
        reveal_strlit("0");
        reveal_strlit("1");
        reveal_strlit("2");
        reveal_strlit("3");
        reveal_strlit("4");
        reveal_strlit("5");
        reveal_strlit("6");
        reveal_strlit("7");
        reveal_strlit("8");
        reveal_strlit("9");
    }
    if d == 0 {
        "0"
    } else if d == 1 {
        "1"
    } else if d == 2 {
        "2"
    } else if d == 3 {
        "3"
    } else if d == 4 {
        "4"
    } else if d == 5 {
        "5"
    } else if d == 6 {
        "6"
    } else if d == 7 {
        "7"
    } else if d == 8 {
        "8"
    } else {
        "9"
    }
}

/// Renders `n` as a decimal numeral.
pub fn to_decimal(n: u64) -> (r: String)
    ensures
        r@ == dec_rep(n as nat),
    decreases n,
{
    if n < 10 {
        String::from_str(digit_str(n))
    } else {
        let mut s = to_decimal(n / 10);
        s.append(digit_str(n % 10));
        s
    }
}

proof fn lemma_digit_char_val(d: int)
    requires
        0 <= d < 10,
    ensures
        digit_val(digit_char(d)) == d,
        is_digit(digit_char(d)),
{
}

proof fn lemma_dec_rep_len(n: nat)
    ensures
        dec_rep(n).len() >= 1,
        n >= 10 ==> dec_rep(n).len() >= 2,
        n < 10 ==> dec_rep(n).len() == 1,
    decreases n,
{
    if n >= 10 {
        lemma_dec_rep_len(n / 10);
    }
}

/// Distinct numbers have distinct decimal numerals.
pub proof fn lemma_dec_rep_injective(a: nat, b: nat)
    requires
        dec_rep(a) == dec_rep(b),
    ensures
        a == b,
    decreases a,
{
    lemma_dec_rep_len(a);
    lemma_dec_rep_len(b);
    if a < 10 && b < 10 {
        assert(dec_rep(a) == seq![digit_char(a as int)]);
        assert(dec_rep(b) == seq![digit_char(b as int)]);
        assert(seq![digit_char(a as int)][0] == digit_char(a as int));
        assert(seq![digit_char(b as int)][0] == digit_char(b as int));
        assert(digit_char(a as int) == digit_char(b as int));
        lemma_digit_char_val(a as int);
        lemma_digit_char_val(b as int);
        assert(a == b);
    } else if a >= 10 && b >= 10 {
        let ra = dec_rep(a / 10);
        let rb = dec_rep(b / 10);
        assert((ra + seq![digit_char((a % 10) as int)]).drop_last() =~= ra);
        assert((rb + seq![digit_char((b % 10) as int)]).drop_last() =~= rb);
        assert(ra == rb);
        lemma_dec_rep_injective(a / 10, b / 10);
        assert(dec_rep(a).last() == dec_rep(b).last());
        assert((ra + seq![digit_char((a % 10) as int)]).last() == digit_char((a % 10) as int));
        assert((rb + seq![digit_char((b % 10) as int)]).last() == digit_char((b % 10) as int));
        assert(digit_char((a % 10) as int) == digit_char((b % 10) as int));
        lemma_digit_char_val((a % 10) as int);
        lemma_digit_char_val((b % 10) as int);
        assert(a % 10 == b % 10);
    } else {
        assert(dec_rep(a).len() != dec_rep(b).len());
        assert(false);
    }
}

/// The low `n` bits of `v`, most significant first, as `'0'`/`'1'`
/// characters.
pub open spec fn bin_rep(v: u16, n: nat) -> Seq<char> {
    Seq::new(
        n,
        |i: int|
            if (v >> ((n - 1 - i) as u16)) & 1 == 1 {
                '1'
            } else {
                '0'
            },
    )
}

/// Renders the low `n` bits of `v` in binary, most significant first.
pub fn bin_str(v: u16, n: u16) -> (r: String)
    requires
        n <= 16,
    ensures
        r@ == bin_rep(v, n as nat),
{
    proof {
        reveal_strlit("0");
        reveal_strlit("1");
    }
    let mut s = String::new();
    let mut i: u16 = 0;
    while i < n
        invariant
            n <= 16,
            i <= n,
            s@ =~= bin_rep(v, n as nat).subrange(0, i as int),
        decreases n - i,
    {
        let shift: u16 = n - 1 - i;
        let bit = (v >> shift) & 1;
        if bit == 1 {
            s.append("1");
        } else {
            s.append("0");
        }
        proof {
            reveal_strlit("0");
            reveal_strlit("1");
            assert(s@ =~= bin_rep(v, n as nat).subrange(0, i as int + 1));
        }
        i += 1;
    }
    proof {
        assert(bin_rep(v, n as nat).subrange(0, n as int) =~= bin_rep(v, n as nat));
    }
    s
}

/// Appending a common prefix keeps distinct strings apart, and stripping
/// it recovers the suffix.
pub proof fn lemma_append_cancel_left(p: Seq<char>, a: Seq<char>, b: Seq<char>)
    requires
        p + a == p + b,
    ensures
        a == b,
{
    assert((p + a).len() == p.len() + a.len());
    assert((p + b).len() == p.len() + b.len());
    assert(a.len() == b.len());
    assert forall|i: int| 0 <= i < a.len() implies a[i] == b[i] by {
        assert(a[i] == (p + a)[p.len() + i]);
        assert(b[i] == (p + b)[p.len() + i]);
    }
    assert(a =~= b);
}

/// Appending a common suffix keeps distinct strings apart.
pub proof fn lemma_append_cancel_right(a: Seq<char>, b: Seq<char>, t: Seq<char>)
    requires
        a + t == b + t,
    ensures
        a == b,
{
    assert((a + t).len() == a.len() + t.len());
    assert((b + t).len() == b.len() + t.len());
    assert(a.len() == b.len());
    assert forall|i: int| 0 <= i < a.len() implies a[i] == b[i] by {
        assert(a[i] == (a + t)[i]);
        assert(b[i] == (b + t)[i]);
    }
    assert(a =~= b);
}

} // verus!

