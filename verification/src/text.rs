//! Verified text utilities: whitespace splitting, joining, prefix and
//! suffix tests, substring search and decimal numerals.
//!
//! All contracts are stated over `Seq<char>` views; the executable code
//! walks strings character by character.

use vstd::prelude::*;
use vstd::string::StrSliceExecFns;
use vstd::string::StringExecFns;

verus! {

/// The whitespace characters recognised by the splitting functions:
/// the Unicode `White_Space` set.
pub open spec fn is_space_char(c: char) -> bool {
    c == '\u{0009}' || c == '\u{000A}' || c == '\u{000B}' || c == '\u{000C}'
        || c == '\u{000D}' || c == ' ' || c == '\u{0085}' || c == '\u{00A0}'
        || c == '\u{1680}' || c == '\u{2000}' || c == '\u{2001}' || c == '\u{2002}'
        || c == '\u{2003}' || c == '\u{2004}' || c == '\u{2005}' || c == '\u{2006}'
        || c == '\u{2007}' || c == '\u{2008}' || c == '\u{2009}' || c == '\u{200A}'
        || c == '\u{2028}' || c == '\u{2029}' || c == '\u{202F}' || c == '\u{205F}'
        || c == '\u{3000}'
}

/// Executable test for [`is_space_char`].
pub fn is_space(c: char) -> (r: bool)
    ensures
        r == is_space_char(c),
{
    c == '\u{0009}' || c == '\u{000A}' || c == '\u{000B}' || c == '\u{000C}'
        || c == '\u{000D}' || c == ' ' || c == '\u{0085}' || c == '\u{00A0}'
        || c == '\u{1680}' || c == '\u{2000}' || c == '\u{2001}' || c == '\u{2002}'
        || c == '\u{2003}' || c == '\u{2004}' || c == '\u{2005}' || c == '\u{2006}'
        || c == '\u{2007}' || c == '\u{2008}' || c == '\u{2009}' || c == '\u{200A}'
        || c == '\u{2028}' || c == '\u{2029}' || c == '\u{202F}' || c == '\u{205F}'
        || c == '\u{3000}'
}

/// The views of a sequence of strings.
pub open spec fn seq_views(ts: Seq<String>) -> Seq<Seq<char>> {
    Seq::new(ts.len(), |i: int| ts[i]@)
}

/// Length of the maximal non-whitespace prefix of `s`.
pub open spec fn token_len(s: Seq<char>) -> nat
    decreases s.len(),
{
    if s.len() == 0 || is_space_char(s[0]) {
        0
    } else {
        1 + token_len(s.drop_first())
    }
}

pub proof fn lemma_token_len_le(s: Seq<char>)
    ensures
        token_len(s) <= s.len(),
    decreases s.len(),
{
    if s.len() != 0 && !is_space_char(s[0]) {
        lemma_token_len_le(s.drop_first());
    }
}

/// `token_len` is exactly the position of the first whitespace character.
pub proof fn lemma_token_len_exact(s: Seq<char>, k: int)
    requires
        0 <= k <= s.len(),
        forall|m: int| 0 <= m < k ==> !is_space_char(s[m]),
        k == s.len() || is_space_char(s[k]),
    ensures
        token_len(s) == k,
    decreases s.len(),
{
    if k == 0 {
    } else {
        lemma_token_len_exact(s.drop_first(), k - 1);
    }
}

/// The whitespace-separated tokens of `s`, in order, all non-empty.
pub open spec fn split_ws(s: Seq<char>) -> Seq<Seq<char>>
    decreases s.len(),
    via split_ws_decreases
{
    if s.len() == 0 {
        Seq::empty()
    } else if is_space_char(s[0]) {
        split_ws(s.drop_first())
    } else {
        seq![s.take(token_len(s) as int)] + split_ws(s.skip(token_len(s) as int))
    }
}

#[via_fn]
proof fn split_ws_decreases(s: Seq<char>) {
    if s.len() != 0 && !is_space_char(s[0]) {
        lemma_token_len_le(s);
    }
}

/// Skipping a leading whitespace character does not change the tokens.
pub proof fn lemma_split_ws_skip_space(s: Seq<char>, i: int)
    requires
        0 <= i < s.len(),
        is_space_char(s[i]),
    ensures
        split_ws(s.skip(i)) == split_ws(s.skip(i + 1)),
{
    assert(s.skip(i).drop_first() =~= s.skip(i + 1));
}

/// A maximal non-whitespace run `s[i..j]` is the next token of `s.skip(i)`.
pub proof fn lemma_split_ws_token(s: Seq<char>, i: int, j: int)
    requires
        0 <= i < j <= s.len(),
        forall|m: int| i <= m < j ==> !is_space_char(s[m]),
        j == s.len() || is_space_char(s[j]),
    ensures
        split_ws(s.skip(i)) == seq![s.subrange(i, j)] + split_ws(s.skip(j)),
{
    let t = s.skip(i);
    assert(forall|m: int| 0 <= m < j - i ==> t[m] == s[i + m]);
    lemma_token_len_exact(t, j - i);
    assert(t.take(j - i) =~= s.subrange(i, j));
    assert(t.skip(j - i) =~= s.skip(j));
}

/// Every token produced by `split_ws` is non-empty and free of whitespace.
pub proof fn lemma_split_ws_tokens_wf(s: Seq<char>)
    ensures
        forall|k: int| 0 <= k < split_ws(s).len() ==> (#[trigger] split_ws(s)[k]).len() > 0,
        forall|k: int, m: int|
            0 <= k < split_ws(s).len() && 0 <= m < split_ws(s)[k].len() ==> !is_space_char(
                #[trigger] split_ws(s)[k][m],
            ),
    decreases s.len(),
{
    if s.len() == 0 {
    } else if is_space_char(s[0]) {
        lemma_split_ws_tokens_wf(s.drop_first());
        assert(split_ws(s) == split_ws(s.drop_first()));
    } else {
        let tl = token_len(s) as int;
        lemma_token_len_le(s);
        assert forall|m: int| 0 <= m < tl implies !is_space_char(s[m]) by {
            lemma_token_prefix_nonspace(s, m);
        }
        lemma_split_ws_tokens_wf(s.skip(tl));
        assert(split_ws(s) == seq![s.take(tl)] + split_ws(s.skip(tl)));
        assert forall|k: int| 0 <= k < split_ws(s).len() implies (#[trigger] split_ws(
            s,
        )[k]).len() > 0 by {
            if k == 0 {
                assert(split_ws(s)[0] == s.take(tl));
            } else {
                assert(split_ws(s)[k] == split_ws(s.skip(tl))[k - 1]);
            }
        }
        assert forall|k: int, m: int|
            0 <= k < split_ws(s).len() && 0 <= m < split_ws(s)[k].len() implies !is_space_char(
            #[trigger] split_ws(s)[k][m],
        ) by {
            if k == 0 {
                assert(split_ws(s)[0] == s.take(tl));
            } else {
                assert(split_ws(s)[k] == split_ws(s.skip(tl))[k - 1]);
            }
        }
    }
}

/// Characters before the first whitespace are not whitespace.
proof fn lemma_token_prefix_nonspace(s: Seq<char>, m: int)
    requires
        0 <= m < token_len(s),
    ensures
        !is_space_char(s[m]),
    decreases m,
{
    lemma_token_len_le(s);
    if m == 0 {
        assert(token_len(s) > 0);
        assert(!(s.len() == 0 || is_space_char(s[0])));
    } else {
        lemma_token_prefix_nonspace(s.drop_first(), m - 1);
        assert(s.drop_first()[m - 1] == s[m]);
    }
}

/// Splits `s` at whitespace into its non-empty tokens, in order.
pub fn split_whitespace(s: &str) -> (toks: Vec<String>)
    ensures
        seq_views(toks@) == split_ws(s@),
{
    let n: usize = s.unicode_len();
    let mut toks: Vec<String> = Vec::new();
    let mut i: usize = 0;
    proof {
        assert(s@.skip(0) =~= s@);
    }
    while i < n
        invariant
            0 <= i <= n,
            n == s@.len(),
            seq_views(toks@) + split_ws(s@.skip(i as int)) =~= split_ws(s@),
        decreases n - i,
    {
        let c = s.get_char(i);
        if is_space(c) {
            proof {
                lemma_split_ws_skip_space(s@, i as int);
            }
            i = i + 1;
        } else {
            let start: usize = i;
            let mut j: usize = i + 1;
            while j < n
                invariant
                    i < j <= n,
                    n == s@.len(),
                    forall|m: int| i <= m < j ==> !is_space_char(s@[m]),
                ensures
                    i < j <= n,
                    forall|m: int| i <= m < j ==> !is_space_char(s@[m]),
                    j == n || is_space_char(s@[j as int]),
                decreases n - j,
            {
                let c2 = s.get_char(j);
                if is_space(c2) {
                    break ;
                }
                j = j + 1;
            }
            let tok = s.substring_char(start, j);
            let tok_string = String::from_str(tok);
            proof {
                lemma_split_ws_token(s@, i as int, j as int);
                assert(seq_views(toks@.push(tok_string)) =~= seq_views(toks@) + seq![
                    s@.subrange(i as int, j as int),
                ]);
            }
            toks.push(tok_string);
            i = j;
        }
    }
    proof {
        assert(s@.skip(n as int) =~= Seq::<char>::empty());
    }
    toks
}

/// Character-for-character string equality.
pub fn str_eq(a: &str, b: &str) -> (r: bool)
    ensures
        r == (a@ == b@),
{
    let n: usize = a.unicode_len();
    let m: usize = b.unicode_len();
    if n != m {
        return false;
    }
    let mut i: usize = 0;
    while i < n
        invariant
            0 <= i <= n,
            n == a@.len(),
            n == b@.len(),
            forall|k: int| 0 <= k < i ==> a@[k] == b@[k],
        decreases n - i,
    {
        if a.get_char(i) != b.get_char(i) {
            return false;
        }
        i = i + 1;
    }
    proof {
        assert(a@ =~= b@);
    }
    true
}

/// `p` is a prefix of `s`.
pub open spec fn starts_with(s: Seq<char>, p: Seq<char>) -> bool {
    p.len() <= s.len() && s.take(p.len() as int) == p
}

/// Executable test for [`starts_with`].
pub fn str_starts_with(s: &str, p: &str) -> (r: bool)
    ensures
        r == starts_with(s@, p@),
{
    let n: usize = s.unicode_len();
    let m: usize = p.unicode_len();
    if m > n {
        return false;
    }
    let mut i: usize = 0;
    while i < m
        invariant
            0 <= i <= m <= n,
            n == s@.len(),
            m == p@.len(),
            forall|k: int| 0 <= k < i ==> s@[k] == p@[k],
        decreases m - i,
    {
        if s.get_char(i) != p.get_char(i) {
            proof {
                assert(s@.take(m as int)[i as int] == s@[i as int]);
            }
            return false;
        }
        i = i + 1;
    }
    proof {
        assert(s@.take(m as int) =~= p@);
    }
    true
}

/// `p` is a suffix of `s`.
pub open spec fn ends_with(s: Seq<char>, p: Seq<char>) -> bool {
    p.len() <= s.len() && s.skip(s.len() - p.len()) == p
}

/// Executable test for [`ends_with`].
pub fn str_ends_with(s: &str, p: &str) -> (r: bool)
    ensures
        r == ends_with(s@, p@),
{
    let n: usize = s.unicode_len();
    let m: usize = p.unicode_len();
    if m > n {
        return false;
    }
    let off: usize = n - m;
    let mut i: usize = 0;
    while i < m
        invariant
            0 <= i <= m <= n,
            n == s@.len(),
            m == p@.len(),
            off == n - m,
            forall|k: int| 0 <= k < i ==> s@[off + k] == p@[k],
        decreases m - i,
    {
        if s.get_char(off + i) != p.get_char(i) {
            proof {
                assert(s@.skip(off as int)[i as int] == s@[off + i]);
            }
            return false;
        }
        i = i + 1;
    }
    proof {
        assert(s@.skip(off as int) =~= p@);
    }
    true
}

/// `p` occurs somewhere in `s` as a contiguous run.
pub open spec fn contains_seq(s: Seq<char>, p: Seq<char>) -> bool {
    exists|i: int| 0 <= i && i + p.len() <= s.len() && #[trigger] s.subrange(i, i + p.len()) == p
}

/// Executable substring search for [`contains_seq`].
pub fn str_contains(s: &str, p: &str) -> (r: bool)
    ensures
        r == contains_seq(s@, p@),
{
    let n: usize = s.unicode_len();
    let m: usize = p.unicode_len();
    if m > n {
        return false;
    }
    if m == 0 {
        proof {
            assert(s@.subrange(0, 0 + p@.len() as int) =~= p@);
        }
        return true;
    }
    let mut i: usize = 0;
    while i <= n - m
        invariant
            0 <= i,
            i <= n - m + 1,
            n == s@.len(),
            m == p@.len(),
            0 < m <= n,
            forall|k: int| 0 <= k < i ==> #[trigger] s@.subrange(k, k + m as int) != p@,
        decreases n + 1 - m - i,
    {
        let mut j: usize = 0;
        let mut hit: bool = true;
        while j < m
            invariant_except_break
                hit,
            invariant
                0 <= j <= m,
                i + m <= n,
                n == s@.len(),
                m == p@.len(),
                forall|k: int| 0 <= k < j ==> s@[i + k] == p@[k],
            ensures
                0 <= j <= m,
                hit ==> forall|k: int| 0 <= k < j ==> s@[i + k] == p@[k],
                hit ==> j == m,
                !hit ==> j < m && s@[i + j] != p@[j as int],
            decreases m - j,
        {
            if s.get_char(i + j) != p.get_char(j) {
                hit = false;
                break ;
            }
            j = j + 1;
        }
        if hit {
            proof {
                assert(s@.subrange(i as int, i + m as int) =~= p@);
            }
            return true;
        }
        proof {
            assert(s@.subrange(i as int, i + m as int)[j as int] == s@[i + j]);
        }
        i = i + 1;
    }
    proof {
        assert forall|k: int| 0 <= k && k + p@.len() <= s@.len() implies #[trigger] s@.subrange(
            k,
            k + p@.len(),
        ) != p@ by {
            assert(k < i);
        }
    }
    false
}

/// The tokens joined with a single space between neighbours.
pub open spec fn join_spaces(ts: Seq<Seq<char>>) -> Seq<char>
    decreases ts.len(),
{
    if ts.len() == 0 {
        Seq::empty()
    } else if ts.len() == 1 {
        ts[0]
    } else {
        ts[0] + seq![' '] + join_spaces(ts.drop_first())
    }
}

/// Appending one more token appends a space and the token.
pub proof fn lemma_join_spaces_push(ts: Seq<Seq<char>>, t: Seq<char>)
    ensures
        ts.len() == 0 ==> join_spaces(ts.push(t)) == t,
        ts.len() > 0 ==> join_spaces(ts.push(t)) == join_spaces(ts) + seq![' '] + t,
    decreases ts.len(),
{
    if ts.len() == 0 {
        assert(ts.push(t)[0] == t);
        assert(join_spaces(ts.push(t)) == t);
    } else if ts.len() == 1 {
        assert(ts.push(t).drop_first() =~= ts.drop_first().push(t));
        lemma_join_spaces_push(ts.drop_first(), t);
        assert(ts.push(t)[0] == ts[0]);
        assert(join_spaces(ts.push(t)) == ts[0] + seq![' '] + t);
        assert(join_spaces(ts) + seq![' '] + t =~= ts[0] + seq![' '] + t);
    } else {
        assert(ts.push(t).drop_first() =~= ts.drop_first().push(t));
        lemma_join_spaces_push(ts.drop_first(), t);
        assert(ts.push(t)[0] == ts[0]);
        assert(join_spaces(ts.push(t)) == ts[0] + seq![' '] + join_spaces(ts.drop_first().push(t)));
        assert(ts[0] + seq![' '] + (join_spaces(ts.drop_first()) + seq![' '] + t) =~= (ts[0]
            + seq![' '] + join_spaces(ts.drop_first())) + seq![' '] + t);
    }
}

/// Joins the tokens of `toks` from position `from` on, separated by
/// single spaces.
pub fn join_tokens_from(toks: &Vec<String>, from: usize) -> (r: String)
    requires
        from <= toks@.len(),
    ensures
        r@ == join_spaces(seq_views(toks@).skip(from as int)),
{
    let ghost all = seq_views(toks@);
    let mut r = String::new();
    if from >= toks.len() {
        proof {
            assert(all.skip(from as int) =~= Seq::<Seq<char>>::empty());
        }
        return r;
    }
    r.append(toks[from].as_str());
    let mut k: usize = from + 1;
    proof {
        assert(all.skip(from as int).subrange(0, 1) =~= all.subrange(from as int, k as int));
        assert(all.subrange(from as int, k as int)[0] == all[from as int]);
        assert(join_spaces(all.subrange(from as int, k as int)) == all[from as int]);
    }
    while k < toks.len()
        invariant
            from < k <= toks@.len(),
            all == seq_views(toks@),
            r@ == join_spaces(all.subrange(from as int, k as int)),
        decreases toks@.len() - k,
    {
        r.append(" ");
        r.append(toks[k].as_str());
        proof {
            reveal_strlit(" ");
            assert(" "@ =~= seq![' ']);
            let pre = all.subrange(from as int, k as int);
            assert(all.subrange(from as int, k + 1 as int) =~= pre.push(all[k as int]));
            lemma_join_spaces_push(pre, all[k as int]);
            assert(r@ =~= join_spaces(pre) + seq![' '] + all[k as int]);
        }
        k = k + 1;
    }
    proof {
        assert(all.subrange(from as int, toks@.len() as int) =~= all.skip(from as int));
    }
    r
}

/// ASCII decimal digit.
pub open spec fn is_digit_char(c: char) -> bool {
    '0' <= c && c <= '9'
}

/// Numeric value of a digit character.
pub open spec fn digit_val(c: char) -> int {
    c as int - '0' as int
}

/// All characters of `s` are decimal digits.
pub open spec fn all_digits(s: Seq<char>) -> bool {
    forall|m: int| 0 <= m < s.len() ==> is_digit_char(s[m])
}

/// The value of `s` read as a decimal numeral.
pub open spec fn dec_val(s: Seq<char>) -> int
    decreases s.len(),
{
    if s.len() == 0 {
        0
    } else {
        dec_val(s.drop_last()) * 10 + digit_val(s.last())
    }
}

pub proof fn lemma_dec_val_nonneg(s: Seq<char>)
    requires
        all_digits(s),
    ensures
        dec_val(s) >= 0,
    decreases s.len(),
{
    if s.len() > 0 {
        lemma_dec_val_nonneg(s.drop_last());
    }
}

/// A decimal numeral is at least as large as the numeral of any prefix.
pub proof fn lemma_dec_val_prefix_le(s: Seq<char>, k: int)
    requires
        all_digits(s),
        0 <= k <= s.len(),
    ensures
        dec_val(s.take(k)) <= dec_val(s),
    decreases s.len() - k,
{
    if k == s.len() {
        assert(s.take(k) =~= s);
    } else {
        lemma_dec_val_prefix_le(s, k + 1);
        assert(s.take(k + 1).drop_last() =~= s.take(k));
        lemma_dec_val_nonneg(s.take(k));
        assert(dec_val(s.take(k + 1)) == dec_val(s.take(k)) * 10 + digit_val(s.take(k + 1).last()));
    }
}

/// The digits of `s` after an optional leading plus sign.
pub open spec fn numeral_body(s: Seq<char>) -> Seq<char> {
    if s.len() > 0 && s[0] == '+' {
        s.drop_first()
    } else {
        s
    }
}

/// `s` is a numeral that Rust's unsigned 64-bit parser accepts: an
/// optional `+`, then at least one digit, with a value that fits.
pub open spec fn is_u64_numeral(s: Seq<char>) -> bool {
    numeral_body(s).len() > 0 && all_digits(numeral_body(s)) && dec_val(numeral_body(s))
        <= u64::MAX as int
}

/// Parses `s` as an unsigned 64-bit decimal numeral.
pub fn parse_u64(s: &str) -> (r: Option<u64>)
    ensures
        is_u64_numeral(s@) ==> r == Some(dec_val(numeral_body(s@)) as u64),
        !is_u64_numeral(s@) ==> r is None,
{
    let n: usize = s.unicode_len();
    let start: usize = if n > 0 && s.get_char(0) == '+' {
        1
    } else {
        0
    };
    let ghost body = numeral_body(s@);
    proof {
        assert(body =~= s@.skip(start as int));
    }
    if start >= n {
        return None;
    }
    let mut acc: u64 = 0;
    let mut i: usize = start;
    proof {
        assert(body.take(0) =~= Seq::<char>::empty());
    }
    while i < n
        invariant
            start <= i <= n,
            n == s@.len(),
            body == s@.skip(start as int),
            body == numeral_body(s@),
            start <= 1,
            all_digits(body.take(i - start)),
            acc as int == dec_val(body.take(i - start)),
        decreases n - i,
    {
        let c = s.get_char(i);
        if !('0' <= c && c <= '9') {
            proof {
                assert(body[i - start] == s@[i as int]);
                assert(!is_digit_char(body[i - start]));
                assert(!all_digits(body));
            }
            return None;
        }
        let d: u64 = (c as u32 - 48) as u64;
        proof {
            assert(d as int == digit_val(s@[i as int]));
        }
        if acc > (u64::MAX - d) / 10 {
            proof {
                let k = i - start;
                assert(body.take(k + 1).drop_last() =~= body.take(k));
                assert(body.take(k + 1).last() == body[k]);
                assert(body[k] == s@[i as int]);
                assert(digit_val(body[k]) == d as int);
                assert(dec_val(body.take(k + 1)) == acc as int * 10 + d as int);
                assert(acc as int >= (u64::MAX - d) as int / 10 + 1);
                assert(acc as int * 10 >= ((u64::MAX - d) as int / 10 + 1) * 10);
                assert(((u64::MAX - d) as int / 10) * 10 + 10 > (u64::MAX - d) as int);
                assert(dec_val(body.take(k + 1)) > u64::MAX as int);
                if all_digits(body) {
                    lemma_dec_val_prefix_le(body, k + 1);
                }
            }
            return None;
        }
        proof {
            assert(acc <= (u64::MAX - d) / 10);
            assert(acc as int * 10 <= ((u64::MAX - d) / 10) as int * 10);
            assert(((u64::MAX - d) as int / 10) * 10 <= (u64::MAX - d) as int);
        }
        acc = acc * 10 + d;
        proof {
            let k = i - start;
            assert(body.take(k + 1).drop_last() =~= body.take(k));
            assert(body.take(k + 1).last() == body[k]);
            assert(body[k] == s@[i as int]);
        }
        i = i + 1;
    }
    proof {
        assert(body.take(n - start) =~= body);
    }
    Some(acc)
}

/// The character for a digit value.
pub open spec fn digit_char(d: int) -> char {
    if d == 0 {
        '0'
    } else if d == 1 {
        '1'
    } else if d == 2 {
        '2'
    } else if d == 3 {
        '3'
    } else if d == 4 {
        '4'
    } else if d == 5 {
        '5'
    } else if d == 6 {
        '6'
    } else if d == 7 {
        '7'
    } else if d == 8 {
        '8'
    } else {
        '9'
    }
}

/// A one-character string for a digit value.
fn digit_str(d: u32) -> (r: &'static str)
    requires
        d < 10,
    ensures
        r@ =~= seq![digit_char(d as int)],
{
    proof {
        reveal_strlit("0");
        reveal_strlit("1");
        reveal_strlit("2");
        reveal_strlit("3");
        reveal_strlit("4");
        reveal_strlit("5");
        reveal_strlit("6");
        reveal_strlit("7");
        reveal_strlit("8");
        reveal_strlit("9");
    }
    if d == 0 {
        "0"
    } else if d == 1 {
        "1"
    } else if d == 2 {
        "2"
    } else if d == 3 {
        "3"
    } else if d == 4 {
        "4"
    } else if d == 5 {
        "5"
    } else if d == 6 {
        "6"
    } else if d == 7 {
        "7"
    } else if d == 8 {
        "8"
    } else {
        "9"
    }
}

/// The decimal numeral for a non-negative value.
pub open spec fn dec_repr(v: int) -> Seq<char>
    decreases v,
{
    if v < 10 {
        seq![digit_char(v)]
    } else {
        dec_repr(v / 10) + seq![digit_char(v % 10)]
    }
}

/// Renders `v` as a decimal numeral without a leading zero.
pub fn u32_to_dec(v: u32) -> (r: String)
    ensures
        r@ == dec_repr(v as int),
        all_digits(r@),
        dec_val(r@) == v as int,
        r@.len() >= 1,
        v == 0 ==> r@ =~= seq!['0'],
        v != 0 ==> r@[0] != '0',
    decreases v,
{
    if v < 10 {
        let r = String::from_str(digit_str(v));
        proof {
            assert(r@.drop_last() =~= Seq::<char>::empty());
            assert(dec_val(Seq::<char>::empty()) == 0);
            assert(r@.last() == digit_char(v as int));
        }
        r
    } else {
        let mut r = u32_to_dec(v / 10);
        let ghost rest = r@;
        let d: u32 = v % 10;
        r.append(digit_str(d));
        proof {
            assert(r@.drop_last() =~= rest);
            assert(r@.last() == digit_char(d as int));
            assert(dec_val(r@) == dec_val(rest) * 10 + d as int);
            assert(dec_val(r@) == (v as int / 10) * 10 + v as int % 10);
            assert forall|m: int| 0 <= m < r@.len() implies is_digit_char(r@[m]) by {
                if m < rest.len() {
                    assert(r@[m] == rest[m]);
                }
            }
            assert(r@[0] == rest[0]);
        }
        r
    }
}

/// `s` without its trailing slashes.
pub open spec fn strip_trailing_slashes(s: Seq<char>) -> Seq<char>
    decreases s.len(),
{
    if s.len() > 0 && s.last() == '/' {
        strip_trailing_slashes(s.drop_last())
    } else {
        s
    }
}

/// The characters after the last slash of `s` (all of `s` when it has
/// no slash).
pub open spec fn after_last_slash(s: Seq<char>) -> Seq<char>
    decreases s.len(),
{
    if s.len() == 0 {
        Seq::empty()
    } else if s.last() == '/' {
        Seq::empty()
    } else {
        after_last_slash(s.drop_last()).push(s.last())
    }
}

/// The final path segment of `s`: trailing slashes are ignored, and the
/// segment runs from just after the last remaining slash to the end.
pub open spec fn final_segment(s: Seq<char>) -> Seq<char> {
    after_last_slash(strip_trailing_slashes(s))
}

proof fn lemma_strip_trailing(s: Seq<char>, e: int)
    requires
        0 <= e <= s.len(),
        forall|m: int| e <= m < s.len() ==> s[m] == '/',
        e == 0 || s[e - 1] != '/',
    ensures
        strip_trailing_slashes(s) == s.take(e),
    decreases s.len(),
{
    if s.len() == 0 {
        assert(s.take(0) =~= s);
    } else if e == s.len() {
        assert(s.last() != '/');
        assert(s.take(e) =~= s);
    } else {
        assert(s.last() == '/');
        lemma_strip_trailing(s.drop_last(), e);
        assert(s.drop_last().take(e) =~= s.take(e));
    }
}

proof fn lemma_after_last_slash(s: Seq<char>, b: int)
    requires
        0 <= b <= s.len(),
        forall|m: int| b <= m < s.len() ==> s[m] != '/',
        b == 0 || s[b - 1] == '/',
    ensures
        after_last_slash(s) == s.subrange(b, s.len() as int),
    decreases s.len(),
{
    if s.len() == 0 {
        assert(s.subrange(0, 0) =~= Seq::<char>::empty());
    } else if b == s.len() {
        assert(s.last() == '/');
        assert(s.subrange(b, s.len() as int) =~= Seq::<char>::empty());
    } else {
        assert(s.last() != '/');
        lemma_after_last_slash(s.drop_last(), b);
        assert(s.drop_last().subrange(b, s.drop_last().len() as int) =~= s.subrange(
            b,
            s.len() - 1,
        ));
        assert(s.subrange(b, s.len() - 1).push(s.last()) =~= s.subrange(b, s.len() as int));
    }
}

/// The final path segment of `s` as a fresh string.
pub fn final_segment_of(s: &str) -> (r: String)
    ensures
        r@ == final_segment(s@),
{
    let n: usize = s.unicode_len();
    let mut e: usize = n;
    while e > 0 && s.get_char(e - 1) == '/'
        invariant
            0 <= e <= n,
            n == s@.len(),
            forall|m: int| e <= m < n ==> s@[m] == '/',
        decreases e,
    {
        e = e - 1;
    }
    proof {
        lemma_strip_trailing(s@, e as int);
    }
    let mut b: usize = e;
    while b > 0 && s.get_char(b - 1) != '/'
        invariant
            0 <= b <= e <= n,
            n == s@.len(),
            forall|m: int| b <= m < e ==> s@[m] != '/',
        decreases b,
    {
        b = b - 1;
    }
    proof {
        let t = s@.take(e as int);
        assert(forall|m: int| b <= m < t.len() ==> t[m] == s@[m]);
        lemma_after_last_slash(t, b as int);
        assert(t.subrange(b as int, e as int) =~= s@.subrange(b as int, e as int));
    }
    let seg = s.substring_char(b, e);
    String::from_str(seg)
}

/// Round trip: splitting a space-joined sequence of non-empty,
/// whitespace-free tokens yields the tokens again.
pub proof fn lemma_split_join_round_trip(ts: Seq<Seq<char>>)
    requires
        forall|k: int| 0 <= k < ts.len() ==> (#[trigger] ts[k]).len() > 0,
        forall|k: int, m: int|
            0 <= k < ts.len() && 0 <= m < ts[k].len() ==> !is_space_char(#[trigger] ts[k][m]),
    ensures
        split_ws(join_spaces(ts)) == ts,
    decreases ts.len(),
{
    if ts.len() == 0 {
    } else {
        let s = join_spaces(ts);
        let t0 = ts[0];
        let l0 = t0.len() as int;
        assert forall|m: int| 0 <= m < l0 implies !is_space_char(t0[m]) by {
            assert(!is_space_char(ts[0][m]));
        }
        if ts.len() == 1 {
            assert(s == t0);
            lemma_split_ws_token(s, 0, l0);
            assert(s.subrange(0, l0) =~= t0);
            assert(s.skip(l0) =~= Seq::<char>::empty());
            assert(split_ws(s) =~= seq![t0]);
            assert(seq![t0] =~= ts);
        } else {
            let rest = join_spaces(ts.drop_first());
            assert(s == t0 + seq![' '] + rest);
            assert(forall|m: int| 0 <= m < l0 ==> s[m] == t0[m]);
            assert(s[l0] == ' ');
            lemma_split_ws_token(s, 0, l0);
            assert(s.subrange(0, l0) =~= t0);
            lemma_split_ws_skip_space(s, l0);
            assert(s.skip(l0 + 1) =~= rest);
            let tr = ts.drop_first();
            assert forall|k: int| 0 <= k < tr.len() implies (#[trigger] tr[k]).len() > 0 by {
                assert(tr[k] == ts[k + 1]);
            }
            assert forall|k: int, m: int|
                0 <= k < tr.len() && 0 <= m < tr[k].len() implies !is_space_char(
                #[trigger] tr[k][m],
            ) by {
                assert(tr[k] == ts[k + 1]);
                assert(!is_space_char(ts[k + 1][m]));
            }
            lemma_split_join_round_trip(tr);
            assert(s.skip(0) =~= s);
            assert(split_ws(s.skip(l0)) == tr);
            assert(split_ws(s) == seq![s.subrange(0, l0)] + split_ws(s.skip(l0)));
            assert(split_ws(s) == seq![t0] + ts.drop_first());
            assert(seq![t0] + ts.drop_first() =~= ts);
        }
    }
}

} // verus!
