//! Text primitives for the TBE parser: whitespace trimming, splitting a line
//! on commas, and extracting the second whitespace-separated token of a
//! field. Each executable function is proved against a spec function over
//! the string's view (a sequence of characters).

use vstd::prelude::*;
use vstd::string::StrSliceExecFns;

verus! {

/// The characters that count as whitespace when tokens are trimmed:
/// the Unicode `White_Space` set.
pub open spec fn is_ws(c: char) -> bool {
    ||| c == ' '
    ||| c == '\t'
    ||| c == '\n'
    ||| c == '\u{000B}'
    ||| c == '\u{000C}'
    ||| c == '\r'
    ||| c == '\u{0085}'
    ||| c == '\u{00A0}'
    ||| c == '\u{1680}'
    ||| c == '\u{2000}'
    ||| c == '\u{2001}'
    ||| c == '\u{2002}'
    ||| c == '\u{2003}'
    ||| c == '\u{2004}'
    ||| c == '\u{2005}'
    ||| c == '\u{2006}'
    ||| c == '\u{2007}'
    ||| c == '\u{2008}'
    ||| c == '\u{2009}'
    ||| c == '\u{200A}'
    ||| c == '\u{2028}'
    ||| c == '\u{2029}'
    ||| c == '\u{202F}'
    ||| c == '\u{205F}'
    ||| c == '\u{3000}'
}

pub fn is_ws_exec(c: char) -> (b: bool)
    ensures
        b == is_ws(c),
{
    c == ' ' || c == '\t' || c == '\n' || c == '\u{000B}' || c == '\u{000C}' || c == '\r'
        || c == '\u{0085}' || c == '\u{00A0}' || c == '\u{1680}' || c == '\u{2000}'
        || c == '\u{2001}' || c == '\u{2002}' || c == '\u{2003}' || c == '\u{2004}'
        || c == '\u{2005}' || c == '\u{2006}' || c == '\u{2007}' || c == '\u{2008}'
        || c == '\u{2009}' || c == '\u{200A}' || c == '\u{2028}' || c == '\u{2029}'
        || c == '\u{202F}' || c == '\u{205F}' || c == '\u{3000}'
}

/// The sequence with leading whitespace removed.
pub open spec fn trim_start_spec(s: Seq<char>) -> Seq<char>
    decreases s.len(),
{
    if s.len() == 0 {
        s
    } else if is_ws(s[0]) {
        trim_start_spec(s.drop_first())
    } else {
        s
    }
}

/// The sequence with trailing whitespace removed.
pub open spec fn trim_end_spec(s: Seq<char>) -> Seq<char>
    decreases s.len(),
{
    if s.len() == 0 {
        s
    } else if is_ws(s.last()) {
        trim_end_spec(s.drop_last())
    } else {
        s
    }
}

/// The sequence with leading and trailing whitespace removed.
pub open spec fn trim_spec(s: Seq<char>) -> Seq<char> {
    trim_end_spec(trim_start_spec(s))
}

proof fn lemma_trim_start_at(s: Seq<char>, a: int)
    requires
        0 <= a <= s.len(),
        forall|k: int| 0 <= k < a ==> is_ws(s[k]),
        a == s.len() || !is_ws(s[a]),
    ensures
        trim_start_spec(s) == s.subrange(a, s.len() as int),
    decreases a,
{
    if a == 0 {
        if s.len() == 0 {
            assert(s.subrange(0, 0) =~= s);
        } else {
            assert(s.subrange(0, s.len() as int) =~= s);
        }
    } else {
        let d = s.drop_first();
        assert(is_ws(s[0]));
        lemma_trim_start_at(d, a - 1);
        assert(d.subrange(a - 1, d.len() as int) =~= s.subrange(a, s.len() as int));
    }
}

proof fn lemma_trim_end_at(s: Seq<char>, b: int)
    requires
        0 <= b <= s.len(),
        forall|k: int| b <= k < s.len() ==> is_ws(s[k]),
        b == 0 || !is_ws(s[b - 1]),
    ensures
        trim_end_spec(s) == s.subrange(0, b),
    decreases s.len() - b,
{
    if b == s.len() {
        if s.len() == 0 {
            assert(s.subrange(0, 0) =~= s);
        } else {
            assert(s.subrange(0, s.len() as int) =~= s);
        }
    } else {
        let d = s.drop_last();
        assert(is_ws(s.last()));
        lemma_trim_end_at(d, b);
        assert(d.subrange(0, b) =~= s.subrange(0, b));
    }
}

/// Strips leading and trailing whitespace, as `trim_spec` describes.
pub fn trim_str<'a>(s: &'a str) -> (r: &'a str)
    ensures
        r@ == trim_spec(s@),
{
    let n = s.unicode_len();
    let mut a: usize = 0;
    while a < n && is_ws_exec(s.get_char(a))
        invariant
            n == s@.len(),
            0 <= a <= n,
            forall|k: int| 0 <= k < a ==> is_ws(s@[k]),
        decreases n - a,
    {
        a = a + 1;
    }
    let mut b: usize = n;
    while b > a && is_ws_exec(s.get_char(b - 1))
        invariant
            n == s@.len(),
            a <= b <= n,
            forall|k: int| b <= k < n ==> is_ws(s@[k]),
            a == n || !is_ws(s@[a as int]),
        decreases b,
    {
        b = b - 1;
    }
    proof {
        lemma_trim_start_at(s@, a as int);
        let t = s@.subrange(a as int, n as int);
        lemma_trim_end_at(t, b - a);
        assert(t.subrange(0, b - a) =~= s@.subrange(a as int, b as int));
    }
    s.substring_char(a, b)
}

/// Character-by-character string equality, stated over the views.
pub fn str_eq(a: &str, b: &str) -> (r: bool)
    ensures
        r == (a@ == b@),
{
    let na = a.unicode_len();
    let nb = b.unicode_len();
    if na != nb {
        return false;
    }
    let mut i: usize = 0;
    while i < na
        invariant
            na == a@.len(),
            na == b@.len(),
            0 <= i <= na,
            forall|k: int| 0 <= k < i ==> a@[k] == b@[k],
        decreases na - i,
    {
        if a.get_char(i) != b.get_char(i) {
            return false;
        }
        i = i + 1;
    }
    proof {
        assert(a@ =~= b@);
    }
    true
}

/// The view of a sequence of owned strings.
pub open spec fn strs_view(ss: Seq<String>) -> Seq<Seq<char>> {
    ss.map(|i: int, s: String| s@)
}

/// The comma-separated fields of a sequence: splitting the empty sequence
/// gives one empty field, and every comma ends the field before it.
pub open spec fn split_commas(s: Seq<char>) -> Seq<Seq<char>>
    decreases s.len(),
{
    if s.len() == 0 {
        seq![s]
    } else if s[0] == ',' {
        seq![Seq::<char>::empty()] + split_commas(s.drop_first())
    } else {
        let rest = split_commas(s.drop_first());
        seq![seq![s[0]] + rest[0]] + rest.drop_first()
    }
}

pub proof fn lemma_split_commas_len(s: Seq<char>)
    ensures
        split_commas(s).len() >= 1,
    decreases s.len(),
{
    if s.len() != 0 {
        lemma_split_commas_len(s.drop_first());
    }
}

proof fn lemma_split_no_comma(s: Seq<char>)
    requires
        forall|k: int| 0 <= k < s.len() ==> s[k] != ',',
    ensures
        split_commas(s) == seq![s],
    decreases s.len(),
{
    if s.len() != 0 {
        let d = s.drop_first();
        lemma_split_no_comma(d);
        assert(seq![s[0]] + d =~= s);
        assert(split_commas(s) =~= seq![s]);
    }
}

proof fn lemma_split_at_first_comma(s: Seq<char>, j: int)
    requires
        0 <= j < s.len(),
        s[j] == ',',
        forall|k: int| 0 <= k < j ==> s[k] != ',',
    ensures
        split_commas(s) == seq![s.subrange(0, j)] + split_commas(
            s.subrange(j + 1, s.len() as int),
        ),
    decreases j,
{
    let d = s.drop_first();
    if j == 0 {
        assert(s.subrange(0, 0) =~= Seq::<char>::empty());
        assert(s.subrange(1, s.len() as int) =~= d);
    } else {
        lemma_split_at_first_comma(d, j - 1);
        lemma_split_commas_len(d.subrange(j, d.len() as int));
        assert(d.subrange(0, j - 1) =~= s.subrange(1, j));
        assert(d.subrange(j, d.len() as int) =~= s.subrange(j + 1, s.len() as int));
        let rest = split_commas(d);
        assert(seq![s[0]] + rest[0] =~= s.subrange(0, j));
        assert(rest.drop_first() =~= split_commas(s.subrange(j + 1, s.len() as int)));
        assert(split_commas(s) =~= seq![s.subrange(0, j)] + split_commas(
            s.subrange(j + 1, s.len() as int),
        ));
    }
}

/// Splits a line on commas into owned fields, as `split_commas` describes.
pub fn split_commas_str(s: &str) -> (r: Vec<String>)
    ensures
        strs_view(r@) == split_commas(s@),
        r@.len() >= 1,
    decreases s@.len(),
{
    let n = s.unicode_len();
    let mut j: usize = 0;
    while j < n && s.get_char(j) != ','
        invariant
            n == s@.len(),
            0 <= j <= n,
            forall|k: int| 0 <= k < j ==> s@[k] != ',',
        decreases n - j,
    {
        j = j + 1;
    }
    if j == n {
        proof {
            lemma_split_no_comma(s@);
        }
        let mut r: Vec<String> = Vec::new();
        r.push(s.to_owned());
        proof {
            assert(strs_view(r@) =~= split_commas(s@));
        }
        r
    } else {
        let head = s.substring_char(0, j);
        let tail = s.substring_char(j + 1, n);
        let mut r = split_commas_str(tail);
        r.insert(0, head.to_owned());
        proof {
            lemma_split_at_first_comma(s@, j as int);
            assert(strs_view(r@) =~= split_commas(s@));
        }
        r
    }
}

/// The longest whitespace-free prefix of the sequence.
pub open spec fn take_token_spec(s: Seq<char>) -> Seq<char>
    decreases s.len(),
{
    if s.len() == 0 || is_ws(s[0]) {
        Seq::empty()
    } else {
        seq![s[0]] + take_token_spec(s.drop_first())
    }
}

/// The sequence with its longest whitespace-free prefix removed.
pub open spec fn drop_token_spec(s: Seq<char>) -> Seq<char>
    decreases s.len(),
{
    if s.len() == 0 || is_ws(s[0]) {
        s
    } else {
        drop_token_spec(s.drop_first())
    }
}

/// The second whitespace-separated token of the sequence; empty when there
/// is no second token.
pub open spec fn second_token_spec(s: Seq<char>) -> Seq<char> {
    take_token_spec(trim_start_spec(drop_token_spec(trim_start_spec(s))))
}

proof fn lemma_take_token_at(s: Seq<char>, c: int)
    requires
        0 <= c <= s.len(),
        forall|k: int| 0 <= k < c ==> !is_ws(s[k]),
        c == s.len() || is_ws(s[c]),
    ensures
        take_token_spec(s) == s.subrange(0, c),
    decreases c,
{
    if c == 0 {
        assert(s.subrange(0, 0) =~= Seq::<char>::empty());
    } else {
        let d = s.drop_first();
        lemma_take_token_at(d, c - 1);
        assert(d.subrange(0, c - 1) =~= s.subrange(1, c));
        assert(seq![s[0]] + s.subrange(1, c) =~= s.subrange(0, c));
    }
}

proof fn lemma_drop_token_at(s: Seq<char>, c: int)
    requires
        0 <= c <= s.len(),
        forall|k: int| 0 <= k < c ==> !is_ws(s[k]),
        c == s.len() || is_ws(s[c]),
    ensures
        drop_token_spec(s) == s.subrange(c, s.len() as int),
    decreases c,
{
    if c == 0 {
        assert(s.subrange(0, s.len() as int) =~= s);
    } else {
        let d = s.drop_first();
        lemma_drop_token_at(d, c - 1);
        assert(d.subrange(c - 1, d.len() as int) =~= s.subrange(c, s.len() as int));
    }
}

/// Extracts the second whitespace-separated token, as `second_token_spec`
/// describes; the result is empty when the input has fewer than two tokens.
pub fn second_token_str(s: &str) -> (r: String)
    ensures
        r@ == second_token_spec(s@),
{
    let n = s.unicode_len();
    let mut i: usize = 0;
    while i < n && is_ws_exec(s.get_char(i))
        invariant
            n == s@.len(),
            0 <= i <= n,
            forall|k: int| 0 <= k < i ==> is_ws(s@[k]),
        decreases n - i,
    {
        i = i + 1;
    }
    let mut j: usize = i;
    while j < n && !is_ws_exec(s.get_char(j))
        invariant
            n == s@.len(),
            i <= j <= n,
            forall|k: int| i <= k < j ==> !is_ws(s@[k]),
        decreases n - j,
    {
        j = j + 1;
    }
    let mut k: usize = j;
    while k < n && is_ws_exec(s.get_char(k))
        invariant
            n == s@.len(),
            j <= k <= n,
            forall|q: int| j <= q < k ==> is_ws(s@[q]),
        decreases n - k,
    {
        k = k + 1;
    }
    let mut m: usize = k;
    while m < n && !is_ws_exec(s.get_char(m))
        invariant
            n == s@.len(),
            k <= m <= n,
            forall|q: int| k <= q < m ==> !is_ws(s@[q]),
        decreases n - m,
    {
        m = m + 1;
    }
    proof {
        lemma_trim_start_at(s@, i as int);
        let t1 = s@.subrange(i as int, n as int);
        lemma_drop_token_at(t1, j - i);
        assert(t1.subrange(j - i, t1.len() as int) =~= s@.subrange(j as int, n as int));
        let t2 = s@.subrange(j as int, n as int);
        lemma_trim_start_at(t2, k - j);
        assert(t2.subrange(k - j, t2.len() as int) =~= s@.subrange(k as int, n as int));
        let t3 = s@.subrange(k as int, n as int);
        lemma_take_token_at(t3, m - k);
        assert(t3.subrange(0, m - k) =~= s@.subrange(k as int, m as int));
    }
    s.substring_char(k, m).to_owned()
}

} // verus!
