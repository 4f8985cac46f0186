//! Character-level text operations used to read typed commands: splitting
//! into words and pieces, trimming, searching and joining.
use vstd::prelude::*;

verus! {

/// Unicode `White_Space` characters.
pub open spec fn is_ws(c: char) -> bool {
    ('\u{9}' <= c && c <= '\u{d}') || c == ' ' || c == '\u{85}' || c == '\u{a0}' || c == '\u{1680}'
        || ('\u{2000}' <= c && c <= '\u{200a}') || c == '\u{2028}' || c == '\u{2029}' || c == '\u{202f}'
        || c == '\u{205f}' || c == '\u{3000}'
}

pub fn char_is_ws(c: char) -> (r: bool)
    ensures
        r == is_ws(c),
{
    ('\u{9}' <= c && c <= '\u{d}') || c == ' ' || c == '\u{85}' || c == '\u{a0}' || c == '\u{1680}'
        || ('\u{2000}' <= c && c <= '\u{200a}') || c == '\u{2028}' || c == '\u{2029}' || c == '\u{202f}'
        || c == '\u{205f}' || c == '\u{3000}'
}

/// The characters of a string slice.
pub fn chars_of(s: &str) -> (r: Vec<char>)
    ensures
        r@ == s@,
{
    let n = s.unicode_len();
    let mut out: Vec<char> = Vec::new();
    let mut i: usize = 0;
    while i < n
        invariant
            n == s@.len(),
            i <= n,
            out@ == s@.take(i as int),
        decreases n - i,
    {
        out.push(s.get_char(i));
        i = i + 1;
        assert(out@ =~= s@.take(i as int));
    }
    assert(s@.take(n as int) =~= s@);
    out
}

/// Relies on `String`'s `FromIterator<&char>`: the characters, in order.
#[verifier::external_body]
pub(crate) fn string_of(chars: &Vec<char>) -> (r: String)
    ensures
        r@ == chars@,
{
    String::from_iter(chars.iter())
}

/// What `str::to_uppercase` makes of a text.
pub uninterp spec fn upper_of(s: Seq<char>) -> Seq<char>;

/// Relies on `str::to_uppercase`: the result depends on the characters alone.
#[verifier::external_body]
pub(crate) fn uppercase(s: &Vec<char>) -> (r: Vec<char>)
    ensures
        r@ == upper_of(s@),
{
    String::from_iter(s.iter()).to_uppercase().chars().collect()
}

/// The texts of a list of character vectors.
pub open spec fn texts(v: Seq<Vec<char>>) -> Seq<Seq<char>> {
    v.map_values(|w: Vec<char>| w@)
}

/// Whether two character vectors hold the same text.
pub fn same_text(a: &Vec<char>, b: &Vec<char>) -> (r: bool)
    ensures
        r == (a@ == b@),
{
    if a.len() != b.len() {
        return false;
    }
    let mut i: usize = 0;
    while i < a.len()
        invariant
            a@.len() == b@.len(),
            i <= a@.len(),
            forall|j: int| 0 <= j < i ==> a@[j] == b@[j],
        decreases a@.len() - i,
    {
        if a[i] != b[i] {
            return false;
        }
        i = i + 1;
    }
    assert(a@ =~= b@);
    true
}

/// The characters `lo..hi` of a text.
pub fn slice(v: &Vec<char>, lo: usize, hi: usize) -> (r: Vec<char>)
    requires
        lo <= hi <= v@.len(),
    ensures
        r@ == v@.subrange(lo as int, hi as int),
{
    let mut out: Vec<char> = Vec::new();
    let mut i: usize = lo;
    while i < hi
        invariant
            lo <= i <= hi,
            hi <= v@.len(),
            out@ == v@.subrange(lo as int, i as int),
        decreases hi - i,
    {
        out.push(v[i]);
        i = i + 1;
        assert(out@ =~= v@.subrange(lo as int, i as int));
    }
    out
}

/// The words of a text, a word in progress being `cur`: maximal runs of
/// characters that are not white space.
pub open spec fn words_from(s: Seq<char>, cur: Seq<char>) -> Seq<Seq<char>>
    decreases s.len(),
{
    let done: Seq<Seq<char>> = if cur.len() > 0 {
        seq![cur]
    } else {
        Seq::empty()
    };
    if s.len() == 0 {
        done
    } else if is_ws(s[0]) {
        done + words_from(s.drop_first(), Seq::empty())
    } else {
        words_from(s.drop_first(), cur.push(s[0]))
    }
}

/// The words of a text, as `str::split_whitespace` gives them.
pub open spec fn words(s: Seq<char>) -> Seq<Seq<char>> {
    words_from(s, Seq::empty())
}

/// Splits a text into its words.
pub fn split_words(v: &Vec<char>) -> (r: Vec<Vec<char>>)
    ensures
        texts(r@) == words(v@),
{
    let mut out: Vec<Vec<char>> = Vec::new();
    let mut start: usize = 0;
    let mut i: usize = 0;
    assert(v@.skip(0) =~= v@);
    assert(v@.subrange(0, 0) =~= Seq::<char>::empty());
    assert(texts(out@) + words(v@) =~= words(v@));
    while i < v.len()
        invariant
            start <= i <= v@.len(),
            texts(out@) + words_from(v@.skip(i as int), v@.subrange(start as int, i as int)) == words(v@),
        decreases v@.len() - i,
    {
        let ghost s = v@.skip(i as int);
        let ghost cur = v@.subrange(start as int, i as int);
        assert(s.drop_first() =~= v@.skip(i as int + 1));
        if char_is_ws(v[i]) {
            if start < i {
                let ghost before = out@;
                out.push(slice(v, start, i));
                assert(texts(out@) =~= texts(before) + seq![cur]);
                assert(texts(out@) + words_from(v@.skip(i as int + 1), Seq::empty()) =~= texts(before) + (
                seq![cur] + words_from(v@.skip(i as int + 1), Seq::empty())));
            } else {
                assert(cur =~= Seq::<char>::empty());
                assert(Seq::<Seq<char>>::empty() + words_from(v@.skip(i as int + 1), Seq::empty())
                    =~= words_from(v@.skip(i as int + 1), Seq::empty()));
            }
            i = i + 1;
            start = i;
            assert(v@.subrange(start as int, i as int) =~= Seq::<char>::empty());
        } else {
            assert(cur.push(v@[i as int]) =~= v@.subrange(start as int, i as int + 1));
            i = i + 1;
        }
    }
    let ghost cur = v@.subrange(start as int, i as int);
    assert(v@.skip(i as int) =~= Seq::<char>::empty());
    if start < i {
        let ghost before = out@;
        out.push(slice(v, start, i));
        assert(texts(out@) =~= texts(before) + seq![cur]);
    } else {
        assert(texts(out@) + Seq::<Seq<char>>::empty() =~= texts(out@));
    }
    out
}

/// Which characters a trim removes.
#[derive(Clone, Copy)]
pub enum Trim {
    /// White space, as `str::trim`.
    Space,
    /// Single and double quotes.
    Quotes,
    /// Double quotes only.
    DoubleQuote,
}

pub open spec fn trims(t: Trim, c: char) -> bool {
    match t {
        Trim::Space => is_ws(c),
        Trim::Quotes => c == '"' || c == '\'',
        Trim::DoubleQuote => c == '"',
    }
}

fn trims_char(t: &Trim, c: char) -> (r: bool)
    ensures
        r == trims(*t, c),
{
    match t {
        Trim::Space => char_is_ws(c),
        Trim::Quotes => c == '"' || c == '\'',
        Trim::DoubleQuote => c == '"',
    }
}

pub open spec fn trim_start(s: Seq<char>, t: Trim) -> Seq<char>
    decreases s.len(),
{
    if s.len() > 0 && trims(t, s[0]) {
        trim_start(s.drop_first(), t)
    } else {
        s
    }
}

pub open spec fn trim_end(s: Seq<char>, t: Trim) -> Seq<char>
    decreases s.len(),
{
    if s.len() > 0 && trims(t, s.last()) {
        trim_end(s.drop_last(), t)
    } else {
        s
    }
}

/// A text without the leading and trailing characters that `t` removes.
pub open spec fn trimmed(s: Seq<char>, t: Trim) -> Seq<char> {
    trim_end(trim_start(s, t), t)
}

/// Removes the leading and trailing characters that `t` names.
pub fn trim(v: &Vec<char>, t: Trim) -> (r: Vec<char>)
    ensures
        r@ == trimmed(v@, t),
{
    let n = v.len();
    let mut a: usize = 0;
    assert(v@.skip(0) =~= v@);
    while a < n && trims_char(&t, v[a])
        invariant
            a <= n == v@.len(),
            trim_start(v@, t) == trim_start(v@.skip(a as int), t),
        decreases n - a,
    {
        assert(v@.skip(a as int).drop_first() =~= v@.skip(a as int + 1));
        a = a + 1;
    }
    let mut b: usize = n;
    assert(v@.skip(a as int) =~= v@.subrange(a as int, n as int));
    while b > a && trims_char(&t, v[b - 1])
        invariant
            a <= b <= n == v@.len(),
            trim_start(v@, t) == v@.subrange(a as int, n as int),
            trimmed(v@, t) == trim_end(v@.subrange(a as int, b as int), t),
        decreases b,
    {
        assert(v@.subrange(a as int, b as int).drop_last() =~= v@.subrange(a as int, b as int - 1));
        b = b - 1;
    }
    slice(v, a, b)
}

/// The pieces of a text between occurrences of `c`, a piece in progress
/// being `cur`, as `str::split` gives them.
pub open spec fn pieces_from(s: Seq<char>, c: char, cur: Seq<char>) -> Seq<Seq<char>>
    decreases s.len(),
{
    if s.len() == 0 {
        seq![cur]
    } else if s[0] == c {
        seq![cur] + pieces_from(s.drop_first(), c, Seq::empty())
    } else {
        pieces_from(s.drop_first(), c, cur.push(s[0]))
    }
}

pub open spec fn pieces(s: Seq<char>, c: char) -> Seq<Seq<char>> {
    pieces_from(s, c, Seq::empty())
}

/// Splits a text at each occurrence of `c`.
pub fn split_at_char(v: &Vec<char>, c: char) -> (r: Vec<Vec<char>>)
    ensures
        texts(r@) == pieces(v@, c),
{
    let mut out: Vec<Vec<char>> = Vec::new();
    let mut start: usize = 0;
    let mut i: usize = 0;
    assert(v@.skip(0) =~= v@);
    assert(v@.subrange(0, 0) =~= Seq::<char>::empty());
    assert(texts(out@) + pieces(v@, c) =~= pieces(v@, c));
    while i < v.len()
        invariant
            start <= i <= v@.len(),
            texts(out@) + pieces_from(v@.skip(i as int), c, v@.subrange(start as int, i as int)) == pieces(
                v@,
                c,
            ),
        decreases v@.len() - i,
    {
        let ghost cur = v@.subrange(start as int, i as int);
        assert(v@.skip(i as int).drop_first() =~= v@.skip(i as int + 1));
        if v[i] == c {
            let ghost before = out@;
            out.push(slice(v, start, i));
            assert(texts(out@) =~= texts(before) + seq![cur]);
            assert(texts(out@) + pieces_from(v@.skip(i as int + 1), c, Seq::empty()) =~= texts(before) + (
            seq![cur] + pieces_from(v@.skip(i as int + 1), c, Seq::empty())));
            i = i + 1;
            start = i;
            assert(v@.subrange(start as int, i as int) =~= Seq::<char>::empty());
        } else {
            assert(cur.push(v@[i as int]) =~= v@.subrange(start as int, i as int + 1));
            i = i + 1;
        }
    }
    let ghost cur = v@.subrange(start as int, i as int);
    assert(v@.skip(i as int) =~= Seq::<char>::empty());
    let ghost before = out@;
    out.push(slice(v, start, i));
    assert(texts(out@) =~= texts(before) + seq![cur]);
    out
}

/// Trims every text of a list.
pub fn trim_all(v: Vec<Vec<char>>, t: Trim) -> (r: Vec<Vec<char>>)
    ensures
        texts(r@) == texts(v@).map_values(|w: Seq<char>| trimmed(w, t)),
{
    let mut out: Vec<Vec<char>> = Vec::new();
    let mut i: usize = 0;
    while i < v.len()
        invariant
            i <= v@.len(),
            texts(out@) == texts(v@).take(i as int).map_values(|w: Seq<char>| trimmed(w, t)),
        decreases v@.len() - i,
    {
        let ghost before = out@;
        out.push(trim(&v[i], t));
        assert(texts(out@) =~= texts(before).push(trimmed(texts(v@)[i as int], t)));
        i = i + 1;
        assert(texts(out@) =~= texts(v@).take(i as int).map_values(|w: Seq<char>| trimmed(w, t)));
    }
    assert(texts(v@).take(i as int) =~= texts(v@));
    out
}

/// The position of the first occurrence of `c`, if any.
pub open spec fn find_char(s: Seq<char>, c: char) -> Option<int>
    decreases s.len(),
{
    if s.len() == 0 {
        None
    } else if s[0] == c {
        Some(0)
    } else {
        match find_char(s.drop_first(), c) {
            Some(i) => Some(i + 1),
            None => None,
        }
    }
}

pub proof fn lemma_find_char(s: Seq<char>, c: char)
    ensures
        find_char(s, c) matches Some(i) ==> 0 <= i < s.len() && s[i] == c && forall|j: int|
            0 <= j < i ==> s[j] != c,
        find_char(s, c) is None ==> forall|j: int| 0 <= j < s.len() ==> s[j] != c,
    decreases s.len(),
{
    if s.len() > 0 {
        lemma_find_char(s.drop_first(), c);
        assert forall|j: int| 0 < j < s.len() implies s[j] == s.drop_first()[j - 1] by {}
    }
}

/// Finds the first occurrence of `c`.
pub fn position_of_char(v: &Vec<char>, c: char) -> (r: Option<usize>)
    ensures
        r matches Some(i) ==> find_char(v@, c) == Some(i as int),
        r is None ==> find_char(v@, c) is None,
{
    let mut i: usize = 0;
    while i < v.len()
        invariant
            i <= v@.len(),
            forall|j: int| 0 <= j < i ==> v@[j] != c,
        decreases v@.len() - i,
    {
        if v[i] == c {
            proof {
                lemma_find_char(v@, c);
            }
            return Some(i);
        }
        i = i + 1;
    }
    proof {
        lemma_find_char(v@, c);
    }
    None
}

/// The words of a list joined by single spaces, as `join(" ")` gives them.
pub open spec fn joined(ws: Seq<Seq<char>>) -> Seq<char>
    decreases ws.len(),
{
    if ws.len() == 0 {
        Seq::empty()
    } else if ws.len() == 1 {
        ws[0]
    } else {
        joined(ws.drop_last()) + seq![' '] + ws.last()
    }
}

/// Joins the texts `lo..hi` of a list with single spaces.
pub fn join_words(ws: &Vec<Vec<char>>, lo: usize, hi: usize) -> (r: Vec<char>)
    requires
        lo <= hi <= ws@.len(),
    ensures
        r@ == joined(texts(ws@).subrange(lo as int, hi as int)),
{
    let mut out: Vec<char> = Vec::new();
    let mut i: usize = lo;
    assert(texts(ws@).subrange(lo as int, lo as int) =~= Seq::<Seq<char>>::empty());
    while i < hi
        invariant
            lo <= i <= hi <= ws@.len(),
            out@ == joined(texts(ws@).subrange(lo as int, i as int)),
        decreases hi - i,
    {
        let ghost before = out@;
        if i > lo {
            out.push(' ');
        }
        let w = &ws[i];
        let mut k: usize = 0;
        while k < w.len()
            invariant
                k <= w@.len(),
                out@ == (if i > lo {
                    before + seq![' ']
                } else {
                    before
                }) + w@.take(k as int),
            decreases w@.len() - k,
        {
            out.push(w[k]);
            k = k + 1;
            assert(out@ =~= (if i > lo {
                before + seq![' ']
            } else {
                before
            }) + w@.take(k as int));
        }
        proof {
            let sub = texts(ws@).subrange(lo as int, i as int + 1);
            assert(w@.take(k as int) =~= w@);
            assert(sub.drop_last() =~= texts(ws@).subrange(lo as int, i as int));
            assert(sub.last() == w@);
            if i == lo {
                assert(sub.len() == 1);
                assert(out@ =~= w@);
            } else {
                assert(out@ =~= before + seq![' '] + w@);
            }
        }
        i = i + 1;
    }
    out
}

/// The position of the first occurrence of `pat` as a run of characters.
pub open spec fn find_text(s: Seq<char>, pat: Seq<char>) -> Option<int>
    decreases s.len(),
{
    if s.len() < pat.len() {
        None
    } else if s.take(pat.len() as int) == pat {
        Some(0)
    } else if s.len() == 0 {
        None
    } else {
        match find_text(s.drop_first(), pat) {
            Some(i) => Some(i + 1),
            None => None,
        }
    }
}

pub proof fn lemma_find_text(s: Seq<char>, pat: Seq<char>)
    ensures
        find_text(s, pat) matches Some(i) ==> 0 <= i && i + pat.len() <= s.len() && s.subrange(
            i,
            i + pat.len(),
        ) == pat && forall|j: int| 0 <= j < i ==> #[trigger] s.subrange(j, j + pat.len()) != pat,
        find_text(s, pat) is None ==> forall|j: int|
            0 <= j && j + pat.len() <= s.len() ==> #[trigger] s.subrange(j, j + pat.len()) != pat,
    decreases s.len(),
{
    if s.len() >= pat.len() && s.take(pat.len() as int) != pat && s.len() > 0 {
        let t = s.drop_first();
        lemma_find_text(t, pat);
        assert forall|j: int| 0 < j && j + pat.len() <= s.len() implies #[trigger] s.subrange(j, j + pat.len())
            == t.subrange(j - 1, j - 1 + pat.len()) by {
            assert(s.subrange(j, j + pat.len()) =~= t.subrange(j - 1, j - 1 + pat.len()));
        }
        assert(s.subrange(0, pat.len() as int) == s.take(pat.len() as int));
    } else if s.len() >= pat.len() && s.take(pat.len() as int) == pat {
        assert(s.subrange(0, pat.len() as int) == s.take(pat.len() as int));
    }
}

/// Finds the first occurrence of `pat`.
pub fn position_of_text(v: &Vec<char>, pat: &Vec<char>) -> (r: Option<usize>)
    ensures
        r matches Some(i) ==> find_text(v@, pat@) == Some(i as int),
        r is None ==> find_text(v@, pat@) is None,
{
    let n = v.len();
    let m = pat.len();
    if m > n {
        proof {
            lemma_find_text(v@, pat@);
        }
        return None;
    }
    let mut i: usize = 0;
    while i <= n - m
        invariant
            m <= n,
            n == v@.len(),
            m == pat@.len(),
            i <= n - m + 1,
            forall|j: int| 0 <= j < i ==> #[trigger] v@.subrange(j, j + m) != pat@,
        decreases n - m + 1 - i,
    {
        let mut k: usize = 0;
        while k < m && v[i + k] == pat[k]
            invariant
                k <= m,
                i + m <= n,
                n == v@.len(),
                m == pat@.len(),
                forall|q: int| 0 <= q < k ==> v@[i + q] == pat@[q],
            decreases m - k,
        {
            k = k + 1;
        }
        if k == m {
            proof {
                assert(v@.subrange(i as int, i + m) =~= pat@);
                lemma_find_text(v@, pat@);
            }
            return Some(i);
        }
        proof {
            assert(v@.subrange(i as int, i + m)[k as int] != pat@[k as int]);
        }
        i = i + 1;
    }
    proof {
        lemma_find_text(v@, pat@);
    }
    None
}

/// The value of a run of decimal digits.
pub open spec fn digits_value(s: Seq<char>) -> int
    decreases s.len(),
{
    if s.len() == 0 {
        0
    } else {
        digits_value(s.drop_last()) * 10 + (s.last() as int - '0' as int)
    }
}

/// What `i64::from_str` reads: an optional sign, then one or more decimal
/// digits, whose value fits in an `i64`.
pub open spec fn int_text_value(s: Seq<char>) -> Option<int> {
    let negative = s.len() > 0 && s[0] == '-';
    let digits = if s.len() > 0 && (s[0] == '-' || s[0] == '+') {
        s.drop_first()
    } else {
        s
    };
    let magnitude = digits_value(digits);
    let v = if negative {
        -magnitude
    } else {
        magnitude
    };
    if digits.len() > 0 && (forall|i: int| 0 <= i < digits.len() ==> '0' <= #[trigger] digits[i] <= '9')
        && i64::MIN <= v <= i64::MAX {
        Some(v)
    } else {
        None
    }
}

/// Relies on `i64`'s `FromStr`: an optional `+` or `-`, then decimal digits,
/// refused when empty, on any other character, or on overflow.
#[verifier::external_body]
pub(crate) fn parse_int(s: &Vec<char>) -> (r: Option<i64>)
    ensures
        match int_text_value(s@) {
            Some(v) => r == Some(v as i64),
            None => r is None,
        },
{
    String::from_iter(s.iter()).parse::<i64>().ok()
}

} // verus!
