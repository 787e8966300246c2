//! Character-level text operations shared by the filters, the persona tools and the
//! edit tracker. Text is handled as a sequence of Unicode scalar values; byte lengths
//! are those of the UTF-8 encoding.

use vstd::prelude::*;
use vstd::utf8::*;

verus! {

/// The characters of `s`, in order.
pub fn chars_of(s: &str) -> (res: Vec<char>)
    ensures
        res@ == s@,
{
    let mut res: Vec<char> = Vec::new();
    for c in it: s.chars()
        invariant
            res@ == it.seq().take(it.index() as int),
            it.seq() == s@,
    {
        res.push(c);
    }
    res
}

// ---------------------------------------------------------------------------------------
// Whitespace and trimming
// ---------------------------------------------------------------------------------------

/// Unicode `White_Space`: the characters that `char::is_whitespace` accepts.
pub open spec fn is_ws(c: char) -> bool {
    let u = c as u32;
    ||| 0x9 <= u <= 0xd
    ||| u == 0x20
    ||| u == 0x85
    ||| u == 0xa0
    ||| u == 0x1680
    ||| 0x2000 <= u <= 0x200a
    ||| u == 0x2028
    ||| u == 0x2029
    ||| u == 0x202f
    ||| u == 0x205f
    ||| u == 0x3000
}

/// Whether `c` is Unicode whitespace.
pub fn is_whitespace(c: char) -> (b: bool)
    ensures
        b == is_ws(c),
{
    let u = c as u32;
    (0x9 <= u && u <= 0xd) || u == 0x20 || u == 0x85 || u == 0xa0 || u == 0x1680 || (0x2000 <= u
        && u <= 0x200a) || u == 0x2028 || u == 0x2029 || u == 0x202f || u == 0x205f || u == 0x3000
}

/// `s` without its leading whitespace.
pub open spec fn trim_start(s: Seq<char>) -> Seq<char>
    decreases s.len(),
{
    if s.len() > 0 && is_ws(s[0]) {
        trim_start(s.drop_first())
    } else {
        s
    }
}

/// `s` without its trailing whitespace.
pub open spec fn trim_end(s: Seq<char>) -> Seq<char>
    decreases s.len(),
{
    if s.len() > 0 && is_ws(s.last()) {
        trim_end(s.drop_last())
    } else {
        s
    }
}

/// `s` without leading and trailing whitespace.
pub open spec fn trim(s: Seq<char>) -> Seq<char> {
    trim_end(trim_start(s))
}

/// A copy of `s[lo..hi]`.
pub fn copy_range(s: &[char], lo: usize, hi: usize) -> (res: Vec<char>)
    requires
        lo <= hi <= s@.len(),
    ensures
        res@ == s@.subrange(lo as int, hi as int),
{
    let mut res: Vec<char> = Vec::new();
    let mut i = lo;
    while i < hi
        invariant
            lo <= i <= hi <= s@.len(),
            res@ == s@.subrange(lo as int, i as int),
        decreases hi - i,
    {
        res.push(s[i]);
        i += 1;
        assert(res@ =~= s@.subrange(lo as int, i as int));
    }
    res
}

/// Index of the first non-whitespace character of `s` (or its length).
pub fn leading_ws_end(s: &[char]) -> (k: usize)
    ensures
        k <= s@.len(),
        trim_start(s@) == s@.subrange(k as int, s@.len() as int),
{
    let mut k: usize = 0;
    assert(s@.subrange(0, s@.len() as int) =~= s@);
    while k < s.len() && is_whitespace(s[k])
        invariant
            k <= s@.len(),
            trim_start(s@) == trim_start(s@.subrange(k as int, s@.len() as int)),
        decreases s@.len() - k,
    {
        assert(s@.subrange(k as int, s@.len() as int).drop_first() =~= s@.subrange(
            k + 1,
            s@.len() as int,
        ));
        k += 1;
    }
    k
}

/// Index just past the last non-whitespace character of `s[..hi]` (or 0).
pub fn trailing_ws_start(s: &[char], hi: usize) -> (k: usize)
    requires
        hi <= s@.len(),
    ensures
        k <= hi,
        trim_end(s@.subrange(0, hi as int)) == s@.subrange(0, k as int),
{
    let mut k: usize = hi;
    while k > 0 && is_whitespace(s[k - 1])
        invariant
            k <= hi <= s@.len(),
            trim_end(s@.subrange(0, hi as int)) == trim_end(s@.subrange(0, k as int)),
        decreases k,
    {
        assert(s@.subrange(0, k as int).drop_last() =~= s@.subrange(0, k - 1));
        k -= 1;
    }
    k
}

proof fn lemma_trim_start_of_trimmed_end(s: Seq<char>, k: int)
    requires
        0 <= k <= s.len(),
        forall|j: int| 0 <= j < k ==> is_ws(#[trigger] s[j]),
    ensures
        trim_start(s) == trim_start(s.subrange(k, s.len() as int)),
    decreases k,
{
    if k > 0 {
        assert(s.drop_first() =~= s.subrange(1, s.len() as int));
        lemma_trim_start_of_trimmed_end(s.drop_first(), k - 1);
        assert(s.drop_first().subrange(k - 1, s.drop_first().len() as int) =~= s.subrange(
            k,
            s.len() as int,
        ));
    } else {
        assert(s.subrange(0, s.len() as int) =~= s);
    }
}

/// `s` without leading whitespace.
pub fn trim_start_chars(s: &[char]) -> (res: Vec<char>)
    ensures
        res@ == trim_start(s@),
{
    let k = leading_ws_end(s);
    copy_range(s, k, s.len())
}

/// `s` without trailing whitespace.
pub fn trim_end_chars(s: &[char]) -> (res: Vec<char>)
    ensures
        res@ == trim_end(s@),
{
    let k = trailing_ws_start(s, s.len());
    assert(s@.subrange(0, s@.len() as int) =~= s@);
    copy_range(s, 0, k)
}

/// `s` without leading and trailing whitespace.
pub fn trim_chars(s: &[char]) -> (res: Vec<char>)
    ensures
        res@ == trim(s@),
{
    let a = trim_start_chars(s);
    trim_end_chars(a.as_slice())
}

// ---------------------------------------------------------------------------------------
// Searching and replacing
// ---------------------------------------------------------------------------------------

/// `p` occurs in `s` starting at index `i`.
pub open spec fn occurs_at(s: Seq<char>, p: Seq<char>, i: int) -> bool {
    0 <= i && i + p.len() <= s.len() && s.subrange(i, i + p.len()) == p
}

/// `p` occurs somewhere in `s` (the empty text occurs everywhere).
pub open spec fn contains(s: Seq<char>, p: Seq<char>) -> bool {
    exists|i: int| occurs_at(s, p, i)
}

/// Whether `p` occurs in `s` at index `i`.
pub fn matches_at(s: &[char], p: &[char], i: usize) -> (b: bool)
    ensures
        b == occurs_at(s@, p@, i as int),
{
    if i > s.len() || p.len() > s.len() - i {
        return false;
    }
    let n = s.len();
    let mut j: usize = 0;
    while j < p.len()
        invariant
            n == s@.len(),
            i + p@.len() <= s@.len(),
            j <= p@.len(),
            forall|t: int| 0 <= t < j ==> s@[i + t] == p@[t],
        decreases p@.len() - j,
    {
        assert(i + j < n);
        if s[i + j] != p[j] {
            assert(s@.subrange(i as int, i + p@.len())[j as int] != p@[j as int]);
            return false;
        }
        j += 1;
    }
    assert(s@.subrange(i as int, i + p@.len()) =~= p@);
    true
}

/// Whether `p` occurs in `s`.
pub fn contains_chars(s: &[char], p: &[char]) -> (b: bool)
    ensures
        b == contains(s@, p@),
{
    if p.len() > s.len() {
        return false;
    }
    let last = s.len() - p.len();
    let mut i: usize = 0;
    loop
        invariant
            i <= last,
            last + p@.len() == s@.len(),
            forall|t: int| 0 <= t < i ==> !occurs_at(s@, p@, t),
        decreases last - i,
    {
        if matches_at(s, p, i) {
            return true;
        }
        if i == last {
            assert forall|t: int| !occurs_at(s@, p@, t) by {
                if 0 <= t && t <= i {
                }
            }
            return false;
        }
        i += 1;
    }
}

/// Whether the character `c` occurs in `s`.
pub fn has_char(s: &[char], c: char) -> (b: bool)
    ensures
        b == s@.contains(c),
{
    let mut i: usize = 0;
    while i < s.len()
        invariant
            i <= s@.len(),
            forall|t: int| 0 <= t < i ==> s@[t] != c,
        decreases s@.len() - i,
    {
        if s[i] == c {
            return true;
        }
        i += 1;
    }
    false
}

/// Every non-overlapping occurrence of the non-empty `p` in `s`, scanned from the left,
/// replaced by `r`.
pub open spec fn replace_all(s: Seq<char>, p: Seq<char>, r: Seq<char>) -> Seq<char>
    decreases s.len(),
{
    if p.len() == 0 || s.len() < p.len() {
        s
    } else if s.subrange(0, p.len() as int) == p {
        r + replace_all(s.subrange(p.len() as int, s.len() as int), p, r)
    } else {
        seq![s[0]] + replace_all(s.drop_first(), p, r)
    }
}

/// `s` with every occurrence of `p` replaced by `r`.
pub fn replace_chars(s: &[char], p: &[char], r: &[char]) -> (res: Vec<char>)
    requires
        p@.len() > 0,
    ensures
        res@ == replace_all(s@, p@, r@),
{
    let mut out: Vec<char> = Vec::new();
    let mut i: usize = 0;
    assert(s@.subrange(0, s@.len() as int) =~= s@);
    assert(out@ + replace_all(s@, p@, r@) =~= replace_all(s@, p@, r@));
    while i < s.len()
        invariant
            p@.len() > 0,
            i <= s@.len(),
            out@ + replace_all(s@.subrange(i as int, s@.len() as int), p@, r@) == replace_all(
                s@,
                p@,
                r@,
            ),
        decreases s@.len() - i,
    {
        let ghost rest = s@.subrange(i as int, s@.len() as int);
        if matches_at(s, p, i) {
            assert(rest.subrange(0, p@.len() as int) =~= s@.subrange(i as int, i + p@.len()));
            assert(rest.subrange(p@.len() as int, rest.len() as int) =~= s@.subrange(
                i + p@.len(),
                s@.len() as int,
            ));
            let mut j: usize = 0;
            let ghost out0 = out@;
            while j < r.len()
                invariant
                    j <= r@.len(),
                    out@ == out0 + r@.subrange(0, j as int),
                decreases r@.len() - j,
            {
                out.push(r[j]);
                j += 1;
                assert(out@ =~= out0 + r@.subrange(0, j as int));
            }
            assert(r@.subrange(0, r@.len() as int) =~= r@);
            assert(out@ =~= out0 + r@);
            assert(out0 + (r@ + replace_all(
                s@.subrange(i + p@.len(), s@.len() as int),
                p@,
                r@,
            )) =~= out@ + replace_all(s@.subrange(i + p@.len(), s@.len() as int), p@, r@));
            i = i + p.len();
        } else {
            assert(rest.len() >= p@.len() ==> rest.subrange(0, p@.len() as int) =~= s@.subrange(
                i as int,
                i + p@.len(),
            ));
            assert(rest.drop_first() =~= s@.subrange(i + 1, s@.len() as int));
            let ghost out0 = out@;
            out.push(s[i]);
            assert(out0 + (seq![s@[i as int]] + replace_all(rest.drop_first(), p@, r@))
                =~= out@ + replace_all(rest.drop_first(), p@, r@));
            i = i + 1;
        }
    }
    assert(s@.subrange(s@.len() as int, s@.len() as int) =~= Seq::<char>::empty());
    assert(out@ + Seq::<char>::empty() =~= out@);
    out
}

/// The texts held by a sequence of character vectors.
pub open spec fn texts(v: Seq<Vec<char>>) -> Seq<Seq<char>> {
    v.map_values(|w: Vec<char>| w@)
}

/// The texts held by a sequence of strings.
pub open spec fn strings(v: Seq<String>) -> Seq<Seq<char>> {
    v.map_values(|w: String| w@)
}

/// Whether `a` and `b` hold the same characters.
pub fn same_chars(a: &[char], b: &[char]) -> (res: bool)
    ensures
        res == (a@ == b@),
{
    if a.len() != b.len() {
        return false;
    }
    let mut i: usize = 0;
    while i < a.len()
        invariant
            a@.len() == b@.len(),
            i <= a@.len(),
            forall|t: int| 0 <= t < i ==> a@[t] == b@[t],
        decreases a@.len() - i,
    {
        if a[i] != b[i] {
            return false;
        }
        i += 1;
    }
    assert(a@ =~= b@);
    true
}

/// Appends the characters of `t` to `out`.
pub fn push_all(out: &mut Vec<char>, t: &[char])
    ensures
        final(out)@ == old(out)@ + t@,
{
    let mut j: usize = 0;
    let ghost start = out@;
    while j < t.len()
        invariant
            j <= t@.len(),
            out@ == start + t@.subrange(0, j as int),
        decreases t@.len() - j,
    {
        out.push(t[j]);
        j += 1;
        assert(out@ =~= start + t@.subrange(0, j as int));
    }
    assert(t@.subrange(0, t@.len() as int) =~= t@);
}

/// Appends the characters of `t` to `out`.
pub fn push_str(out: &mut Vec<char>, t: &str)
    ensures
        final(out)@ == old(out)@ + t@,
{
    let v = chars_of(t);
    push_all(out, v.as_slice());
}

/// The text of `chars` as a `String`. Wraps the standard library's
/// `FromIterator<char>` for `String`, which concatenates the characters in order.
#[verifier::external_body]
pub(crate) fn string_of(chars: &[char]) -> (res: String)
    ensures
        res@ == chars@,
{
    chars.iter().collect()
}

/// The text of a `String` as characters.
pub fn chars_of_string(s: &String) -> (res: Vec<char>)
    ensures
        res@ == s@,
{
    chars_of(s.as_str())
}

// ---------------------------------------------------------------------------------------
// UTF-8 length
// ---------------------------------------------------------------------------------------

/// Length in bytes of the UTF-8 encoding of `s` (what `str::len` returns).
pub open spec fn byte_len(s: Seq<char>) -> nat {
    encode_utf8(s).len()
}

/// Length in bytes of the UTF-8 encoding of `c`.
pub open spec fn char_byte_len(c: char) -> nat {
    let u = c as u32;
    if u <= 0x7f {
        1
    } else if u <= 0x7ff {
        2
    } else if u <= 0xffff {
        3
    } else {
        4
    }
}

pub proof fn lemma_char_byte_len(c: char)
    ensures
        encode_scalar(c as u32).len() == char_byte_len(c),
        1 <= char_byte_len(c) <= 4,
{
    char_is_scalar(c);
}

pub proof fn lemma_encode_append(a: Seq<char>, b: Seq<char>)
    ensures
        encode_utf8(a + b) == encode_utf8(a) + encode_utf8(b),
    decreases a.len(),
{
    if a.len() == 0 {
        assert(a + b =~= b);
        assert(encode_utf8(a) + encode_utf8(b) =~= encode_utf8(b));
    } else {
        assert((a + b).drop_first() =~= a.drop_first() + b);
        lemma_encode_append(a.drop_first(), b);
        assert(encode_utf8(a + b) =~= encode_scalar(a[0] as u32) + (encode_utf8(a.drop_first())
            + encode_utf8(b)));
    }
}

pub proof fn lemma_byte_len_push(a: Seq<char>, c: char)
    ensures
        byte_len(a.push(c)) == byte_len(a) + char_byte_len(c),
{
    lemma_encode_append(a, seq![c]);
    assert(encode_utf8(Seq::<char>::empty()) =~= Seq::<u8>::empty());
    assert(seq![c].drop_first() =~= Seq::<char>::empty());
    assert(encode_utf8(seq![c]) =~= encode_scalar(c as u32));
    assert(a + seq![c] =~= a.push(c));
    lemma_char_byte_len(c);
    assert(seq![c].drop_first() =~= Seq::<char>::empty());
}

/// Byte length of the UTF-8 encoding of one character.
pub fn char_len_utf8(c: char) -> (n: u128)
    ensures
        n == char_byte_len(c),
{
    let u = c as u32;
    if u <= 0x7f {
        1
    } else if u <= 0x7ff {
        2
    } else if u <= 0xffff {
        3
    } else {
        4
    }
}

/// Byte length of the UTF-8 encoding of `s`.
pub fn byte_len_chars(s: &[char]) -> (n: u128)
    ensures
        n == byte_len(s@),
        s@.len() <= n <= 4 * s@.len(),
{
    let mut n: u128 = 0;
    let mut i: usize = 0;
    while i < s.len()
        invariant
            i <= s@.len(),
            n == byte_len(s@.subrange(0, i as int)),
            i <= n <= 4 * i,
        decreases s@.len() - i,
    {
        proof {
            lemma_byte_len_push(s@.subrange(0, i as int), s@[i as int]);
            assert(s@.subrange(0, i as int).push(s@[i as int]) =~= s@.subrange(0, i + 1));
            lemma_char_byte_len(s@[i as int]);
        }
        n = n + char_len_utf8(s[i]);
        i += 1;
    }
    assert(s@.subrange(0, s@.len() as int) =~= s@);
    n
}

// ---------------------------------------------------------------------------------------
// Words
// ---------------------------------------------------------------------------------------

/// Scanning state of `words`: the completed words and the word being read.
pub open spec fn words_scan(s: Seq<char>) -> (Seq<Seq<char>>, Seq<char>)
    decreases s.len(),
{
    if s.len() == 0 {
        (seq![], seq![])
    } else {
        let st = words_scan(s.drop_last());
        if is_ws(s.last()) {
            if st.1.len() > 0 {
                (st.0.push(st.1), seq![])
            } else {
                st
            }
        } else {
            (st.0, st.1.push(s.last()))
        }
    }
}

/// The maximal runs of non-whitespace characters of `s`, in order
/// (what `str::split_whitespace` yields).
pub open spec fn words(s: Seq<char>) -> Seq<Seq<char>> {
    let st = words_scan(s);
    if st.1.len() > 0 {
        st.0.push(st.1)
    } else {
        st.0
    }
}

proof fn lemma_words_scan_clean(s: Seq<char>)
    ensures
        forall|i: int| 0 <= i < words_scan(s).0.len() ==> (#[trigger] words_scan(s).0[i]).len() > 0 && forall|j: int|
            0 <= j < words_scan(s).0[i].len() ==> !is_ws(#[trigger] words_scan(s).0[i][j]),
        forall|j: int| 0 <= j < words_scan(s).1.len() ==> !is_ws(#[trigger] words_scan(s).1[j]),
    decreases s.len(),
{
    if s.len() > 0 {
        let st = words_scan(s.drop_last());
        lemma_words_scan_clean(s.drop_last());
        let r = words_scan(s);
        if is_ws(s.last()) {
            if st.1.len() > 0 {
                assert(r.0 == st.0.push(st.1));
                assert forall|i: int| 0 <= i < r.0.len() implies (#[trigger] r.0[i]).len() > 0 && forall|j: int|
                    0 <= j < r.0[i].len() ==> !is_ws(#[trigger] r.0[i][j]) by {
                    if i < st.0.len() {
                        assert(r.0[i] == st.0[i]);
                    } else {
                        assert(r.0[i] == st.1);
                    }
                }
            }
        } else {
            assert(r.1 == st.1.push(s.last()));
            assert forall|j: int| 0 <= j < r.1.len() implies !is_ws(#[trigger] r.1[j]) by {
                if j < st.1.len() {
                    assert(r.1[j] == st.1[j]);
                }
            }
        }
    }
}

proof fn lemma_words_scan_cover(s: Seq<char>)
    ensures
        words_scan(s).0.flatten() + words_scan(s).1 == s.filter(|c: char| !is_ws(c)),
    decreases s.len(),
{
    reveal(Seq::filter);
    if s.len() == 0 {
        assert(words_scan(s).0.flatten() + words_scan(s).1 =~= Seq::<char>::empty());
    } else {
        let st = words_scan(s.drop_last());
        lemma_words_scan_cover(s.drop_last());
        let r = words_scan(s);
        if is_ws(s.last()) {
            if st.1.len() > 0 {
                st.0.lemma_flatten_push(st.1);
                assert(r.0.flatten() + r.1 =~= st.0.flatten() + st.1);
            }
        } else {
            assert(r.0.flatten() + r.1 =~= (st.0.flatten() + st.1).push(s.last()));
        }
    }
}

/// The words of a text, put back together, are the text without its whitespace: no
/// character other than whitespace is lost, added or moved.
pub proof fn lemma_words_cover(s: Seq<char>)
    ensures
        words(s).flatten() == s.filter(|c: char| !is_ws(c)),
{
    lemma_words_scan_cover(s);
    let st = words_scan(s);
    if st.1.len() > 0 {
        st.0.lemma_flatten_push(st.1);
    } else {
        assert(st.0.flatten() + st.1 =~= st.0.flatten());
    }
}

/// Every word of a text is nonempty and holds no whitespace.
pub proof fn lemma_words_clean(s: Seq<char>)
    ensures
        forall|i: int| 0 <= i < words(s).len() ==> (#[trigger] words(s)[i]).len() > 0 && forall|j: int|
            0 <= j < words(s)[i].len() ==> !is_ws(#[trigger] words(s)[i][j]),
{
    lemma_words_scan_clean(s);
    let st = words_scan(s);
    if st.1.len() > 0 {
        assert forall|i: int| 0 <= i < words(s).len() implies (#[trigger] words(s)[i]).len() > 0 && forall|j: int|
            0 <= j < words(s)[i].len() ==> !is_ws(#[trigger] words(s)[i][j]) by {
            if i < st.0.len() {
                assert(words(s)[i] == st.0[i]);
            } else {
                assert(words(s)[i] == st.1);
            }
        }
    }
}

proof fn lemma_words_scan_len(s: Seq<char>)
    ensures
        words_scan(s).0.len() + words_scan(s).1.len() <= s.len(),
    decreases s.len(),
{
    if s.len() > 0 {
        lemma_words_scan_len(s.drop_last());
    }
}

/// A text has no more words than characters.
pub proof fn lemma_words_len(s: Seq<char>)
    ensures
        words(s).len() <= s.len(),
{
    lemma_words_scan_len(s);
}

/// The words of `s`.
pub fn split_words(s: &[char]) -> (res: Vec<Vec<char>>)
    ensures
        texts(res@) == words(s@),
{
    let mut done: Vec<Vec<char>> = Vec::new();
    let mut cur: Vec<char> = Vec::new();
    let mut i: usize = 0;
    while i < s.len()
        invariant
            i <= s@.len(),
            (texts(done@), cur@) == words_scan(s@.subrange(0, i as int)),
        decreases s@.len() - i,
    {
        let c = s[i];
        assert(s@.subrange(0, i + 1).drop_last() =~= s@.subrange(0, i as int));
        if is_whitespace(c) {
            if cur.len() > 0 {
                let w = cur;
                let ghost old_dv = texts(done@);
                let ghost wv = w@;
                done.push(w);
                assert(texts(done@) =~= old_dv.push(wv));
                cur = Vec::new();
            }
        } else {
            cur.push(c);
        }
        i += 1;
    }
    assert(s@.subrange(0, s@.len() as int) =~= s@);
    if cur.len() > 0 {
        let ghost old_dv = texts(done@);
        let ghost wv = cur@;
        done.push(cur);
        assert(texts(done@) =~= old_dv.push(wv));
    }
    done
}

// ---------------------------------------------------------------------------------------
// Joining and numbers
// ---------------------------------------------------------------------------------------

/// The texts of `parts` separated by `sep` (what `join` on a slice of strings yields).
pub open spec fn join(parts: Seq<Seq<char>>, sep: Seq<char>) -> Seq<char>
    decreases parts.len(),
{
    if parts.len() == 0 {
        seq![]
    } else if parts.len() == 1 {
        parts[0]
    } else {
        join(parts.drop_last(), sep) + sep + parts.last()
    }
}

/// The texts of `parts` separated by `sep`.
pub fn join_chars(parts: &Vec<Vec<char>>, sep: &[char]) -> (res: Vec<char>)
    ensures
        res@ == join(texts(parts@), sep@),
{
    let mut out: Vec<char> = Vec::new();
    let mut i: usize = 0;
    while i < parts.len()
        invariant
            i <= parts@.len(),
            out@ == join(texts(parts@).subrange(0, i as int), sep@),
        decreases parts@.len() - i,
    {
        let ghost pre = texts(parts@).subrange(0, i as int);
        assert(texts(parts@).subrange(0, i + 1).drop_last() =~= pre);
        if i > 0 {
            push_all(&mut out, sep);
        }
        push_all(&mut out, parts[i].as_slice());
        proof {
            if i == 0 {
                assert(out@ =~= texts(parts@)[0]);
            }
        }
        i += 1;
    }
    assert(texts(parts@).subrange(0, parts@.len() as int) =~= texts(parts@));
    out
}

/// The decimal digit for `d < 10`.
pub open spec fn digit(d: nat) -> char {
    ('0' as u32 + d) as char
}

/// Decimal representation of `n`, without sign or leading zeros.
pub open spec fn decimal(n: nat) -> Seq<char>
    decreases n,
{
    if n < 10 {
        seq![digit(n)]
    } else {
        decimal(n / 10).push(digit(n % 10))
    }
}

/// The number that the decimal digits `s` stand for.
pub open spec fn digits_value(s: Seq<char>) -> int
    decreases s.len(),
{
    if s.len() == 0 {
        0
    } else {
        digits_value(s.drop_last()) * 10 + (s.last() as u32 - 48)
    }
}

/// The decimal form of `n` is a nonempty run of the digits `0`-`9` that reads back as `n`,
/// with no leading zero unless `n` is zero.
pub proof fn lemma_decimal_reads_back(n: nat)
    ensures
        decimal(n).len() > 0,
        forall|i: int| 0 <= i < decimal(n).len() ==> 48 <= (#[trigger] decimal(n)[i]) as u32 <= 57,
        digits_value(decimal(n)) == n,
        n > 0 ==> decimal(n)[0] != '0',
    decreases n,
{
    if n >= 10 {
        lemma_decimal_reads_back(n / 10);
        let d = decimal(n / 10);
        assert(decimal(n) == d.push(digit(n % 10)));
        assert(decimal(n).drop_last() =~= d);
        assert((digit(n % 10) as u32) == 48 + n % 10);
        assert(decimal(n)[0] == d[0]);
        assert(digits_value(decimal(n)) == digits_value(d) * 10 + (digit(n % 10) as u32 - 48));
        assert(n == (n / 10) * 10 + n % 10);
    } else {
        assert((digit(n) as u32) == 48 + n);
        assert(decimal(n).drop_last() =~= Seq::<char>::empty());
        assert(digits_value(Seq::<char>::empty()) == 0);
        assert(digits_value(decimal(n)) == digits_value(Seq::<char>::empty()) * 10 + (digit(n) as u32 - 48));
    }
}

fn digit_char(d: u128) -> (c: char)
    requires
        d < 10,
    ensures
        c == digit(d as nat),
{
    if d == 0 {
        '0'
    } else if d == 1 {
        '1'
    } else if d == 2 {
        '2'
    } else if d == 3 {
        '3'
    } else if d == 4 {
        '4'
    } else if d == 5 {
        '5'
    } else if d == 6 {
        '6'
    } else if d == 7 {
        '7'
    } else if d == 8 {
        '8'
    } else {
        '9'
    }
}

/// Decimal representation of `n` (what formatting an integer with `{}` yields).
pub fn decimal_chars(n: u128) -> (res: Vec<char>)
    ensures
        res@ == decimal(n as nat),
    decreases n,
{
    if n < 10 {
        let mut v: Vec<char> = Vec::new();
        v.push(digit_char(n));
        assert(v@ =~= seq![digit(n as nat)]);
        v
    } else {
        let mut v = decimal_chars(n / 10);
        v.push(digit_char(n % 10));
        v
    }
}

// ---------------------------------------------------------------------------------------
// Blank texts
// ---------------------------------------------------------------------------------------

/// `s` holds a character that is not whitespace.
pub open spec fn has_content(s: Seq<char>) -> bool {
    exists|i: int| 0 <= i < s.len() && !is_ws(#[trigger] s[i])
}

proof fn lemma_trim_start_content(s: Seq<char>)
    ensures
        has_content(trim_start(s)) == has_content(s),
        trim_start(s).len() > 0 ==> !is_ws(trim_start(s)[0]),
    decreases s.len(),
{
    if s.len() > 0 && is_ws(s[0]) {
        lemma_trim_start_content(s.drop_first());
        if has_content(s) {
            let i = choose|i: int| 0 <= i < s.len() && !is_ws(#[trigger] s[i]);
            assert(s.drop_first()[i - 1] == s[i]);
        }
        if has_content(s.drop_first()) {
            let i = choose|i: int| 0 <= i < s.drop_first().len() && !is_ws(#[trigger] s.drop_first()[i]);
            assert(s[i + 1] == s.drop_first()[i]);
        }
    } else if s.len() > 0 {
        assert(!is_ws(s[0]));
    }
}

proof fn lemma_trim_end_content(s: Seq<char>)
    ensures
        has_content(trim_end(s)) == has_content(s),
        trim_end(s).len() > 0 ==> !is_ws(trim_end(s).last()),
    decreases s.len(),
{
    if s.len() > 0 && is_ws(s.last()) {
        lemma_trim_end_content(s.drop_last());
        if has_content(s) {
            let i = choose|i: int| 0 <= i < s.len() && !is_ws(#[trigger] s[i]);
            assert(s.drop_last()[i] == s[i]);
        }
        if has_content(s.drop_last()) {
            let i = choose|i: int| 0 <= i < s.drop_last().len() && !is_ws(#[trigger] s.drop_last()[i]);
            assert(s[i] == s.drop_last()[i]);
        }
    }
}

/// A trimmed text is empty exactly when the text is blank.
pub proof fn lemma_trim_empty(s: Seq<char>)
    ensures
        (trim(s).len() > 0) == has_content(s),
{
    lemma_trim_start_content(s);
    lemma_trim_end_content(trim_start(s));
    let t = trim(s);
    if t.len() > 0 {
        assert(!is_ws(t[0]) || !is_ws(t.last()));
        lemma_trim_end_content(trim_start(s));
        assert(!is_ws(t.last()));
        assert(has_content(t)) by {
            assert(!is_ws(t[t.len() - 1]));
        }
    }
}

proof fn lemma_content_push(s: Seq<char>, c: char)
    ensures
        has_content(s.push(c)) == (has_content(s) || !is_ws(c)),
{
    if has_content(s) {
        let i = choose|i: int| 0 <= i < s.len() && !is_ws(#[trigger] s[i]);
        assert(s.push(c)[i] == s[i]);
    }
    if !is_ws(c) {
        assert(s.push(c)[s.len() as int] == c);
    }
    if has_content(s.push(c)) {
        let i = choose|i: int| 0 <= i < s.push(c).len() && !is_ws(#[trigger] s.push(c)[i]);
        if i < s.len() {
            assert(s[i] == s.push(c)[i]);
        }
    }
}

// ---------------------------------------------------------------------------------------
// Sentences
// ---------------------------------------------------------------------------------------

/// The characters that end a sentence.
pub open spec fn is_stop(c: char) -> bool {
    c == '.' || c == '!' || c == '?'
}

/// Scanning state of `split_stops`: the completed pieces and the piece being read.
pub open spec fn stop_scan(s: Seq<char>) -> (Seq<Seq<char>>, Seq<char>)
    decreases s.len(),
{
    if s.len() == 0 {
        (seq![], seq![])
    } else {
        let st = stop_scan(s.drop_last());
        if is_stop(s.last()) {
            (st.0.push(st.1), seq![])
        } else {
            (st.0, st.1.push(s.last()))
        }
    }
}

/// The pieces of `s` between sentence stops (what `split(['.', '!', '?'])` yields).
pub open spec fn split_stops(s: Seq<char>) -> Seq<Seq<char>> {
    let st = stop_scan(s);
    st.0.push(st.1)
}

/// How many of `pieces` are not blank.
pub open spec fn count_nonblank(pieces: Seq<Seq<char>>) -> nat
    decreases pieces.len(),
{
    if pieces.len() == 0 {
        0
    } else {
        count_nonblank(pieces.drop_last()) + if trim(pieces.last()).len() > 0 {
            1nat
        } else {
            0nat
        }
    }
}

/// The number of sentences of `s`: the pieces between stops that are not blank.
pub open spec fn sentence_count(s: Seq<char>) -> nat {
    count_nonblank(split_stops(s))
}

proof fn lemma_count_nonblank_push(p: Seq<Seq<char>>, x: Seq<char>)
    ensures
        count_nonblank(p.push(x)) == count_nonblank(p) + if has_content(x) {
            1nat
        } else {
            0nat
        },
{
    assert(p.push(x).drop_last() =~= p);
    lemma_trim_empty(x);
}

/// The number of sentences of `s`.
pub fn count_sentences(s: &[char]) -> (n: usize)
    ensures
        n == sentence_count(s@),
        n <= s@.len() + 1,
{
    let mut done: usize = 0;
    let mut cur_content = false;
    let mut i: usize = 0;
    let ghost mut cur: Seq<char> = seq![];
    while i < s.len()
        invariant
            i <= s@.len(),
            stop_scan(s@.subrange(0, i as int)).1 == cur,
            done == count_nonblank(stop_scan(s@.subrange(0, i as int)).0),
            done + cur.len() <= i,
            cur_content == has_content(cur),
        decreases s@.len() - i,
    {
        let c = s[i];
        assert(s@.subrange(0, i + 1).drop_last() =~= s@.subrange(0, i as int));
        proof {
            lemma_count_nonblank_push(stop_scan(s@.subrange(0, i as int)).0, cur);
            lemma_content_push(cur, c);
        }
        if c == '.' || c == '!' || c == '?' {
            if cur_content {
                done = done + 1;
            }
            cur_content = false;
            proof {
                cur = seq![];
            }
        } else {
            cur_content = cur_content || !is_whitespace(c);
            proof {
                cur = cur.push(c);
            }
        }
        i += 1;
    }
    assert(s@.subrange(0, s@.len() as int) =~= s@);
    proof {
        lemma_count_nonblank_push(stop_scan(s@).0, cur);
    }
    assert(cur_content ==> cur.len() > 0);
    if cur_content {
        done + 1
    } else {
        done
    }
}

/// The number of sentence stops in `s`.
pub open spec fn stop_total(s: Seq<char>) -> nat
    decreases s.len(),
{
    if s.len() == 0 {
        0
    } else {
        stop_total(s.drop_last()) + if is_stop(s.last()) {
            1nat
        } else {
            0nat
        }
    }
}

pub proof fn lemma_stop_total_append(a: Seq<char>, b: Seq<char>)
    ensures
        stop_total(a + b) == stop_total(a) + stop_total(b),
    decreases b.len(),
{
    if b.len() == 0 {
        assert(a + b =~= a);
    } else {
        assert((a + b).drop_last() =~= a + b.drop_last());
        lemma_stop_total_append(a, b.drop_last());
    }
}

pub proof fn lemma_stop_total_blank(s: Seq<char>)
    requires
        forall|j: int| 0 <= j < s.len() ==> is_ws(#[trigger] s[j]),
    ensures
        stop_total(s) == 0,
    decreases s.len(),
{
    if s.len() > 0 {
        assert(is_ws(s[s.len() - 1]));
        lemma_stop_total_blank(s.drop_last());
    }
}

/// `trim_start(s)` is a suffix of `s` after whitespace.
pub proof fn lemma_trim_start_split(s: Seq<char>) -> (k: int)
    ensures
        0 <= k <= s.len(),
        trim_start(s) == s.subrange(k, s.len() as int),
        forall|j: int| 0 <= j < k ==> is_ws(#[trigger] s[j]),
        trim_start(s).len() > 0 ==> !is_ws(trim_start(s)[0]),
    decreases s.len(),
{
    if s.len() > 0 && is_ws(s[0]) {
        let k1 = lemma_trim_start_split(s.drop_first());
        assert(s.drop_first().subrange(k1, s.drop_first().len() as int) =~= s.subrange(
            k1 + 1,
            s.len() as int,
        ));
        assert forall|j: int| 0 <= j < k1 + 1 implies is_ws(#[trigger] s[j]) by {
            if j > 0 {
                assert(s[j] == s.drop_first()[j - 1]);
            }
        }
        k1 + 1
    } else {
        assert(s.subrange(0, s.len() as int) =~= s);
        0
    }
}

/// `trim_end(s)` is a prefix of `s` before whitespace.
pub proof fn lemma_trim_end_split(s: Seq<char>) -> (k: int)
    ensures
        0 <= k <= s.len(),
        trim_end(s) == s.subrange(0, k),
        forall|j: int| k <= j < s.len() ==> is_ws(#[trigger] s[j]),
        trim_end(s).len() > 0 ==> !is_ws(trim_end(s).last()),
    decreases s.len(),
{
    if s.len() > 0 && is_ws(s.last()) {
        let k1 = lemma_trim_end_split(s.drop_last());
        assert(s.drop_last().subrange(0, k1) =~= s.subrange(0, k1));
        assert forall|j: int| k1 <= j < s.len() implies is_ws(#[trigger] s[j]) by {
            if j < s.len() - 1 {
                assert(s[j] == s.drop_last()[j]);
            }
        }
        k1
    } else {
        assert(s.subrange(0, s.len() as int) =~= s);
        s.len() as int
    }
}

/// `trim(s)` is a slice of `s` with only whitespace cut away, and neither starts nor ends
/// with whitespace.
pub proof fn lemma_trim_split(s: Seq<char>) -> (r: (int, int))
    ensures
        0 <= r.0 <= r.1 <= s.len(),
        trim(s) == s.subrange(r.0, r.1),
        forall|j: int| 0 <= j < r.0 ==> is_ws(#[trigger] s[j]),
        forall|j: int| r.1 <= j < s.len() ==> is_ws(#[trigger] s[j]),
        trim(s).len() > 0 ==> !is_ws(trim(s)[0]) && !is_ws(trim(s).last()),
{
    let a = lemma_trim_start_split(s);
    let t = trim_start(s);
    let b = lemma_trim_end_split(t);
    if trim(s).len() > 0 {
        assert(trim(s)[0] == t[0]);
    }
    assert(s.subrange(a, s.len() as int).subrange(0, b) =~= s.subrange(a, a + b));
    assert forall|j: int| a + b <= j < s.len() implies is_ws(#[trigger] s[j]) by {
        assert(s[j] == t[j - a]);
    }
    (a, a + b)
}

/// Trimming removes no sentence stop.
pub proof fn lemma_trim_stops(s: Seq<char>)
    ensures
        stop_total(trim(s)) == stop_total(s),
        s.len() > 0 && !is_ws(s.last()) ==> trim(s).len() > 0 && trim(s).last() == s.last(),
{
    let r = lemma_trim_split(s);
    let pre = s.subrange(0, r.0);
    let mid = s.subrange(r.0, r.1);
    let post = s.subrange(r.1, s.len() as int);
    assert(s =~= pre + mid + post);
    assert forall|j: int| 0 <= j < pre.len() implies is_ws(#[trigger] pre[j]) by {
        assert(pre[j] == s[j]);
    }
    assert forall|j: int| 0 <= j < post.len() implies is_ws(#[trigger] post[j]) by {
        assert(post[j] == s[r.1 + j]);
    }
    lemma_stop_total_blank(pre);
    lemma_stop_total_blank(post);
    lemma_stop_total_append(pre, mid);
    lemma_stop_total_append(pre + mid, post);
    if s.len() > 0 && !is_ws(s.last()) {
        assert(r.1 == s.len()) by {
            if r.1 < s.len() {
                assert(is_ws(s[s.len() - 1]));
            }
        }
        assert(!is_ws(s[r.0]) || r.0 < r.1) by {
            if r.0 == r.1 {
                assert(is_ws(s[s.len() - 1]));
            }
        }
    }
}

proof fn lemma_stop_scan_len(s: Seq<char>)
    ensures
        stop_scan(s).0.len() == stop_total(s),
        s.len() > 0 && is_stop(s.last()) ==> stop_scan(s).1.len() == 0,
    decreases s.len(),
{
    if s.len() > 0 {
        lemma_stop_scan_len(s.drop_last());
    }
}

proof fn lemma_count_nonblank_le(p: Seq<Seq<char>>)
    ensures
        count_nonblank(p) <= p.len(),
    decreases p.len(),
{
    if p.len() > 0 {
        lemma_count_nonblank_le(p.drop_last());
    }
}

/// A text has at most one sentence more than it has stops, and no more sentences than
/// stops when it ends with a stop.
pub proof fn lemma_sentences_within_stops(s: Seq<char>)
    ensures
        stop_total(s) + 1 >= sentence_count(s),
        (s.len() > 0 && is_stop(s.last())) ==> (stop_total(s) >= sentence_count(s)),
{
    lemma_stop_scan_len(s);
    let st = stop_scan(s);
    lemma_count_nonblank_le(st.0);
    assert(st.0.push(st.1).drop_last() =~= st.0);
    if s.len() > 0 && is_stop(s.last()) {
        assert(trim(st.1).len() == 0) by {
            lemma_trim_empty(st.1);
        }
    }
}

/// Scanning state of `stop_cut`: stops seen (up to `max`) and the end of the last one.
pub open spec fn cut_scan(s: Seq<char>, max: nat) -> (nat, nat)
    decreases s.len(),
{
    if s.len() == 0 {
        (0, 0)
    } else {
        let st = cut_scan(s.drop_last(), max);
        if st.0 >= max {
            st
        } else if is_stop(s.last()) {
            ((st.0 + 1) as nat, s.len())
        } else {
            st
        }
    }
}

/// The index just past the `max`-th stop of `s`, or past its last stop if it has fewer,
/// or 0 if it has none.
pub open spec fn stop_cut(s: Seq<char>, max: nat) -> nat {
    cut_scan(s, max).1
}

/// What `stop_cut` finds: with `c` stops counted and end `e`, the prefix up to `e` holds
/// `c` stops and ends with one (when `e > 0`), and all stops were counted unless `max` was
/// reached.
pub proof fn lemma_cut_scan(s: Seq<char>, max: nat)
    requires
        max > 0,
    ensures
        cut_scan(s, max).0 <= max,
        cut_scan(s, max).1 <= s.len(),
        stop_total(s.subrange(0, cut_scan(s, max).1 as int)) == cut_scan(s, max).0,
        cut_scan(s, max).1 > 0 ==> is_stop(s[cut_scan(s, max).1 - 1]),
        (cut_scan(s, max).1 == 0) == (cut_scan(s, max).0 == 0),
        cut_scan(s, max).0 < max ==> stop_total(s) == cut_scan(s, max).0,
    decreases s.len(),
{
    if s.len() > 0 {
        let p = s.drop_last();
        lemma_cut_scan(p, max);
        let st = cut_scan(p, max);
        assert(p.subrange(0, st.1 as int) =~= s.subrange(0, st.1 as int));
        if st.1 > 0 {
            assert(p[st.1 - 1] == s[st.1 - 1]);
        }
        if st.0 < max && is_stop(s.last()) {
            assert(s.subrange(0, s.len() as int) =~= s);
        }
    } else {
        assert(s.subrange(0, 0) =~= Seq::<char>::empty());
    }
}

/// The index just past the `max`-th stop of `s` (see `stop_cut`).
pub fn stop_cut_index(s: &[char], max: usize) -> (k: usize)
    requires
        max > 0,
    ensures
        k == stop_cut(s@, max as nat),
        k <= s@.len(),
{
    let mut count: usize = 0;
    let mut end: usize = 0;
    let mut i: usize = 0;
    while i < s.len()
        invariant
            i <= s@.len(),
            (count as nat, end as nat) == cut_scan(s@.subrange(0, i as int), max as nat),
            count <= max,
            end <= i,
        decreases s@.len() - i,
    {
        assert(s@.subrange(0, i + 1).drop_last() =~= s@.subrange(0, i as int));
        if count < max {
            let c = s[i];
            if c == '.' || c == '!' || c == '?' {
                count = count + 1;
                end = i + 1;
            }
        }
        i += 1;
    }
    assert(s@.subrange(0, s@.len() as int) =~= s@);
    end
}

/// The index of the last `.` or `!` of `s`.
pub open spec fn last_period_or_bang(s: Seq<char>) -> Option<nat>
    decreases s.len(),
{
    if s.len() == 0 {
        None
    } else if s.last() == '.' || s.last() == '!' {
        Some((s.len() - 1) as nat)
    } else {
        last_period_or_bang(s.drop_last())
    }
}

/// The last `.` or `!` lies within the text.
pub proof fn lemma_last_period_in_range(s: Seq<char>)
    ensures
        last_period_or_bang(s) matches Some(k) ==> k < s.len(),
    decreases s.len(),
{
    if s.len() > 0 {
        lemma_last_period_in_range(s.drop_last());
    }
}

/// The position reported is that of the last `.` or `!` of `s`: the character there is
/// one of them and none follows it; and nothing is reported exactly when `s` holds
/// neither.
pub proof fn lemma_last_period_or_bang_is_last(s: Seq<char>)
    ensures
        last_period_or_bang(s) matches Some(k) ==> {
            &&& k < s.len()
            &&& (s[k as int] == '.' || s[k as int] == '!')
            &&& forall|j: int| k < j < s.len() ==> #[trigger] s[j] != '.' && s[j] != '!'
        },
        last_period_or_bang(s) is None <==> forall|j: int| 0 <= j < s.len() ==> #[trigger] s[j] != '.' && s[j]
            != '!',
    decreases s.len(),
{
    if s.len() > 0 {
        lemma_last_period_or_bang_is_last(s.drop_last());
        if !(s.last() == '.' || s.last() == '!') {
            assert forall|j: int| 0 <= j < s.len() - 1 implies #[trigger] s.drop_last()[j] == s[j] by {}
            if last_period_or_bang(s) is None {
                assert forall|j: int| 0 <= j < s.len() implies #[trigger] s[j] != '.' && s[j] != '!' by {
                    if j < s.len() - 1 {
                        assert(s.drop_last()[j] == s[j]);
                    }
                }
            } else {
                let k = last_period_or_bang(s)->0;
                assert(s.drop_last()[k as int] == s[k as int]);
                assert forall|j: int| k < j < s.len() implies #[trigger] s[j] != '.' && s[j] != '!' by {
                    if j < s.len() - 1 {
                        assert(s.drop_last()[j] == s[j]);
                    }
                }
            }
        }
    }
}

/// The index of the last `.` or `!` of `s`.
pub fn find_last_period_or_bang(s: &[char]) -> (res: Option<usize>)
    ensures
        res matches Some(k) ==> last_period_or_bang(s@) == Some(k as nat) && k < s@.len(),
        res is None ==> last_period_or_bang(s@) is None,
{
    let mut i: usize = s.len();
    assert(s@.subrange(0, s@.len() as int) =~= s@);
    while i > 0
        invariant
            i <= s@.len(),
            last_period_or_bang(s@) == last_period_or_bang(s@.subrange(0, i as int)),
        decreases i,
    {
        assert(s@.subrange(0, i as int).drop_last() =~= s@.subrange(0, i - 1));
        if s[i - 1] == '.' || s[i - 1] == '!' {
            return Some(i - 1);
        }
        i -= 1;
    }
    None
}

// ---------------------------------------------------------------------------------------
// Byte offsets
// ---------------------------------------------------------------------------------------

/// Byte offset `b` falls between two characters of `s` (or at either end).
pub open spec fn is_boundary(s: Seq<char>, b: int) -> bool {
    exists|k: int| 0 <= k <= s.len() && byte_len(#[trigger] s.subrange(0, k)) == b
}

/// The number of characters of `s` whose encoding lies entirely within the first `b` bytes.
pub open spec fn char_offset(s: Seq<char>, b: int) -> nat
    decreases s.len(),
{
    if s.len() == 0 || b < char_byte_len(s[0]) {
        0
    } else {
        1 + char_offset(s.drop_first(), b - char_byte_len(s[0]))
    }
}

/// A prefix of `s` is the first character's encoding followed by a prefix of the rest.
proof fn lemma_prefix_byte_len(s: Seq<char>, k: int)
    requires
        1 <= k <= s.len(),
    ensures
        byte_len(s.subrange(0, k)) == char_byte_len(s[0]) + byte_len(s.drop_first().subrange(0, k - 1)),
{
    assert(s.subrange(0, k) =~= seq![s[0]] + s.drop_first().subrange(0, k - 1));
    lemma_encode_append(seq![s[0]], s.drop_first().subrange(0, k - 1));
    assert(encode_utf8(Seq::<char>::empty()) =~= Seq::<u8>::empty());
    assert(seq![s[0]].drop_first() =~= Seq::<char>::empty());
    assert(encode_utf8(seq![s[0]]) =~= encode_scalar(s[0] as u32));
    lemma_char_byte_len(s[0]);
}

/// Byte offset `b` falls between characters exactly when the characters within the first
/// `b` bytes take up all `b` of them.
proof fn lemma_boundary_char_offset(s: Seq<char>, b: int)
    requires
        b >= 0,
    ensures
        char_offset(s, b) <= s.len(),
        is_boundary(s, b) <==> byte_len(s.subrange(0, char_offset(s, b) as int)) == b,
    decreases s.len(),
{
    assert(s.subrange(0, 0) =~= Seq::<char>::empty());
    assert(byte_len(Seq::<char>::empty()) == 0) by {
        assert(encode_utf8(Seq::<char>::empty()) =~= Seq::<u8>::empty());
    }
    if s.len() == 0 {
    } else {
        let c = char_byte_len(s[0]);
        let t = s.drop_first();
        lemma_char_byte_len(s[0]);
        if b < c {
            if is_boundary(s, b) {
                let k = choose|k: int| 0 <= k <= s.len() && byte_len(#[trigger] s.subrange(0, k)) == b;
                if k >= 1 {
                    lemma_prefix_byte_len(s, k);
                }
            }
        } else {
            lemma_boundary_char_offset(t, b - c);
            let co = char_offset(t, b - c);
            lemma_prefix_byte_len(s, (co + 1) as int);
            if is_boundary(s, b) {
                let k = choose|k: int| 0 <= k <= s.len() && byte_len(#[trigger] s.subrange(0, k)) == b;
                lemma_prefix_byte_len(s, k);
                assert(byte_len(t.subrange(0, k - 1)) == b - c);
                assert(is_boundary(t, b - c));
            }
            if byte_len(s.subrange(0, char_offset(s, b) as int)) == b {
                assert(byte_len(t.subrange(0, co as int)) == b - c);
                assert(is_boundary(t, b - c));
                let k = choose|k: int| 0 <= k <= t.len() && byte_len(#[trigger] t.subrange(0, k)) == b - c;
                lemma_prefix_byte_len(s, k + 1);
                assert(byte_len(s.subrange(0, k + 1)) == b);
            }
        }
    }
}

/// At a byte offset that falls between characters, the characters within that many bytes
/// take up exactly that many bytes.
pub proof fn lemma_boundary_prefix(s: Seq<char>, b: int)
    requires
        b >= 0,
        is_boundary(s, b),
    ensures
        char_offset(s, b) <= s.len(),
        byte_len(s.subrange(0, char_offset(s, b) as int)) == b,
{
    lemma_boundary_char_offset(s, b);
}

/// Whether byte offset `b` falls between two characters of `s` (or at either end).
pub fn boundary_at(s: &[char], b: usize) -> (res: bool)
    ensures
        res == is_boundary(s@, b as int),
{
    let k = char_offset_of(s, b);
    proof {
        lemma_boundary_char_offset(s@, b as int);
    }
    let head = copy_range(s, 0, k);
    byte_len_chars(head.as_slice()) == b as u128
}

/// The number of characters of `s` within its first `b` bytes (see `char_offset`).
pub fn char_offset_of(s: &[char], b: usize) -> (k: usize)
    ensures
        k == char_offset(s@, b as int),
        k <= s@.len(),
{
    let mut k: usize = 0;
    let mut used: u128 = 0;
    assert(s@.subrange(0, s@.len() as int) =~= s@);
    while k < s.len() && used + char_len_utf8(s[k]) <= b as u128
        invariant
            k <= s@.len(),
            used <= b,
            char_offset(s@, b as int) == k + char_offset(
                s@.subrange(k as int, s@.len() as int),
                b - used,
            ),
        decreases s@.len() - k,
    {
        assert(s@.subrange(k as int, s@.len() as int).drop_first() =~= s@.subrange(
            k + 1,
            s@.len() as int,
        ));
        used = used + char_len_utf8(s[k]);
        k += 1;
    }
    k
}

// ---------------------------------------------------------------------------------------
// Case mapping (named results of the standard library's Unicode tables)
// ---------------------------------------------------------------------------------------

/// What `str::to_lowercase` returns for the text `s`.
pub uninterp spec fn lowercase(s: Seq<char>) -> Seq<char>;

/// What `str::to_uppercase` returns for the text `s`.
pub uninterp spec fn uppercase(s: Seq<char>) -> Seq<char>;

/// The lowercase forms of `texts`.
pub open spec fn lowercase_all(texts: Seq<Seq<char>>) -> Seq<Seq<char>> {
    texts.map_values(|t: Seq<char>| lowercase(t))
}

/// What `char::to_uppercase` yields for `c`.
pub uninterp spec fn char_uppercase(c: char) -> Seq<char>;

/// Lowercase form of `s`: calls `str::to_lowercase` (Unicode `Lowercase` mapping).
/// Its result is named by `lowercase` and nothing more is claimed of it.
#[verifier::external_body]
pub(crate) fn to_lowercase(s: &str) -> (res: String)
    ensures
        res@ == lowercase(s@),
{
    s.to_lowercase()
}

/// Uppercase form of `s`: calls `str::to_uppercase` (Unicode `Uppercase` mapping).
/// Its result is named by `uppercase` and nothing more is claimed of it.
#[verifier::external_body]
pub(crate) fn to_uppercase(s: &str) -> (res: String)
    ensures
        res@ == uppercase(s@),
{
    s.to_uppercase()
}

/// Uppercase form of one character: collects `char::to_uppercase`.
/// Its result is named by `char_uppercase` and nothing more is claimed of it.
#[verifier::external_body]
pub(crate) fn char_to_uppercase(c: char) -> (res: Vec<char>)
    ensures
        res@ == char_uppercase(c),
{
    c.to_uppercase().collect()
}

/// Lowercase form of the text `s`.
pub fn lowercase_chars(s: &[char]) -> (res: Vec<char>)
    ensures
        res@ == lowercase(s@),
{
    let st = string_of(s);
    let lower = to_lowercase(st.as_str());
    chars_of_string(&lower)
}

/// Lowercase form of a `String`, as characters.
pub fn to_lowercase_string(s: &String) -> (res: Vec<char>)
    ensures
        res@ == lowercase(s@),
{
    let lower = to_lowercase(s.as_str());
    chars_of_string(&lower)
}

/// A copy of the character vectors `ws[lo..hi]`.
pub fn copy_texts(ws: &Vec<Vec<char>>, lo: usize, hi: usize) -> (res: Vec<Vec<char>>)
    requires
        lo <= hi <= ws@.len(),
    ensures
        texts(res@) == texts(ws@).subrange(lo as int, hi as int),
{
    let mut res: Vec<Vec<char>> = Vec::new();
    let mut i = lo;
    while i < hi
        invariant
            lo <= i <= hi <= ws@.len(),
            texts(res@) == texts(ws@).subrange(lo as int, i as int),
        decreases hi - i,
    {
        let w = copy_range(ws[i].as_slice(), 0, ws[i].len());
        assert(ws@[i as int]@.subrange(0, ws@[i as int]@.len() as int) =~= ws@[i as int]@);
        let ghost r0 = texts(res@);
        let ghost wv = w@;
        res.push(w);
        assert(texts(res@) =~= r0.push(wv));
        assert(texts(ws@).subrange(lo as int, i + 1) =~= texts(ws@).subrange(lo as int, i as int).push(ws@[i as int]@));
        i += 1;
    }
    res
}

/// Lowercase forms of each of `ws`.
pub fn lowercase_each(ws: &Vec<Vec<char>>) -> (res: Vec<Vec<char>>)
    ensures
        texts(res@) == lowercase_all(texts(ws@)),
{
    let mut res: Vec<Vec<char>> = Vec::new();
    let mut i: usize = 0;
    while i < ws.len()
        invariant
            i <= ws@.len(),
            texts(res@) == lowercase_all(texts(ws@).subrange(0, i as int)),
        decreases ws@.len() - i,
    {
        let w = lowercase_chars(ws[i].as_slice());
        let ghost r0 = texts(res@);
        let ghost wv = w@;
        res.push(w);
        assert(texts(res@) =~= r0.push(wv));
        assert(lowercase_all(texts(ws@).subrange(0, i + 1)) =~= lowercase_all(texts(ws@).subrange(0, i as int)).push(lowercase(ws@[i as int]@)));
        i += 1;
    }
    assert(texts(ws@).subrange(0, ws@.len() as int) =~= texts(ws@));
    res
}

/// Whether `x` is one of `list`.
pub fn member_of(list: &Vec<&str>, x: &[char]) -> (b: bool)
    ensures
        b == list@.map_values(|s: &str| s@).contains(x@),
{
    let ghost lv = list@.map_values(|s: &str| s@);
    let mut i: usize = 0;
    while i < list.len()
        invariant
            i <= list@.len(),
            lv == list@.map_values(|s: &str| s@),
            forall|t: int| 0 <= t < i ==> lv[t] != x@,
        decreases list@.len() - i,
    {
        let c = chars_of(list[i]);
        if same_chars(c.as_slice(), x) {
            assert(lv[i as int] == x@);
            return true;
        }
        i += 1;
    }
    false
}

// ---------------------------------------------------------------------------------------
// Word sets
// ---------------------------------------------------------------------------------------

/// The number of distinct words that `a` and `b` share.
pub open spec fn common_words(a: Seq<Seq<char>>, b: Seq<Seq<char>>) -> nat {
    a.to_set().intersect(b.to_set()).len()
}

/// The number of distinct words of the larger of `a` and `b`.
pub open spec fn larger_vocabulary(a: Seq<Seq<char>>, b: Seq<Seq<char>>) -> nat {
    if a.to_set().len() >= b.to_set().len() {
        a.to_set().len()
    } else {
        b.to_set().len()
    }
}

/// Whether the text `x` is one of `list`.
pub fn contains_text(list: &Vec<Vec<char>>, x: &[char]) -> (b: bool)
    ensures
        b == texts(list@).contains(x@),
{
    let ghost tl = texts(list@);
    let mut i: usize = 0;
    while i < list.len()
        invariant
            i <= list@.len(),
            tl == texts(list@),
            forall|t: int| 0 <= t < i ==> tl[t] != x@,
        decreases list@.len() - i,
    {
        if same_chars(list[i].as_slice(), x) {
            assert(tl[i as int] == x@);
            return true;
        }
        i += 1;
    }
    false
}

/// The distinct texts of `ws`, in order of first appearance.
pub fn distinct_texts(ws: &Vec<Vec<char>>) -> (res: Vec<Vec<char>>)
    ensures
        texts(res@).no_duplicates(),
        texts(res@).to_set() == texts(ws@).to_set(),
{
    let ghost tw = texts(ws@);
    let mut res: Vec<Vec<char>> = Vec::new();
    let mut i: usize = 0;
    assert(texts(res@).to_set() =~= tw.subrange(0, 0).to_set());
    while i < ws.len()
        invariant
            i <= ws@.len(),
            tw == texts(ws@),
            texts(res@).no_duplicates(),
            texts(res@).to_set() == tw.subrange(0, i as int).to_set(),
        decreases ws@.len() - i,
    {
        assert(tw.subrange(0, i + 1) =~= tw.subrange(0, i as int).push(tw[i as int]));
        proof {
            tw.subrange(0, i as int).lemma_push_to_set_commute(tw[i as int]);
        }
        if !contains_text(&res, ws[i].as_slice()) {
            let w = copy_range(ws[i].as_slice(), 0, ws[i].len());
            assert(ws@[i as int]@.subrange(0, ws@[i as int]@.len() as int) =~= ws@[i as int]@);
            let ghost r0 = texts(res@);
            let ghost wv = w@;
            res.push(w);
            assert(texts(res@) =~= r0.push(wv));
            proof {
                r0.lemma_push_to_set_commute(wv);
                assert(!r0.to_set().contains(wv));
            }
        } else {
            assert(texts(res@).to_set().contains(tw[i as int]));
            assert(tw.subrange(0, i + 1).to_set() =~= tw.subrange(0, i as int).to_set());
        }
        i += 1;
    }
    assert(tw.subrange(0, ws@.len() as int) =~= tw);
    res
}

/// The number of distinct words `wa` and `wb` share, and the number of distinct words
/// of the larger of the two.
pub fn overlap_counts(wa: &Vec<Vec<char>>, wb: &Vec<Vec<char>>) -> (res: (usize, usize))
    ensures
        res.0 == common_words(texts(wa@), texts(wb@)),
        res.1 == larger_vocabulary(texts(wa@), texts(wb@)),
        res.0 <= res.1,
{
    let ua = distinct_texts(wa);
    let ub = distinct_texts(wb);
    let ghost sa = texts(ua@);
    let ghost sb = texts(ub@);
    let ghost setb = sb.to_set();
    proof {
        sa.unique_seq_to_set();
        sb.unique_seq_to_set();
    }
    let mut count: usize = 0;
    let mut j: usize = 0;
    assert(sa.subrange(0, 0).to_set().intersect(setb) =~= Set::<Seq<char>>::empty());
    while j < ua.len()
        invariant
            j <= ua@.len(),
            sa == texts(ua@),
            sb == texts(ub@),
            setb == sb.to_set(),
            sa.no_duplicates(),
            count == sa.subrange(0, j as int).to_set().intersect(setb).len(),
            count <= j,
        decreases ua@.len() - j,
    {
        let ghost pre = sa.subrange(0, j as int);
        let ghost x = sa[j as int];
        assert(sa.subrange(0, j + 1) =~= pre.push(x));
        proof {
            pre.lemma_push_to_set_commute(x);
            assert(!pre.to_set().contains(x)) by {
                if pre.to_set().contains(x) {
                    let t = choose|t: int| 0 <= t < pre.len() && pre[t] == x;
                    assert(sa[t] == sa[j as int]);
                }
            }
        }
        if contains_text(&ub, ua[j].as_slice()) {
            proof {
                assert(pre.push(x).to_set().intersect(setb) =~= pre.to_set().intersect(setb).insert(x));
                vstd::seq_lib::seq_to_set_is_finite(pre);
                vstd::set::axiom_set_intersect_finite(pre.to_set(), setb);
            }
            count = count + 1;
        } else {
            assert(pre.push(x).to_set().intersect(setb) =~= pre.to_set().intersect(setb));
        }
        j += 1;
    }
    assert(sa.subrange(0, ua@.len() as int) =~= sa);
    proof {
        vstd::seq_lib::seq_to_set_is_finite(sa);
        vstd::set_lib::lemma_len_intersect(sa.to_set(), setb);
    }
    assert(sa.len() == ua@.len() && sb.len() == ub@.len());
    let larger = if ua.len() >= ub.len() { ua.len() } else { ub.len() };
    (count, larger)
}

} // verus!
