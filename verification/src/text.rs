use vstd::prelude::*;

verus! {

/// Whether two string slices hold the same characters.
pub fn same_text(a: &str, b: &str) -> (r: bool)
    ensures
        r == (a@ == b@),
{
    a.to_owned() == b.to_owned()
}

/// The characters of `s`, in order.
pub fn chars_of(s: &str) -> (r: Vec<char>)
    ensures
        r@ == s@,
{
    broadcast use vstd::string::group_string_axioms;
    let mut out: Vec<char> = Vec::new();
    for c in it: s.chars()
        invariant
            out@ == it.seq().take(it.index() as int),
            it.seq() == s@,
    {
        out.push(c);
    }
    out
}

/// Unicode `White_Space`, the set of characters that `str::trim` removes.
pub open spec fn is_white_space(c: char) -> bool {
    ||| ('\u{9}' <= c && c <= '\u{d}')
    ||| c == ' '
    ||| c == '\u{85}'
    ||| c == '\u{a0}'
    ||| c == '\u{1680}'
    ||| ('\u{2000}' <= c && c <= '\u{200a}')
    ||| c == '\u{2028}'
    ||| c == '\u{2029}'
    ||| c == '\u{202f}'
    ||| c == '\u{205f}'
    ||| c == '\u{3000}'
}

fn white_space(c: char) -> (r: bool)
    ensures
        r == is_white_space(c),
{
    ('\u{9}' <= c && c <= '\u{d}') || c == ' ' || c == '\u{85}' || c == '\u{a0}' || c == '\u{1680}'
        || ('\u{2000}' <= c && c <= '\u{200a}') || c == '\u{2028}' || c == '\u{2029}' || c
        == '\u{202f}' || c == '\u{205f}' || c == '\u{3000}'
}

/// `s` without its leading white space.
pub open spec fn trim_start(s: Seq<char>) -> Seq<char>
    decreases s.len(),
{
    if s.len() > 0 && is_white_space(s[0]) {
        trim_start(s.drop_first())
    } else {
        s
    }
}

/// `s` without its trailing white space.
pub open spec fn trim_end(s: Seq<char>) -> Seq<char>
    decreases s.len(),
{
    if s.len() > 0 && is_white_space(s.last()) {
        trim_end(s.drop_last())
    } else {
        s
    }
}

/// `s` without leading and trailing white space.
pub open spec fn trimmed(s: Seq<char>) -> Seq<char> {
    trim_end(trim_start(s))
}

/// The text of `s` with leading and trailing white space removed, as
/// `str::trim` gives it.
pub fn trim_text(s: &str) -> (r: &str)
    ensures
        r@ == trimmed(s@),
{
    let cs = chars_of(s);
    let n = cs.len();
    let mut start: usize = 0;
    assert(cs@.subrange(0, n as int) =~= cs@);
    while start < n && white_space(cs[start])
        invariant
            start <= n,
            n == cs@.len(),
            cs@ == s@,
            trim_start(s@) == trim_start(cs@.subrange(start as int, n as int)),
        decreases n - start,
    {
        assert(cs@.subrange(start as int, n as int).drop_first() =~= cs@.subrange(
            start + 1,
            n as int,
        ));
        start = start + 1;
    }
    let ghost rest = cs@.subrange(start as int, n as int);
    assert(trim_start(rest) == rest);
    let mut end: usize = n;
    while end > start && white_space(cs[end - 1])
        invariant
            start <= end <= n,
            n == cs@.len(),
            cs@ == s@,
            trim_start(s@) == rest,
            rest == cs@.subrange(start as int, n as int),
            trim_end(rest) == trim_end(cs@.subrange(start as int, end as int)),
        decreases end - start,
    {
        assert(cs@.subrange(start as int, end as int).drop_last() =~= cs@.subrange(
            start as int,
            end - 1,
        ));
        end = end - 1;
    }
    s.substring_char(start, end)
}

/// `c` with an ASCII capital letter replaced by its small letter, as
/// `char::to_ascii_lowercase` does.
pub open spec fn ascii_lower(c: char) -> char {
    if 'A' <= c && c <= 'Z' {
        ((c as u32) + 32) as char
    } else {
        c
    }
}

/// `s` with every ASCII capital letter made small, as `str::to_ascii_lowercase`
/// does.
pub open spec fn ascii_lowercase(s: Seq<char>) -> Seq<char> {
    s.map_values(|c: char| ascii_lower(c))
}

/// Whether `s` ends with `suffix`.
pub open spec fn ends_with(s: Seq<char>, suffix: Seq<char>) -> bool {
    suffix.len() <= s.len() && s.subrange(s.len() - suffix.len(), s.len() as int) == suffix
}

/// Whether `s` holds `part` as a run of consecutive characters.
pub open spec fn contains_text(s: Seq<char>, part: Seq<char>) -> bool {
    exists|k: int| 0 <= k <= s.len() - part.len() && #[trigger] s.subrange(k, k + part.len()) == part
}

/// Whether `s` ends with ".xml" once its ASCII letters are made small.
pub fn has_xml_extension(s: &str) -> (r: bool)
    ensures
        r == ends_with(ascii_lowercase(s@), ".xml"@),
{
    proof {
        reveal_strlit(".xml");
    }
    let cs = chars_of(s);
    let n = cs.len();
    let ghost low = ascii_lowercase(s@);
    if n < 4 {
        return false;
    }
    let a = cs[n - 4];
    let b = cs[n - 3];
    let c = cs[n - 2];
    let d = cs[n - 1];
    let r = a == '.' && (b == 'x' || b == 'X') && (c == 'm' || c == 'M') && (d == 'l' || d == 'L');
    assert(low[n - 4] == ascii_lower(a));
    assert(low[n - 3] == ascii_lower(b));
    assert(low[n - 2] == ascii_lower(c));
    assert(low[n - 1] == ascii_lower(d));
    if r {
        assert(low.subrange(n - 4, n as int) =~= ".xml"@);
    } else {
        proof {
            if low.subrange(n - 4, n as int) == ".xml"@ {
                assert(low.subrange(n - 4, n as int)[0] == low[n - 4]);
                assert(low.subrange(n - 4, n as int)[1] == low[n - 3]);
                assert(low.subrange(n - 4, n as int)[2] == low[n - 2]);
                assert(low.subrange(n - 4, n as int)[3] == low[n - 1]);
            }
        }
    }
    r
}

/// Whether the characters `cs` hold `part` as a run of consecutive characters.
pub fn chars_contain(cs: &Vec<char>, part: &Vec<char>) -> (r: bool)
    ensures
        r == contains_text(cs@, part@),
{
    let n = cs.len();
    let m = part.len();
    if m > n {
        return false;
    }
    let mut k: usize = 0;
    while k <= n - m
        invariant
            m <= n,
            n == cs@.len(),
            m == part@.len(),
            k <= n - m + 1,
            forall|j: int| 0 <= j < k ==> #[trigger] cs@.subrange(j, j + m) != part@,
        decreases n - m + 1 - k,
    {
        let mut i: usize = 0;
        let mut same = true;
        while i < m
            invariant
                i <= m,
                m <= n,
                k <= n - m,
                n == cs@.len(),
                m == part@.len(),
                same == forall|t: int| 0 <= t < i ==> cs@[k + t] == part@[t],
            decreases m - i,
        {
            if cs[k + i] != part[i] {
                same = false;
            }
            i = i + 1;
        }
        if same {
            assert(cs@.subrange(k as int, k + m) =~= part@);
            return true;
        }
        proof {
            if cs@.subrange(k as int, k + m) == part@ {
                assert forall|t: int| 0 <= t < m implies cs@[k + t] == part@[t] by {
                    assert(cs@.subrange(k as int, k + m)[t] == cs@[k + t]);
                }
            }
        }
        k = k + 1;
    }
    proof {
        lemma_no_run_found(cs@, part@);
    }
    false
}

proof fn lemma_no_run_found(s: Seq<char>, part: Seq<char>)
    requires
        part.len() <= s.len(),
        forall|j: int| 0 <= j < s.len() - part.len() + 1 ==> #[trigger] s.subrange(j, j + part.len()) != part,
    ensures
        !contains_text(s, part),
{
}

/// Byte-wise lexicographic order: `a` comes before `b`.
pub open spec fn bytes_lt(a: Seq<u8>, b: Seq<u8>) -> bool
    decreases a.len(),
{
    if a.len() == 0 {
        b.len() > 0
    } else if b.len() == 0 {
        false
    } else if a[0] != b[0] {
        a[0] < b[0]
    } else {
        bytes_lt(a.drop_first(), b.drop_first())
    }
}

/// The order of `str`'s `Ord`: texts compare lexicographically by the bytes
/// of their UTF-8 encoding.
pub open spec fn text_lt(a: Seq<char>, b: Seq<char>) -> bool {
    bytes_lt(vstd::utf8::encode_utf8(a), vstd::utf8::encode_utf8(b))
}

/// `a` comes before `b` or equals it.
pub open spec fn text_le(a: Seq<char>, b: Seq<char>) -> bool {
    a == b || text_lt(a, b)
}

proof fn lemma_bytes_lt_irreflexive(a: Seq<u8>)
    ensures
        !bytes_lt(a, a),
    decreases a.len(),
{
    if a.len() > 0 {
        lemma_bytes_lt_irreflexive(a.drop_first());
    }
}

proof fn lemma_bytes_lt_transitive(a: Seq<u8>, b: Seq<u8>, c: Seq<u8>)
    requires
        bytes_lt(a, b),
        bytes_lt(b, c),
    ensures
        bytes_lt(a, c),
    decreases a.len(),
{
    if a.len() > 0 && b.len() > 0 && c.len() > 0 && a[0] == b[0] && b[0] == c[0] {
        lemma_bytes_lt_transitive(a.drop_first(), b.drop_first(), c.drop_first());
    }
}

proof fn lemma_bytes_lt_total(a: Seq<u8>, b: Seq<u8>)
    ensures
        a == b || bytes_lt(a, b) || bytes_lt(b, a),
    decreases a.len(),
{
    if a.len() > 0 && b.len() > 0 && a[0] == b[0] {
        lemma_bytes_lt_total(a.drop_first(), b.drop_first());
        if a.drop_first() == b.drop_first() {
            assert(a =~= seq![a[0]] + a.drop_first());
            assert(b =~= seq![b[0]] + b.drop_first());
        }
    } else if a.len() == 0 && b.len() == 0 {
        assert(a =~= b);
    }
}

proof fn lemma_bytes_lt_asymmetric(a: Seq<u8>, b: Seq<u8>)
    requires
        bytes_lt(a, b),
    ensures
        !bytes_lt(b, a),
{
    if bytes_lt(b, a) {
        lemma_bytes_lt_transitive(a, b, a);
        lemma_bytes_lt_irreflexive(a);
    }
}

/// The order of texts is a strict total order.
pub proof fn text_order_is_strict_total(a: Seq<char>, b: Seq<char>, c: Seq<char>)
    ensures
        !text_lt(a, a),
        text_lt(a, b) ==> !text_lt(b, a),
        text_lt(a, b) && text_lt(b, c) ==> text_lt(a, c),
        a == b || text_lt(a, b) || text_lt(b, a),
{
    broadcast use vstd::utf8::encode_utf8_decode_utf8;

    let ea = vstd::utf8::encode_utf8(a);
    let eb = vstd::utf8::encode_utf8(b);
    let ec = vstd::utf8::encode_utf8(c);
    lemma_bytes_lt_irreflexive(ea);
    if bytes_lt(ea, eb) {
        lemma_bytes_lt_asymmetric(ea, eb);
        if bytes_lt(eb, ec) {
            lemma_bytes_lt_transitive(ea, eb, ec);
        }
    }
    lemma_bytes_lt_total(ea, eb);
    if ea == eb {
        assert(vstd::utf8::decode_utf8(ea) == a);
        assert(vstd::utf8::decode_utf8(eb) == b);
    }
}

/// Whether `a` comes before `b` in the order of `str`'s `Ord`.
pub fn text_less(a: &str, b: &str) -> (r: bool)
    ensures
        r == text_lt(a@, b@),
{
    let x = a.as_bytes();
    let y = b.as_bytes();
    let n = x.len();
    let m = y.len();
    let mut i: usize = 0;
    assert(x@.skip(0) =~= x@);
    assert(y@.skip(0) =~= y@);
    while i < n && i < m && x[i] == y[i]
        invariant
            i <= n,
            i <= m,
            n == x@.len(),
            m == y@.len(),
            x@ == vstd::utf8::encode_utf8(a@),
            y@ == vstd::utf8::encode_utf8(b@),
            text_lt(a@, b@) == bytes_lt(x@.skip(i as int), y@.skip(i as int)),
        decreases n - i,
    {
        assert(x@.skip(i as int).drop_first() =~= x@.skip(i + 1));
        assert(y@.skip(i as int).drop_first() =~= y@.skip(i + 1));
        i = i + 1;
    }
    if i == n {
        i < m
    } else if i == m {
        false
    } else {
        assert(x@.skip(i as int)[0] == x@[i as int]);
        assert(y@.skip(i as int)[0] == y@[i as int]);
        x[i] < y[i]
    }
}

/// The characters of each string, in order.
pub open spec fn texts(v: Seq<String>) -> Seq<Seq<char>> {
    v.map_values(|s: String| s@)
}

/// `words` joined into one text with `sep` between neighbours, as
/// `[T]::join` gives it.
pub open spec fn join_with(words: Seq<Seq<char>>, sep: Seq<char>) -> Seq<char>
    decreases words.len(),
{
    if words.len() == 0 {
        seq![]
    } else if words.len() == 1 {
        words[0]
    } else {
        join_with(words.drop_last(), sep) + sep + words.last()
    }
}

/// A new string holding `a` followed by `b`.
pub fn concat(a: &str, b: &str) -> (r: String)
    ensures
        r@ == a@ + b@,
{
    let mut s = a.to_owned();
    s.append(b);
    s
}

/// `words` joined into one string with `sep` between neighbours.
pub fn join_texts(words: &Vec<&str>, sep: &str) -> (r: String)
    ensures
        r@ == join_with(words@.map_values(|w: &str| w@), sep@),
{
    let ghost all = words@.map_values(|w: &str| w@);
    let mut out = "".to_owned();
    proof {
        reveal_strlit("");
        assert(all.take(0) =~= Seq::<Seq<char>>::empty());
    }
    let n = words.len();
    let mut i: usize = 0;
    while i < n
        invariant
            i <= n,
            n == words@.len(),
            all == words@.map_values(|w: &str| w@),
            out@ == join_with(all.take(i as int), sep@),
        decreases n - i,
    {
        if i > 0 {
            out.append(sep);
        }
        out.append(words[i]);
        assert(all.take(i + 1).drop_last() =~= all.take(i as int));
        if i == 0 {
            assert(out@ =~= all.take(1)[0]);
        }
        i = i + 1;
    }
    assert(all.take(n as int) =~= all);
    out
}

} // verus!

verus! {

proof fn lemma_bytes_lt_after_common_prefix(x: Seq<u8>, y: Seq<u8>, k: int)
    requires
        0 <= k <= x.len(),
        k <= y.len(),
        x.subrange(0, k) == y.subrange(0, k),
    ensures
        bytes_lt(x, y) == bytes_lt(x.skip(k), y.skip(k)),
    decreases k,
{
    if k > 0 {
        assert(x[0] == x.subrange(0, k)[0]);
        assert(y[0] == y.subrange(0, k)[0]);
        assert(x.drop_first().subrange(0, k - 1) =~= x.subrange(0, k).drop_first());
        assert(y.drop_first().subrange(0, k - 1) =~= y.subrange(0, k).drop_first());
        lemma_bytes_lt_after_common_prefix(x.drop_first(), y.drop_first(), k - 1);
        assert(x.drop_first().skip(k - 1) =~= x.skip(k));
        assert(y.drop_first().skip(k - 1) =~= y.skip(k));
    } else {
        assert(x.skip(0) =~= x);
        assert(y.skip(0) =~= y);
    }
}

/// Texts are ordered by the bytes of their UTF-8 encodings, as `str`'s `Ord`
/// orders them: where the encodings first differ, the text with the smaller
/// byte comes first; a text whose encoding is a proper beginning of the
/// other's comes first; and nothing comes before a beginning of itself.
pub proof fn text_order_is_byte_order(a: Seq<char>, b: Seq<char>, k: int)
    requires
        0 <= k <= vstd::utf8::encode_utf8(a).len(),
        k <= vstd::utf8::encode_utf8(b).len(),
        vstd::utf8::encode_utf8(a).subrange(0, k) == vstd::utf8::encode_utf8(b).subrange(0, k),
    ensures
        ({
            let x = vstd::utf8::encode_utf8(a);
            let y = vstd::utf8::encode_utf8(b);
            &&& k < x.len() && k < y.len() && x[k] != y[k] ==> (text_lt(a, b) <==> x[k] < y[k])
            &&& k == x.len() && k < y.len() ==> text_lt(a, b)
            &&& k == y.len() ==> !text_lt(a, b)
        }),
{
    let x = vstd::utf8::encode_utf8(a);
    let y = vstd::utf8::encode_utf8(b);
    lemma_bytes_lt_after_common_prefix(x, y, k);
    if k < x.len() && k < y.len() {
        assert(x.skip(k)[0] == x[k]);
        assert(y.skip(k)[0] == y[k]);
    }
}

} // verus!
