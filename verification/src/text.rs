//! Text helpers: code-point order, trimming, searching and joining.

use vstd::prelude::*;
use vstd::utf8::{encode_scalar, encode_utf8};

verus! {

/// The first `k` characters of `a` and `b` agree.
pub open spec fn shares_prefix(a: Seq<char>, b: Seq<char>, k: int) -> bool {
    &&& 0 <= k <= a.len()
    &&& k <= b.len()
    &&& forall|i: int| 0 <= i < k ==> a[i] == b[i]
}

/// Strict lexicographic order of texts by code point.  This is the order of
/// `str` and `String` in Rust, because UTF-8 preserves code point order.
pub open spec fn text_lt(a: Seq<char>, b: Seq<char>) -> bool {
    exists|k: int|
        #[trigger] shares_prefix(a, b, k) && ((k == a.len() && k < b.len()) || (k < a.len() && k
            < b.len() && (a[k] as int) < (b[k] as int)))
}

pub proof fn lemma_text_lt_asymmetric(a: Seq<char>, b: Seq<char>)
    requires
        text_lt(a, b),
    ensures
        !text_lt(b, a),
        a != b,
{
    let k1 = choose|k: int|
        #[trigger] shares_prefix(a, b, k) && ((k == a.len() && k < b.len()) || (k < a.len() && k
            < b.len() && (a[k] as int) < (b[k] as int)));
    if text_lt(b, a) {
        let k2 = choose|k: int|
            #[trigger] shares_prefix(b, a, k) && ((k == b.len() && k < a.len()) || (k < b.len()
                && k < a.len() && (b[k] as int) < (a[k] as int)));
        if k1 < k2 {
            assert(a[k1] == b[k1]);
        } else if k2 < k1 {
            assert(a[k2] == b[k2]);
        }
    }
    if a == b {
        if k1 < a.len() {
            assert(a[k1] == b[k1]);
        }
    }
}

pub proof fn lemma_text_lt_transitive(a: Seq<char>, b: Seq<char>, c: Seq<char>)
    requires
        text_lt(a, b),
        text_lt(b, c),
    ensures
        text_lt(a, c),
{
    let k1 = choose|k: int|
        #[trigger] shares_prefix(a, b, k) && ((k == a.len() && k < b.len()) || (k < a.len() && k
            < b.len() && (a[k] as int) < (b[k] as int)));
    let k2 = choose|k: int|
        #[trigger] shares_prefix(b, c, k) && ((k == b.len() && k < c.len()) || (k < b.len() && k
            < c.len() && (b[k] as int) < (c[k] as int)));
    if k1 < k2 {
        assert(shares_prefix(a, c, k1));
        if k1 < a.len() {
            assert(b[k1] == c[k1]);
        }
    } else if k2 < k1 {
        assert(shares_prefix(a, c, k2));
        assert(a[k2] == b[k2]);
    } else {
        assert(shares_prefix(a, c, k1));
    }
}

proof fn lemma_text_total_from(a: Seq<char>, b: Seq<char>, k: int)
    requires
        shares_prefix(a, b, k),
        a != b,
    ensures
        text_lt(a, b) || text_lt(b, a),
    decreases a.len() - k,
{
    if k == a.len() && k == b.len() {
        assert(a =~= b);
    } else if k == a.len() {
        assert(shares_prefix(a, b, k));
    } else if k == b.len() {
        assert(shares_prefix(b, a, k));
    } else if a[k] != b[k] {
        assert(shares_prefix(b, a, k));
        assert((a[k] as int) != (b[k] as int));
    } else {
        lemma_text_total_from(a, b, k + 1);
    }
}

pub proof fn lemma_text_lt_total(a: Seq<char>, b: Seq<char>)
    requires
        a != b,
    ensures
        text_lt(a, b) || text_lt(b, a),
{
    lemma_text_total_from(a, b, 0);
}

/// Three-way comparison of two texts: -1, 0 or 1.
pub fn compare_text(a: &Vec<char>, b: &Vec<char>) -> (r: i8)
    ensures
        r == -1 <==> text_lt(a@, b@),
        r == 0 <==> a@ == b@,
        r == 1 <==> text_lt(b@, a@),
{
    let mut i: usize = 0;
    while i < a.len() && i < b.len()
        invariant
            shares_prefix(a@, b@, i as int),
        decreases a.len() - i,
    {
        if a[i] != b[i] {
            if a[i] < b[i] {
                assert(shares_prefix(a@, b@, i as int));
                proof { lemma_text_lt_asymmetric(a@, b@); }
                return -1;
            } else {
                assert(shares_prefix(b@, a@, i as int));
                proof { lemma_text_lt_asymmetric(b@, a@); }
                return 1;
            }
        }
        i = i + 1;
    }
    if i == a.len() && i == b.len() {
        assert(a@ =~= b@);
        proof {
            if text_lt(a@, b@) {
                lemma_text_lt_asymmetric(a@, b@);
            }
        }
        0
    } else if i == a.len() {
        assert(shares_prefix(a@, b@, i as int));
        proof { lemma_text_lt_asymmetric(a@, b@); }
        -1
    } else {
        assert(shares_prefix(b@, a@, i as int));
        proof { lemma_text_lt_asymmetric(b@, a@); }
        1
    }
}

/// The characters of a text, in order.
pub fn chars_of(s: &str) -> (v: Vec<char>)
    ensures
        v@ == s@,
{
    broadcast use vstd::string::group_string_axioms;

    let mut v: Vec<char> = Vec::new();
    for c in it: s.chars()
        invariant
            v@ == it.seq().take(it.index() as int),
            it.seq() == s@,
    {
        v.push(c);
    }
    v
}

/// Appends one character: `String::push`.
#[verifier::external_body]
pub(crate) fn push_char(s: &mut String, c: char)
    ensures
        final(s)@ == old(s)@.push(c),
{
    s.push(c);
}

/// Copies `chars[lo..hi]` into a new `String`.
pub fn text_of_range(chars: &Vec<char>, lo: usize, hi: usize) -> (s: String)
    requires
        lo <= hi <= chars.len(),
    ensures
        s@ == chars@.subrange(lo as int, hi as int),
{
    let mut s = String::new();
    let mut i: usize = lo;
    while i < hi
        invariant
            lo <= i <= hi <= chars.len(),
            s@ == chars@.subrange(lo as int, i as int),
        decreases hi - i,
    {
        push_char(&mut s, chars[i]);
        i = i + 1;
        assert(s@ =~= chars@.subrange(lo as int, i as int));
    }
    s
}

/// Unicode `White_Space`, the property that `char::is_whitespace` and
/// `str::trim` go by.
pub open spec fn is_white_space(c: char) -> bool {
    let v = c as int;
    ||| 0x09 <= v <= 0x0D
    ||| v == 0x20
    ||| v == 0x85
    ||| v == 0xA0
    ||| v == 0x1680
    ||| 0x2000 <= v <= 0x200A
    ||| v == 0x2028
    ||| v == 0x2029
    ||| v == 0x202F
    ||| v == 0x205F
    ||| v == 0x3000
}

pub fn white_space(c: char) -> (b: bool)
    ensures
        b == is_white_space(c),
{
    ('\u{09}' <= c && c <= '\u{0D}') || c == ' ' || c == '\u{85}' || c == '\u{A0}' || c
        == '\u{1680}' || ('\u{2000}' <= c && c <= '\u{200A}') || c == '\u{2028}' || c
        == '\u{2029}' || c == '\u{202F}' || c == '\u{205F}' || c == '\u{3000}'
}

/// `s` without its leading white space.
pub open spec fn trim_start(s: Seq<char>) -> Seq<char>
    decreases s.len(),
{
    if s.len() > 0 && is_white_space(s[0]) {
        trim_start(s.drop_first())
    } else {
        s
    }
}

/// `s` without its trailing white space.
pub open spec fn trim_end(s: Seq<char>) -> Seq<char>
    decreases s.len(),
{
    if s.len() > 0 && is_white_space(s.last()) {
        trim_end(s.drop_last())
    } else {
        s
    }
}

/// `s` without leading and trailing white space, as `str::trim` gives it.
pub open spec fn trimmed(s: Seq<char>) -> Seq<char> {
    trim_end(trim_start(s))
}

/// `str::trim`, into a new `String`.
pub fn trim(s: &str) -> (r: String)
    ensures
        r@ == trimmed(s@),
{
    let cs = chars_of(s);
    let mut lo: usize = 0;
    assert(cs@.skip(0) =~= cs@);
    while lo < cs.len() && white_space(cs[lo as usize])
        invariant
            lo <= cs.len(),
            trim_start(cs@) == trim_start(cs@.skip(lo as int)),
        decreases cs.len() - lo,
    {
        assert(cs@.skip(lo as int).drop_first() =~= cs@.skip(lo + 1));
        lo = lo + 1;
    }
    assert(trim_start(cs@) == cs@.skip(lo as int));
    let mut hi: usize = cs.len();
    assert(cs@.skip(lo as int) =~= cs@.subrange(lo as int, hi as int));
    while hi > lo && white_space(cs[hi - 1])
        invariant
            lo <= hi <= cs.len(),
            trim_end(cs@.skip(lo as int)) == trim_end(cs@.subrange(lo as int, hi as int)),
        decreases hi - lo,
    {
        assert(cs@.subrange(lo as int, hi as int).drop_last() =~= cs@.subrange(
            lo as int,
            hi - 1,
        ));
        hi = hi - 1;
    }
    text_of_range(&cs, lo, hi)
}

/// The lowercase form of a text, as `str::to_lowercase` computes it.
pub uninterp spec fn lowercase(s: Seq<char>) -> Seq<char>;

/// `str::to_lowercase`: the result is the text's lowercase form, a function of
/// the text alone (Unicode's case mapping tables of the standard library).
#[verifier::external_body]
pub(crate) fn to_lowercase(s: &str) -> (r: String)
    ensures
        r@ == lowercase(s@),
{
    s.to_lowercase()
}

/// `needle` stands in `hay` at position `i`.
pub open spec fn occurs_at(hay: Seq<char>, needle: Seq<char>, i: int) -> bool {
    0 <= i && i + needle.len() <= hay.len() && hay.subrange(i, i + needle.len()) == needle
}

/// `needle` stands somewhere in `hay` (`str::contains` with a `&str` pattern).
pub open spec fn has_infix(hay: Seq<char>, needle: Seq<char>) -> bool {
    exists|i: int| #[trigger] occurs_at(hay, needle, i)
}

fn matches_at(hay: &Vec<char>, needle: &Vec<char>, i: usize) -> (b: bool)
    requires
        i + needle.len() <= hay.len(),
    ensures
        b == occurs_at(hay@, needle@, i as int),
{
    let mut j: usize = 0;
    while j < needle.len()
        invariant
            i + needle.len() <= hay.len(),
            j <= needle.len(),
            forall|k: int| 0 <= k < j ==> hay@[i + k] == needle@[k],
        decreases needle.len() - j,
    {
        if hay[i + j] != needle[j] {
            assert(hay@.subrange(i as int, i + needle.len())[j as int] != needle@[j as int]);
            return false;
        }
        j = j + 1;
    }
    assert(hay@.subrange(i as int, i + needle.len()) =~= needle@);
    true
}

/// Whether `needle` occurs in `hay`.
pub fn contains_text(hay: &Vec<char>, needle: &Vec<char>) -> (b: bool)
    ensures
        b == has_infix(hay@, needle@),
{
    if needle.len() > hay.len() {
        return false;
    }
    if needle.len() == 0 {
        assert(hay@.subrange(0, 0) =~= needle@);
        assert(occurs_at(hay@, needle@, 0));
        return true;
    }
    let end = hay.len() - needle.len() + 1;
    let mut i: usize = 0;
    while i < end
        invariant
            end + needle.len() == hay.len() + 1,
            i <= end,
            forall|k: int| 0 <= k < i ==> !occurs_at(hay@, needle@, k),
        decreases end - i,
    {
        if matches_at(hay, needle, i) {
            return true;
        }
        i = i + 1;
    }
    false
}

/// The parts, with `sep` between each two of them.
pub open spec fn join(parts: Seq<Seq<char>>, sep: Seq<char>) -> Seq<char>
    decreases parts.len(),
{
    if parts.len() == 0 {
        seq![]
    } else if parts.len() == 1 {
        parts[0]
    } else {
        join(parts.drop_last(), sep) + sep + parts.last()
    }
}

/// The views of a sequence of strings.
pub open spec fn views(v: Seq<String>) -> Seq<Seq<char>> {
    v.map_values(|s: String| s@)
}

/// `parts.join(sep)`.
pub fn join_texts(parts: &Vec<String>, sep: &str) -> (r: String)
    ensures
        r@ == join(views(parts@), sep@),
{
    let mut r = String::new();
    let mut i: usize = 0;
    while i < parts.len()
        invariant
            i <= parts.len(),
            r@ == join(views(parts@).take(i as int), sep@),
        decreases parts.len() - i,
    {
        assert(views(parts@).take(i + 1).drop_last() =~= views(parts@).take(i as int));
        if i != 0 {
            r.append(sep);
        }
        r.append(parts[i].as_str());
        i = i + 1;
    }
    assert(views(parts@).take(i as int) =~= views(parts@));
    r
}

/// Number of bytes of the UTF-8 encoding of a text (what `str::len` returns).
pub open spec fn byte_len(s: Seq<char>) -> nat {
    encode_utf8(s).len()
}

/// Number of bytes of the UTF-8 encoding of one character.
pub open spec fn char_width(c: char) -> nat {
    encode_scalar(c as u32).len()
}

/// The longest prefix of `s` whose UTF-8 encoding fits in `budget` bytes.
pub open spec fn longest_fitting_prefix(s: Seq<char>, budget: int) -> Seq<char>
    decreases s.len(),
{
    if s.len() == 0 || char_width(s[0]) > budget {
        seq![]
    } else {
        seq![s[0]] + longest_fitting_prefix(s.drop_first(), budget - char_width(s[0]))
    }
}

pub proof fn lemma_byte_len_concat(a: Seq<char>, b: Seq<char>)
    ensures
        byte_len(a + b) == byte_len(a) + byte_len(b),
    decreases a.len(),
{
    if a.len() > 0 {
        assert((a + b)[0] == a[0]);
        assert((a + b).drop_first() =~= a.drop_first() + b);
        lemma_byte_len_concat(a.drop_first(), b);
    } else {
        assert(a + b =~= b);
    }
}

pub proof fn lemma_byte_len_single(c: char)
    ensures
        byte_len(seq![c]) == char_width(c),
{
    assert(seq![c].drop_first() =~= Seq::<char>::empty());
    assert(encode_utf8(Seq::<char>::empty()) =~= Seq::<u8>::empty());
    assert(encode_utf8(seq![c]) =~= encode_scalar(c as u32) + encode_utf8(Seq::<char>::empty()));
}

/// `char::len_utf8`.
pub fn utf8_width(c: char) -> (w: usize)
    ensures
        w == char_width(c),
        1 <= w <= 4,
{
    proof {
        vstd::utf8::char_is_scalar(c);
    }
    if (c as u32) < 0x80 {
        1
    } else if (c as u32) < 0x800 {
        2
    } else if (c as u32) < 0x10000 {
        3
    } else {
        4
    }
}

/// Whether the UTF-8 form of `s` is longer than `limit` bytes.
pub fn byte_len_exceeds(s: &Vec<char>, limit: usize) -> (b: bool)
    requires
        limit < 0x1000_0000,
    ensures
        b == (byte_len(s@) > limit),
{
    let mut total: usize = 0;
    let mut i: usize = 0;
    assert(s@.take(0) =~= Seq::<char>::empty());
    while i < s.len()
        invariant
            i <= s.len(),
            limit < 0x1000_0000,
            total <= limit,
            total == byte_len(s@.take(i as int)),
        decreases s.len() - i,
    {
        let w = utf8_width(s[i]);
        proof {
            assert(s@.take(i + 1) =~= s@.take(i as int) + seq![s@[i as int]]);
            lemma_byte_len_concat(s@.take(i as int), seq![s@[i as int]]);
            lemma_byte_len_single(s@[i as int]);
        }
        total = total + w;
        i = i + 1;
        if total > limit {
            proof {
                assert(s@ =~= s@.take(i as int) + s@.skip(i as int));
                lemma_byte_len_concat(s@.take(i as int), s@.skip(i as int));
            }
            return true;
        }
    }
    assert(s@.take(i as int) =~= s@);
    false
}

/// How many characters of `s` make up its longest prefix of at most
/// `budget` bytes.
pub fn fitting_prefix_len(s: &Vec<char>, budget: usize) -> (n: usize)
    ensures
        n <= s.len(),
        s@.take(n as int) == longest_fitting_prefix(s@, budget as int),
{
    let mut i: usize = 0;
    let mut left: usize = budget;
    assert(s@.take(0) + longest_fitting_prefix(s@.skip(0), budget as int) =~= longest_fitting_prefix(
        s@,
        budget as int,
    )) by {
        assert(s@.skip(0) =~= s@);
    }
    while i < s.len()
        invariant
            i <= s.len(),
            left <= budget,
            longest_fitting_prefix(s@, budget as int) == s@.take(i as int)
                + longest_fitting_prefix(s@.skip(i as int), left as int),
        decreases s.len() - i,
    {
        let w = utf8_width(s[i]);
        if w > left {
            assert(s@.skip(i as int)[0] == s@[i as int]);
            assert(longest_fitting_prefix(s@.skip(i as int), left as int) =~= seq![]);
            assert(s@.take(i as int) + seq![] =~= s@.take(i as int));
            return i;
        }
        assert(s@.skip(i as int)[0] == s@[i as int]);
        assert(s@.skip(i as int).drop_first() =~= s@.skip(i + 1));
        assert(s@.take(i + 1) =~= s@.take(i as int) + seq![s@[i as int]]);
        left = left - w;
        i = i + 1;
    }
    assert(s@.skip(i as int) =~= seq![]);
    assert(s@.take(i as int) + seq![] =~= s@.take(i as int));
    i
}

} // verus!
