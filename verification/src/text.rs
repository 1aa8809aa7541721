//! Text utilities shared by the whole library: character classes, splitting,
//! joining, trimming, decimal formatting and integer parsing, each with a
//! specification over `Seq<char>`.

use vstd::prelude::*;

verus! {

pub assume_specification [std::string::String::push] (s: &mut String, c: char)
    ensures
        final(s)@ == old(s)@.push(c),
;

// =============================================================================
// Character classes
// =============================================================================

/// Unicode `White_Space`, as `char::is_whitespace` defines it.
pub open spec fn is_ws(c: char) -> bool {
    ||| c == '\t' || c == '\n' || c == '\u{0B}' || c == '\u{0C}' || c == '\r' || c == ' '
    ||| c == '\u{85}' || c == '\u{A0}' || c == '\u{1680}'
    ||| ('\u{2000}' <= c && c <= '\u{200A}')
    ||| c == '\u{2028}' || c == '\u{2029}' || c == '\u{202F}' || c == '\u{205F}' || c == '\u{3000}'
}

pub fn char_is_whitespace(c: char) -> (r: bool)
    ensures
        r == is_ws(c),
{
    c == '\t' || c == '\n' || c == '\u{0B}' || c == '\u{0C}' || c == '\r' || c == ' ' || c
        == '\u{85}' || c == '\u{A0}' || c == '\u{1680}' || ('\u{2000}' <= c && c <= '\u{200A}')
        || c == '\u{2028}' || c == '\u{2029}' || c == '\u{202F}' || c == '\u{205F}' || c
        == '\u{3000}'
}

pub open spec fn is_ascii_digit(c: char) -> bool {
    '0' <= c && c <= '9'
}

pub open spec fn is_ascii_alnum(c: char) -> bool {
    ||| ('a' <= c && c <= 'z')
    ||| ('A' <= c && c <= 'Z')
    ||| is_ascii_digit(c)
}

/// What `char::is_alphanumeric` answers for a character (Unicode Alphabetic or Numeric).
pub uninterp spec fn unicode_alphanumeric(c: char) -> bool;

/// Calls `char::is_alphanumeric`. The contract names the answer and states what the
/// documentation gives for ASCII: exactly the ASCII letters and digits are
/// alphanumeric. The answer for other characters is left to the Unicode tables.
#[verifier::external_body]
pub fn char_is_alphanumeric(c: char) -> (r: bool)
    ensures
        r == unicode_alphanumeric(c),
        (c as u32) < 128 ==> (r <==> is_ascii_alnum(c)),
{
    c.is_alphanumeric()
}

/// What `str::to_uppercase` returns for a string (Unicode case mapping).
pub uninterp spec fn unicode_upper(s: Seq<char>) -> Seq<char>;

/// What `str::to_lowercase` returns for a string (Unicode case mapping).
pub uninterp spec fn unicode_lower(s: Seq<char>) -> Seq<char>;

/// Whether every character is ASCII.
pub open spec fn all_ascii(s: Seq<char>) -> bool {
    forall|i: int| 0 <= i < s.len() ==> (#[trigger] s[i] as u32) < 128
}

/// The upper case of an ASCII character: `a`..`z` become `A`..`Z`, the rest stay.
pub open spec fn ascii_upper(c: char) -> char {
    if 'a' <= c && c <= 'z' {
        ((c as u32) - 32) as char
    } else {
        c
    }
}

/// The upper case of a string: character by character for ASCII text, else
/// by the Unicode case tables.
pub open spec fn upper_of(s: Seq<char>) -> Seq<char> {
    if all_ascii(s) {
        s.map_values(|c: char| ascii_upper(c))
    } else {
        unicode_upper(s)
    }
}

/// The lower case of a string: character by character for ASCII text, else
/// by the Unicode case tables.
pub open spec fn lower_of(s: Seq<char>) -> Seq<char> {
    if all_ascii(s) {
        s.map_values(|c: char| ascii_lower(c))
    } else {
        unicode_lower(s)
    }
}

/// Calls `str::to_uppercase`. The result is named, since it follows the Unicode
/// case tables; for ASCII text the documentation gives it: each of `a`..`z`
/// becomes its capital and every other character stays.
#[verifier::external_body]
pub fn to_upper(s: &str) -> (r: String)
    ensures
        r@ == unicode_upper(s@),
        all_ascii(s@) ==> r@ == s@.map_values(|c: char| ascii_upper(c)),
        r@ == upper_of(s@),
{
    s.to_uppercase()
}

/// Calls `str::to_lowercase`. The result is named, since it follows the Unicode
/// case tables; for ASCII text the documentation gives it: each of `A`..`Z`
/// becomes its small letter and every other character stays.
#[verifier::external_body]
pub fn to_lower(s: &str) -> (r: String)
    ensures
        r@ == unicode_lower(s@),
        all_ascii(s@) ==> r@ == s@.map_values(|c: char| ascii_lower(c)),
        r@ == lower_of(s@),
{
    s.to_lowercase()
}

// =============================================================================
// UTF-8 width
// =============================================================================

/// Number of bytes of the UTF-8 encoding of one character.
pub open spec fn char_width(c: char) -> nat {
    if (c as u32) < 0x80 {
        1
    } else if (c as u32) < 0x800 {
        2
    } else if (c as u32) < 0x10000 {
        3
    } else {
        4
    }
}

/// Number of bytes of the UTF-8 encoding of a string: what `str::len` returns.
pub open spec fn blen(s: Seq<char>) -> nat
    decreases s.len(),
{
    if s.len() == 0 {
        0
    } else {
        blen(s.drop_last()) + char_width(s.last())
    }
}

pub proof fn lemma_blen_add(a: Seq<char>, b: Seq<char>)
    ensures
        blen(a + b) == blen(a) + blen(b),
    decreases b.len(),
{
    if b.len() == 0 {
        assert(a + b =~= a);
    } else {
        assert((a + b).drop_last() =~= a + b.drop_last());
        lemma_blen_add(a, b.drop_last());
    }
}

pub proof fn lemma_blen_push(a: Seq<char>, c: char)
    ensures
        blen(a.push(c)) == blen(a) + char_width(c),
{
    assert(a.push(c).drop_last() =~= a);
}

pub proof fn lemma_blen_ge_len(a: Seq<char>)
    ensures
        blen(a) >= a.len(),
    decreases a.len(),
{
    if a.len() > 0 {
        lemma_blen_ge_len(a.drop_last());
    }
}

pub fn char_len_utf8(c: char) -> (r: usize)
    ensures
        r == char_width(c),
{
    let u = c as u32;
    if u < 0x80 {
        1
    } else if u < 0x800 {
        2
    } else if u < 0x10000 {
        3
    } else {
        4
    }
}

/// `str::len`: the length of the text in bytes, that is of its UTF-8 encoding.
#[verifier::external_body]
pub fn utf8_len(s: &str) -> (r: usize)
    ensures
        r == blen(s@),
{
    s.len()
}

/// Byte length of the UTF-8 encoding, computed from the characters.
pub fn byte_len(s: &str) -> (r: usize)
    requires
        blen(s@) <= usize::MAX,
    ensures
        r == blen(s@),
{
    let n = s.unicode_len();
    let mut i: usize = 0;
    let mut acc: usize = 0;
    while i < n
        invariant
            n == s@.len(),
            i <= n,
            acc == blen(s@.subrange(0, i as int)),
            blen(s@) <= usize::MAX,
        decreases n - i,
    {
        let c = s.get_char(i);
        proof {
            assert(s@.subrange(0, i + 1) =~= s@.subrange(0, i as int).push(c));
            lemma_blen_push(s@.subrange(0, i as int), c);
            assert(s@ =~= s@.subrange(0, i + 1) + s@.subrange(i + 1, n as int));
            lemma_blen_add(s@.subrange(0, i + 1), s@.subrange(i + 1, n as int));
        }
        acc = acc + char_len_utf8(c);
        i = i + 1;
    }
    proof {
        assert(s@.subrange(0, n as int) =~= s@);
    }
    acc
}

// =============================================================================
// Building strings
// =============================================================================

pub fn to_chars(s: &str) -> (v: Vec<char>)
    ensures
        v@ == s@,
{
    let n = s.unicode_len();
    let mut v: Vec<char> = Vec::new();
    let mut i: usize = 0;
    while i < n
        invariant
            n == s@.len(),
            i <= n,
            v@ =~= s@.subrange(0, i as int),
        decreases n - i,
    {
        v.push(s.get_char(i));
        i = i + 1;
    }
    v
}

pub fn chars_to_string(v: &[char]) -> (s: String)
    ensures
        s@ == v@,
{
    let mut s = String::new();
    let mut i: usize = 0;
    while i < v.len()
        invariant
            i <= v@.len(),
            s@ =~= v@.subrange(0, i as int),
        decreases v@.len() - i,
    {
        s.push(v[i]);
        i = i + 1;
    }
    s
}

pub fn push_str(s: &mut String, t: &str)
    ensures
        final(s)@ == old(s)@ + t@,
{
    s.append(t);
}

pub fn str_of(s: &str) -> (r: String)
    ensures
        r@ == s@,
{
    String::from_str(s)
}

pub fn cat2(a: &str, b: &str) -> (r: String)
    ensures
        r@ == a@ + b@,
{
    let mut r = String::from_str(a);
    r.append(b);
    r
}

pub fn cat3(a: &str, b: &str, c: &str) -> (r: String)
    ensures
        r@ == a@ + b@ + c@,
{
    let mut r = String::from_str(a);
    r.append(b);
    r.append(c);
    r
}

pub fn cat4(a: &str, b: &str, c: &str, d: &str) -> (r: String)
    ensures
        r@ == a@ + b@ + c@ + d@,
{
    let mut r = String::from_str(a);
    r.append(b);
    r.append(c);
    r.append(d);
    r
}

pub fn cat5(a: &str, b: &str, c: &str, d: &str, e: &str) -> (r: String)
    ensures
        r@ == a@ + b@ + c@ + d@ + e@,
{
    let mut r = String::from_str(a);
    r.append(b);
    r.append(c);
    r.append(d);
    r.append(e);
    r
}

pub open spec fn repeat_seq(c: char, n: nat) -> Seq<char> {
    Seq::new(n, |i: int| c)
}

pub fn repeat_char(c: char, n: usize) -> (r: String)
    ensures
        r@ == repeat_seq(c, n as nat),
{
    let mut r = String::new();
    let mut i: usize = 0;
    while i < n
        invariant
            i <= n,
            r@ =~= repeat_seq(c, i as nat),
        decreases n - i,
    {
        r.push(c);
        i = i + 1;
    }
    r
}

/// `parts` joined with `sep` between consecutive parts.
pub open spec fn join_seq(parts: Seq<Seq<char>>, sep: Seq<char>) -> Seq<char>
    decreases parts.len(),
{
    if parts.len() == 0 {
        seq![]
    } else if parts.len() == 1 {
        parts[0]
    } else {
        join_seq(parts.drop_last(), sep) + sep + parts.last()
    }
}

pub fn join(parts: &Vec<String>, sep: &str) -> (r: String)
    ensures
        r@ == join_seq(parts.deep_view(), sep@),
{
    let mut r = String::new();
    let mut i: usize = 0;
    let ghost dv = parts.deep_view();
    while i < parts.len()
        invariant
            i <= parts@.len(),
            dv == parts.deep_view(),
            dv.len() == parts@.len(),
            r@ =~= join_seq(dv.subrange(0, i as int), sep@),
        decreases parts@.len() - i,
    {
        proof {
            assert(dv.subrange(0, i + 1).drop_last() =~= dv.subrange(0, i as int));
            assert(dv[i as int] == parts@[i as int]@);
        }
        if i > 0 {
            r.append(sep);
        }
        r.append(parts[i].as_str());
        i = i + 1;
    }
    proof {
        assert(dv.subrange(0, parts@.len() as int) =~= dv);
    }
    r
}

// =============================================================================
// Comparing and searching
// =============================================================================

pub fn str_eq(a: &str, b: &str) -> (r: bool)
    ensures
        r == (a@ == b@),
{
    let n = a.unicode_len();
    let m = b.unicode_len();
    if n != m {
        return false;
    }
    let mut i: usize = 0;
    while i < n
        invariant
            n == a@.len(),
            m == b@.len(),
            n == m,
            i <= n,
            a@.subrange(0, i as int) =~= b@.subrange(0, i as int),
        decreases n - i,
    {
        if a.get_char(i) != b.get_char(i) {
            assert(a@[i as int] != b@[i as int]);
            return false;
        }
        i = i + 1;
    }
    assert(a@ =~= a@.subrange(0, n as int));
    assert(b@ =~= b@.subrange(0, n as int));
    true
}

/// Whether one of the strings equals `s`.
pub fn vec_has(v: &Vec<String>, s: &str) -> (r: bool)
    ensures
        r == v.deep_view().contains(s@),
{
    let mut i: usize = 0;
    while i < v.len()
        invariant
            i <= v@.len(),
            forall|k: int| 0 <= k < i ==> v@[k]@ != s@,
        decreases v@.len() - i,
    {
        if str_eq(v[i].as_str(), s) {
            assert(v.deep_view()[i as int] == s@);
            return true;
        }
        i = i + 1;
    }
    proof {
        if v.deep_view().contains(s@) {
            let k = choose|k: int| 0 <= k < v.deep_view().len() && v.deep_view()[k] == s@;
            assert(v@[k]@ == s@);
        }
    }
    false
}

pub open spec fn seq_starts_with(s: Seq<char>, p: Seq<char>) -> bool {
    p.len() <= s.len() && s.subrange(0, p.len() as int) == p
}

pub open spec fn seq_ends_with(s: Seq<char>, p: Seq<char>) -> bool {
    p.len() <= s.len() && s.subrange(s.len() - p.len(), s.len() as int) == p
}

pub open spec fn seq_has_at(s: Seq<char>, p: Seq<char>, i: int) -> bool {
    0 <= i && i + p.len() <= s.len() && s.subrange(i, i + p.len()) == p
}

pub open spec fn seq_contains_seq(s: Seq<char>, p: Seq<char>) -> bool {
    exists|i: int| seq_has_at(s, p, i)
}

pub fn has_at(s: &Vec<char>, p: &Vec<char>, i: usize) -> (r: bool)
    ensures
        r == seq_has_at(s@, p@, i as int),
{
    if i > s.len() || p.len() > s.len() - i {
        return false;
    }
    let mut k: usize = 0;
    while k < p.len()
        invariant
            i + p@.len() <= s@.len(),
            s@.len() == s.len(),
            k <= p@.len(),
            forall|j: int| 0 <= j < k ==> s@[i + j] == p@[j],
        decreases p@.len() - k,
    {
        if s[i + k] != p[k] {
            proof {
                if s@.subrange(i as int, i + p@.len()) == p@ {
                    assert(s@.subrange(i as int, i + p@.len())[k as int] == s@[i + k]);
                }
            }
            return false;
        }
        k = k + 1;
    }
    assert(s@.subrange(i as int, i + p@.len()) =~= p@);
    true
}

pub fn starts_with(s: &str, p: &str) -> (r: bool)
    ensures
        r == seq_starts_with(s@, p@),
{
    let sv = to_chars(s);
    let pv = to_chars(p);
    has_at(&sv, &pv, 0)
}

pub fn ends_with(s: &str, p: &str) -> (r: bool)
    ensures
        r == seq_ends_with(s@, p@),
{
    let sv = to_chars(s);
    let pv = to_chars(p);
    if pv.len() > sv.len() {
        return false;
    }
    has_at(&sv, &pv, sv.len() - pv.len())
}

pub fn contains_str(s: &str, p: &str) -> (r: bool)
    ensures
        r == seq_contains_seq(s@, p@),
{
    let sv = to_chars(s);
    let pv = to_chars(p);
    if pv.len() > sv.len() {
        assert forall|i: int| !seq_has_at(s@, p@, i) by {}
        return false;
    }
    let last = sv.len() - pv.len();
    let mut i: usize = 0;
    loop
        invariant
            sv@ == s@,
            pv@ == p@,
            last == sv@.len() - pv@.len(),
            i <= last,
            forall|j: int| 0 <= j < i ==> !seq_has_at(s@, p@, j),
        ensures
            forall|j: int| 0 <= j <= last ==> !seq_has_at(s@, p@, j),
        decreases last - i,
    {
        if has_at(&sv, &pv, i) {
            return true;
        }
        if i == last {
            break;
        }
        i = i + 1;
    }
    assert forall|j: int| !seq_has_at(s@, p@, j) by {
        if 0 <= j <= last {
        }
    }
    false
}

pub fn contains_char(s: &str, c: char) -> (r: bool)
    ensures
        r == s@.contains(c),
{
    let n = s.unicode_len();
    let mut i: usize = 0;
    while i < n
        invariant
            n == s@.len(),
            i <= n,
            forall|j: int| 0 <= j < i ==> s@[j] != c,
        decreases n - i,
    {
        if s.get_char(i) == c {
            return true;
        }
        i = i + 1;
    }
    false
}

// =============================================================================
// Replacing
// =============================================================================

/// Every `from` replaced by `to`.
pub open spec fn replace_char_seq(s: Seq<char>, from: char, to: char) -> Seq<char> {
    s.map_values(|c: char| if c == from { to } else { c })
}

pub fn replace_char(s: &str, from: char, to: char) -> (r: String)
    ensures
        r@ == replace_char_seq(s@, from, to),
{
    let n = s.unicode_len();
    let mut r = String::new();
    let mut i: usize = 0;
    while i < n
        invariant
            n == s@.len(),
            i <= n,
            r@ =~= replace_char_seq(s@.subrange(0, i as int), from, to),
        decreases n - i,
    {
        let c = s.get_char(i);
        if c == from {
            r.push(to);
        } else {
            r.push(c);
        }
        i = i + 1;
    }
    assert(s@.subrange(0, n as int) =~= s@);
    r
}

// =============================================================================
// Trimming
// =============================================================================

pub open spec fn trim_start_seq(s: Seq<char>) -> Seq<char>
    decreases s.len(),
{
    if s.len() > 0 && is_ws(s[0]) {
        trim_start_seq(s.drop_first())
    } else {
        s
    }
}

pub open spec fn trim_end_seq(s: Seq<char>) -> Seq<char>
    decreases s.len(),
{
    if s.len() > 0 && is_ws(s.last()) {
        trim_end_seq(s.drop_last())
    } else {
        s
    }
}

/// What `str::trim` returns: leading and trailing whitespace removed.
pub open spec fn trim_seq(s: Seq<char>) -> Seq<char> {
    trim_end_seq(trim_start_seq(s))
}

pub fn trim(s: &str) -> (r: String)
    ensures
        r@ == trim_seq(s@),
{
    let n = s.unicode_len();
    let mut i: usize = 0;
    assert(s@.subrange(0, n as int) =~= s@);
    while i < n && char_is_whitespace(s.get_char(i))
        invariant
            n == s@.len(),
            i <= n,
            trim_start_seq(s@) == trim_start_seq(s@.subrange(i as int, n as int)),
        decreases n - i,
    {
        assert(s@.subrange(i as int, n as int).drop_first() =~= s@.subrange(i + 1, n as int));
        i = i + 1;
    }
    let ghost mid = s@.subrange(i as int, n as int);
    assert(trim_start_seq(mid) == mid);
    let mut j: usize = n;
    assert(s@.subrange(i as int, j as int) =~= mid);
    while j > i && char_is_whitespace(s.get_char(j - 1))
        invariant
            n == s@.len(),
            i <= j <= n,
            mid == s@.subrange(i as int, n as int),
            trim_end_seq(mid) == trim_end_seq(s@.subrange(i as int, j as int)),
        decreases j - i,
    {
        assert(s@.subrange(i as int, j as int).drop_last() =~= s@.subrange(i as int, j - 1));
        j = j - 1;
    }
    let r = s.substring_char(i, j);
    String::from_str(r)
}

// =============================================================================
// Splitting
// =============================================================================

/// Words of `s` separated by whitespace, continuing with the word `cur` already begun.
pub open spec fn words_from(s: Seq<char>, cur: Seq<char>) -> Seq<Seq<char>>
    decreases s.len(),
{
    if s.len() == 0 {
        if cur.len() == 0 {
            seq![]
        } else {
            seq![cur]
        }
    } else if is_ws(s[0]) {
        if cur.len() == 0 {
            words_from(s.drop_first(), seq![])
        } else {
            seq![cur] + words_from(s.drop_first(), seq![])
        }
    } else {
        words_from(s.drop_first(), cur.push(s[0]))
    }
}

/// What `str::split_whitespace` yields.
pub open spec fn words(s: Seq<char>) -> Seq<Seq<char>> {
    words_from(s, seq![])
}

pub fn split_whitespace(s: &str) -> (r: Vec<String>)
    ensures
        r.deep_view() == words(s@),
{
    let n = s.unicode_len();
    let mut out: Vec<String> = Vec::new();
    let mut cur = String::new();
    let mut i: usize = 0;
    assert(s@.subrange(0, n as int) =~= s@);
    assert(out.deep_view() =~= Seq::<Seq<char>>::empty());
    while i < n
        invariant
            n == s@.len(),
            i <= n,
            out.deep_view() + words_from(s@.subrange(i as int, n as int), cur@) =~= words(s@),
        decreases n - i,
    {
        let c = s.get_char(i);
        let ghost rest = s@.subrange(i as int, n as int);
        assert(rest.drop_first() =~= s@.subrange(i + 1, n as int));
        assert(rest[0] == c);
        let ghost old_cur = cur@;
        let ghost od = out.deep_view();
        if char_is_whitespace(c) {
            if cur.unicode_len() > 0 {
                out.push(cur);
                assert(out.deep_view() =~= od.push(old_cur));
                cur = String::new();
                assert(words_from(rest, old_cur) == seq![old_cur] + words_from(rest.drop_first(), seq![]));
                assert(od + words_from(rest, old_cur) =~= out.deep_view() + words_from(rest.drop_first(), cur@));
            } else {
                assert(cur@ =~= seq![]);
            }
        } else {
            cur.push(c);
        }
        i = i + 1;
    }
    if cur.unicode_len() > 0 {
        let ghost od = out.deep_view();
        out.push(cur);
        assert(out.deep_view() =~= od.push(cur@));
    }
    assert(s@.subrange(0, n as int) =~= s@);
    assert(s@.subrange(n as int, n as int) =~= Seq::<char>::empty());
    out
}

/// Lines of `s` (split at `\n`, a `\r` before the `\n` removed), continuing a line begun.
pub open spec fn lines_from(s: Seq<char>, cur: Seq<char>) -> Seq<Seq<char>>
    decreases s.len(),
{
    if s.len() == 0 {
        if cur.len() == 0 {
            seq![]
        } else {
            seq![cur]
        }
    } else if s[0] == '\n' {
        seq![strip_cr(cur)] + lines_from(s.drop_first(), seq![])
    } else {
        lines_from(s.drop_first(), cur.push(s[0]))
    }
}

pub open spec fn strip_cr(line: Seq<char>) -> Seq<char> {
    if line.len() > 0 && line.last() == '\r' {
        line.drop_last()
    } else {
        line
    }
}

/// What `str::lines` yields.
pub open spec fn lines(s: Seq<char>) -> Seq<Seq<char>> {
    lines_from(s, seq![])
}

pub fn split_lines(s: &str) -> (r: Vec<String>)
    ensures
        r.deep_view() == lines(s@),
{
    let n = s.unicode_len();
    let mut out: Vec<String> = Vec::new();
    let mut cur: Vec<char> = Vec::new();
    let mut i: usize = 0;
    assert(s@.subrange(0, n as int) =~= s@);
    assert(out.deep_view() =~= Seq::<Seq<char>>::empty());
    assert(cur@ =~= seq![]);
    while i < n
        invariant
            n == s@.len(),
            i <= n,
            out.deep_view() + lines_from(s@.subrange(i as int, n as int), cur@) =~= lines(s@),
        decreases n - i,
    {
        let c = s.get_char(i);
        let ghost rest = s@.subrange(i as int, n as int);
        assert(rest.drop_first() =~= s@.subrange(i + 1, n as int));
        assert(rest[0] == c);
        let ghost od = out.deep_view();
        let ghost old_cur = cur@;
        if c == '\n' {
            let mut k = cur.len();
            if k > 0 && cur[k - 1] == '\r' {
                k = k - 1;
            }
            let line = chars_to_string(&cur.as_slice()[0..k]);
            assert(line@ =~= strip_cr(cur@));
            out.push(line);
            assert(out.deep_view() =~= od.push(strip_cr(cur@)));
            cur = Vec::new();
            assert(lines_from(rest, old_cur) == seq![strip_cr(old_cur)] + lines_from(rest.drop_first(), seq![]));
            assert(od + lines_from(rest, old_cur) =~= out.deep_view() + lines_from(rest.drop_first(), cur@));
        } else {
            cur.push(c);
        }
        i = i + 1;
    }
    if cur.len() > 0 {
        let ghost od = out.deep_view();
        let line = chars_to_string(cur.as_slice());
        out.push(line);
        assert(out.deep_view() =~= od.push(cur@));
    }
    assert(s@.subrange(0, n as int) =~= s@);
    assert(s@.subrange(n as int, n as int) =~= Seq::<char>::empty());
    out
}

proof fn lemma_blen_first(s: Seq<char>)
    requires
        s.len() > 0,
    ensures
        blen(s) == char_width(s[0]) + blen(s.drop_first()),
{
    assert(s =~= seq![s[0]] + s.drop_first());
    lemma_blen_add(seq![s[0]], s.drop_first());
    assert(seq![s[0]].drop_last() =~= Seq::<char>::empty());
    assert(blen(Seq::<char>::empty()) == 0);
    assert(blen(seq![s[0]]) == char_width(s[0]));
}

/// Each word of `words_from(s, cur)` is no longer, in bytes, than `cur` and `s` together.
pub proof fn lemma_words_from_blen(s: Seq<char>, cur: Seq<char>)
    ensures
        forall|k: int| 0 <= k < words_from(s, cur).len() ==> blen(#[trigger] words_from(s, cur)[k]) <= blen(cur) + blen(s),
    decreases s.len(),
{
    assert(blen(Seq::<char>::empty()) == 0);
    if s.len() > 0 {
        lemma_blen_first(s);
        if is_ws(s[0]) {
            lemma_words_from_blen(s.drop_first(), seq![]);
            let r = words_from(s.drop_first(), seq![]);
            if cur.len() > 0 {
                assert(words_from(s, cur) == seq![cur] + r);
                assert forall|k: int| 0 <= k < words_from(s, cur).len() implies blen(#[trigger] words_from(s, cur)[k]) <= blen(cur) + blen(s) by {
                    if k > 0 {
                        assert(words_from(s, cur)[k] == r[k - 1]);
                    }
                }
            } else {
                assert(words_from(s, cur) == r);
            }
        } else {
            lemma_words_from_blen(s.drop_first(), cur.push(s[0]));
            lemma_blen_push(cur, s[0]);
            assert(words_from(s, cur) == words_from(s.drop_first(), cur.push(s[0])));
        }
    } else {
        if cur.len() > 0 {
            assert(words_from(s, cur) == seq![cur]);
        }
    }
}

/// Each word of `s` is no longer, in bytes, than `s`.
pub proof fn lemma_words_blen(s: Seq<char>)
    ensures
        forall|k: int| 0 <= k < words(s).len() ==> blen(#[trigger] words(s)[k]) <= blen(s),
{
    lemma_words_from_blen(s, seq![]);
}

/// Each line of `lines_from(s, cur)` is no longer, in bytes, than `cur` and `s` together.
pub proof fn lemma_lines_from_blen(s: Seq<char>, cur: Seq<char>)
    ensures
        forall|k: int| 0 <= k < lines_from(s, cur).len() ==> blen(#[trigger] lines_from(s, cur)[k]) <= blen(cur) + blen(s),
    decreases s.len(),
{
    assert(blen(Seq::<char>::empty()) == 0);
    if s.len() > 0 {
        lemma_blen_first(s);
        if s[0] == '\n' {
            lemma_lines_from_blen(s.drop_first(), seq![]);
            let r = lines_from(s.drop_first(), seq![]);
            assert(lines_from(s, cur) == seq![strip_cr(cur)] + r);
            if cur.len() > 0 && cur.last() == '\r' {
                assert(blen(cur) == blen(cur.drop_last()) + char_width(cur.last()));
            }
            assert forall|k: int| 0 <= k < lines_from(s, cur).len() implies blen(#[trigger] lines_from(s, cur)[k]) <= blen(cur) + blen(s) by {
                if k > 0 {
                    assert(lines_from(s, cur)[k] == r[k - 1]);
                }
            }
        } else {
            lemma_lines_from_blen(s.drop_first(), cur.push(s[0]));
            lemma_blen_push(cur, s[0]);
            assert(lines_from(s, cur) == lines_from(s.drop_first(), cur.push(s[0])));
        }
    } else {
        if cur.len() > 0 {
            assert(lines_from(s, cur) == seq![cur]);
        }
    }
}

/// Each line of `s` is no longer, in bytes, than `s`.
pub proof fn lemma_lines_blen(s: Seq<char>)
    ensures
        forall|k: int| 0 <= k < lines(s).len() ==> blen(#[trigger] lines(s)[k]) <= blen(s),
{
    lemma_lines_from_blen(s, seq![]);
}

// =============================================================================
// Decimal formatting
// =============================================================================

pub open spec fn digit_char(d: nat) -> char {
    (48 + d) as char
}

/// Decimal digits of `n`, most significant first, without leading zeros.
pub open spec fn dec_digits(n: nat) -> Seq<char>
    decreases n,
{
    if n < 10 {
        seq![digit_char(n)]
    } else {
        dec_digits(n / 10).push(digit_char(n % 10))
    }
}

/// Decimal form of an integer, with `-` before a negative one (as `Display` writes it).
pub open spec fn int_to_dec(i: int) -> Seq<char> {
    if i < 0 {
        seq!['-'] + dec_digits((-i) as nat)
    } else {
        dec_digits(i as nat)
    }
}

fn digit_to_char(d: u8) -> (c: char)
    requires
        d < 10,
    ensures
        c == digit_char(d as nat),
{
    if d == 0 { '0' } else if d == 1 { '1' } else if d == 2 { '2' } else if d == 3 { '3' }
    else if d == 4 { '4' } else if d == 5 { '5' } else if d == 6 { '6' } else if d == 7 { '7' }
    else if d == 8 { '8' } else { '9' }
}

pub fn push_decimal(s: &mut String, n: u64)
    ensures
        final(s)@ == old(s)@ + dec_digits(n as nat),
    decreases n,
{
    if n >= 10 {
        push_decimal(s, n / 10);
    }
    let c = digit_to_char((n % 10) as u8);
    s.push(c);
}

pub fn push_decimal_wide(s: &mut String, n: u128)
    ensures
        final(s)@ == old(s)@ + dec_digits(n as nat),
    decreases n,
{
    if n >= 10 {
        push_decimal_wide(s, n / 10);
    }
    let c = digit_to_char((n % 10) as u8);
    s.push(c);
}

pub fn u64_to_string(n: u64) -> (r: String)
    ensures
        r@ == dec_digits(n as nat),
{
    let mut s = String::new();
    push_decimal(&mut s, n);
    s
}

pub fn usize_to_string(n: usize) -> (r: String)
    ensures
        r@ == dec_digits(n as nat),
{
    u64_to_string(n as u64)
}

pub fn i64_to_string(n: i64) -> (r: String)
    ensures
        r@ == int_to_dec(n as int),
{
    let mut s = String::new();
    if n < 0 {
        s.push('-');
        let m: u64 = (-(n as i128)) as u64;
        push_decimal(&mut s, m);
    } else {
        push_decimal(&mut s, n as u64);
    }
    s
}

// =============================================================================
// Integer parsing
// =============================================================================

pub open spec fn all_digits(s: Seq<char>) -> bool {
    forall|i: int| 0 <= i < s.len() ==> is_ascii_digit(#[trigger] s[i])
}

/// Value of a string of decimal digits.
pub open spec fn digits_value(s: Seq<char>) -> nat
    decreases s.len(),
{
    if s.len() == 0 {
        0
    } else {
        digits_value(s.drop_last()) * 10 + ((s.last() as u32) - 48) as nat
    }
}

/// What `str::parse::<i128>` would accept as an integer, with unbounded range:
/// an optional sign followed by at least one ASCII digit, nothing else.
pub open spec fn parse_int_seq(s: Seq<char>) -> Option<int> {
    if s.len() > 0 && (s[0] == '+' || s[0] == '-') {
        let body = s.drop_first();
        if body.len() > 0 && all_digits(body) {
            if s[0] == '-' {
                Some(-(digits_value(body) as int))
            } else {
                Some(digits_value(body) as int)
            }
        } else {
            None
        }
    } else if s.len() > 0 && all_digits(s) {
        Some(digits_value(s) as int)
    } else {
        None
    }
}

/// What `str::parse::<i64>` returns (`None` for every error).
pub open spec fn parse_i64_seq(s: Seq<char>) -> Option<i64> {
    match parse_int_seq(s) {
        Some(v) => if i64::MIN <= v <= i64::MAX {
            Some(v as i64)
        } else {
            None
        },
        None => None,
    }
}

/// What `str::parse::<usize>` returns (`None` for every error); a `-` sign is refused.
pub open spec fn parse_usize_seq(s: Seq<char>) -> Option<usize> {
    if s.len() > 0 && s[0] == '-' {
        None
    } else {
        match parse_int_seq(s) {
            Some(v) => if 0 <= v <= usize::MAX {
                Some(v as usize)
            } else {
                None
            },
            None => None,
        }
    }
}

proof fn lemma_digits_value_prefix_le(s: Seq<char>, k: int)
    requires
        0 <= k <= s.len(),
        all_digits(s),
    ensures
        digits_value(s.subrange(0, k)) <= digits_value(s),
    decreases s.len() - k,
{
    if k < s.len() {
        lemma_digits_value_prefix_le(s, k + 1);
        assert(s.subrange(0, k + 1).drop_last() =~= s.subrange(0, k));
        assert(is_ascii_digit(s[k]));
    }
    assert(s.subrange(0, s.len() as int) =~= s);
}

/// Parses the digits `s[from..]`; `None` when one is not a digit or the value
/// exceeds `limit`.
fn parse_digits(s: &Vec<char>, from: usize, limit: u128) -> (r: Option<u128>)
    requires
        from < s@.len(),
        limit >= 9,
    ensures
        ({
            let body = s@.subrange(from as int, s@.len() as int);
            match r {
                Some(v) => all_digits(body) && v == digits_value(body) && v <= limit,
                None => !all_digits(body) || digits_value(body) > limit,
            }
        }),
{
    let ghost body = s@.subrange(from as int, s@.len() as int);
    let mut acc: u128 = 0;
    let mut i: usize = from;
    while i < s.len()
        invariant
            from <= i <= s@.len(),
            body == s@.subrange(from as int, s@.len() as int),
            all_digits(s@.subrange(from as int, i as int)),
            acc == digits_value(s@.subrange(from as int, i as int)),
            acc <= limit,
            limit >= 9,
        decreases s@.len() - i,
    {
        let c = s[i];
        if !('0' <= c && c <= '9') {
            assert(body[i - from] == c);
            return None;
        }
        let d = (c as u32 - 48) as u128;
        assert(s@.subrange(from as int, i + 1).drop_last() =~= s@.subrange(from as int, i as int));
        if acc > (limit - d) / 10 {
            proof {
                assert(digits_value(s@.subrange(from as int, i + 1)) == acc * 10 + d);
                assert(acc * 10 + d > limit) by (nonlinear_arith)
                    requires acc > (limit - d) / 10, d <= limit || d > limit, d <= 9, acc >= 0;
                if all_digits(body) {
                    assert(body.subrange(0, i + 1 - from) =~= s@.subrange(from as int, i + 1));
                    lemma_digits_value_prefix_le(body, i + 1 - from);
                }
            }
            return None;
        }
        assert(acc * 10 + d <= limit) by (nonlinear_arith)
            requires acc <= (limit - d) / 10, d <= limit, acc >= 0;
        acc = acc * 10 + d;
        i = i + 1;
        assert(all_digits(s@.subrange(from as int, i as int))) by {
            assert forall|j: int| 0 <= j < i - from implies is_ascii_digit(#[trigger] s@.subrange(from as int, i as int)[j]) by {
                if j < i - 1 - from {
                    assert(s@.subrange(from as int, i as int)[j] == s@.subrange(from as int, i - 1)[j]);
                }
            }
        }
    }
    assert(s@.subrange(from as int, i as int) =~= body);
    Some(acc)
}

pub fn parse_i64(s: &str) -> (r: Option<i64>)
    ensures
        r == parse_i64_seq(s@),
{
    let v = to_chars(s);
    if v.len() == 0 {
        return None;
    }
    let neg = v[0] == '-';
    let signed = v[0] == '+' || v[0] == '-';
    let from: usize = if signed { 1 } else { 0 };
    if from >= v.len() {
        return None;
    }
    let limit: u128 = if neg { 9223372036854775808 } else { 9223372036854775807 };
    assert(v@.subrange(from as int, v@.len() as int) =~= if signed { s@.drop_first() } else { s@ });
    match parse_digits(&v, from, limit) {
        Some(m) => {
            if neg {
                Some((-(m as i128)) as i64)
            } else {
                Some(m as i64)
            }
        },
        None => None,
    }
}

pub fn parse_usize(s: &str) -> (r: Option<usize>)
    ensures
        r == parse_usize_seq(s@),
{
    let v = to_chars(s);
    if v.len() == 0 || v[0] == '-' {
        return None;
    }
    let from: usize = if v[0] == '+' { 1 } else { 0 };
    if from >= v.len() {
        return None;
    }
    assert(v@.subrange(from as int, v@.len() as int) =~= if v@[0] == '+' { s@.drop_first() } else { s@ });
    match parse_digits(&v, from, usize::MAX as u128) {
        Some(m) => Some(m as usize),
        None => None,
    }
}


// =============================================================================
// Ordering strings
// =============================================================================

/// Lexicographic order by characters, as `String`'s order compares.
pub open spec fn seq_lt(a: Seq<char>, b: Seq<char>) -> bool
    decreases a.len(),
{
    if a.len() == 0 {
        b.len() > 0
    } else if b.len() == 0 {
        false
    } else if a[0] != b[0] {
        (a[0] as int) < (b[0] as int)
    } else {
        seq_lt(a.drop_first(), b.drop_first())
    }
}

pub proof fn lemma_seq_lt_irrefl(a: Seq<char>)
    ensures
        !seq_lt(a, a),
    decreases a.len(),
{
    if a.len() > 0 {
        lemma_seq_lt_irrefl(a.drop_first());
    }
}

pub proof fn lemma_seq_lt_trans(a: Seq<char>, b: Seq<char>, c: Seq<char>)
    requires
        seq_lt(a, b),
        seq_lt(b, c),
    ensures
        seq_lt(a, c),
    decreases a.len(),
{
    if a.len() > 0 && b.len() > 0 && c.len() > 0 && a[0] == b[0] && b[0] == c[0] {
        lemma_seq_lt_trans(a.drop_first(), b.drop_first(), c.drop_first());
    }
}

pub proof fn lemma_seq_lt_total(a: Seq<char>, b: Seq<char>)
    ensures
        a == b || seq_lt(a, b) || seq_lt(b, a),
    decreases a.len(),
{
    if a.len() > 0 && b.len() > 0 && a[0] == b[0] {
        lemma_seq_lt_total(a.drop_first(), b.drop_first());
        if a.drop_first() == b.drop_first() {
            assert(a =~= seq![a[0]] + a.drop_first());
            assert(b =~= seq![b[0]] + b.drop_first());
        }
    } else if a.len() == 0 && b.len() == 0 {
        assert(a =~= b);
    } else if a.len() > 0 && b.len() > 0 {
    }
}

pub proof fn lemma_seq_lt_asym(a: Seq<char>, b: Seq<char>)
    requires
        seq_lt(a, b),
    ensures
        !seq_lt(b, a),
{
    if seq_lt(b, a) {
        lemma_seq_lt_trans(a, b, a);
        lemma_seq_lt_irrefl(a);
    }
}

/// `a` comes before `b`.
pub fn str_lt(a: &str, b: &str) -> (r: bool)
    ensures
        r == seq_lt(a@, b@),
{
    let n = a.unicode_len();
    let m = b.unicode_len();
    let mut i: usize = 0;
    assert(a@.skip(0) =~= a@ && b@.skip(0) =~= b@);
    while i < n && i < m && a.get_char(i) == b.get_char(i)
        invariant
            n == a@.len(),
            m == b@.len(),
            i <= n,
            i <= m,
            seq_lt(a@, b@) == seq_lt(a@.skip(i as int), b@.skip(i as int)),
        decreases n - i,
    {
        assert(a@.skip(i as int).drop_first() =~= a@.skip(i + 1));
        assert(b@.skip(i as int).drop_first() =~= b@.skip(i + 1));
        i = i + 1;
    }
    if i == n {
        i < m
    } else if i == m {
        false
    } else {
        (a.get_char(i) as u32) < (b.get_char(i) as u32)
    }
}

/// Strictly increasing.
pub open spec fn strictly_sorted(s: Seq<Seq<char>>) -> bool {
    forall|i: int, j: int| 0 <= i < j < s.len() ==> seq_lt(#[trigger] s[i], #[trigger] s[j])
}

/// Insert `x` into a strictly sorted list, unless it is there already.
pub fn insert_sorted(v: &mut Vec<String>, x: String)
    requires
        strictly_sorted(old(v).deep_view()),
    ensures
        strictly_sorted(final(v).deep_view()),
        final(v).deep_view().to_set() == old(v).deep_view().to_set().insert(x@),
{
    let ghost v0 = v.deep_view();
    let mut p: usize = 0;
    while p < v.len() && str_lt(v[p].as_str(), x.as_str())
        invariant
            p <= v@.len(),
            v.deep_view() == v0,
            forall|k: int| 0 <= k < p ==> seq_lt(#[trigger] v0[k], x@),
        decreases v@.len() - p,
    {
        p = p + 1;
    }
    if p < v.len() && str_eq(v[p].as_str(), x.as_str()) {
        assert(v0[p as int] == x@);
        assert(v0.to_set() =~= v0.to_set().insert(x@)) by {
            assert(v0.contains(x@));
        }
        return;
    }
    proof {
        if p < v0.len() {
            lemma_seq_lt_total(v0[p as int], x@);
        }
    }
    let ghost xv = x@;
    v.insert(p, x);
    let ghost v1 = v.deep_view();
    assert(v1 =~= v0.insert(p as int, xv));
    proof {
        assert forall|i: int, j: int| 0 <= i < j < v1.len() implies seq_lt(#[trigger] v1[i], #[trigger] v1[j]) by {
            if j < p {
                assert(v1[i] == v0[i] && v1[j] == v0[j]);
            } else if j == p {
                assert(v1[i] == v0[i]);
            } else if i == p {
                assert(v1[j] == v0[j - 1]);
                if j - 1 > p {
                    assert(seq_lt(v0[p as int], v0[j - 1]));
                    lemma_seq_lt_trans(xv, v0[p as int], v0[j - 1]);
                }
            } else if i < p {
                assert(v1[i] == v0[i] && v1[j] == v0[j - 1]);
                if i < j - 1 {
                } else {
                }
            } else {
                assert(v1[i] == v0[i - 1] && v1[j] == v0[j - 1]);
            }
        }
        assert forall|y: Seq<char>| v1.to_set().contains(y) <==> v0.to_set().insert(xv).contains(y) by {
            if v1.contains(y) {
                let k = choose|k: int| 0 <= k < v1.len() && v1[k] == y;
                if k < p {
                    assert(v0[k] == y);
                } else if k > p {
                    assert(v0[k - 1] == y);
                }
            }
            if v0.contains(y) {
                let k = choose|k: int| 0 <= k < v0.len() && v0[k] == y;
                if k < p {
                    assert(v1[k] == y);
                } else {
                    assert(v1[k + 1] == y);
                }
            }
            if y == xv {
                assert(v1[p as int] == y);
            }
        }
        assert(v1.to_set() =~= v0.to_set().insert(xv));
    }
}

// =============================================================================
// Replacing text
// =============================================================================

/// Every occurrence of `pat` (found left to right, without overlaps) replaced
/// by `to`.
pub open spec fn replaced(s: Seq<char>, pat: Seq<char>, to: Seq<char>) -> Seq<char>
    recommends
        pat.len() > 0,
    decreases s.len(),
{
    if pat.len() == 0 || s.len() < pat.len() {
        s
    } else if s.take(pat.len() as int) == pat {
        to + replaced(s.skip(pat.len() as int), pat, to)
    } else {
        seq![s[0]] + replaced(s.drop_first(), pat, to)
    }
}

/// `str::replace` for a non-empty pattern.
pub fn replace_all(s: &str, pat: &str, to: &str) -> (r: String)
    requires
        pat@.len() > 0,
    ensures
        r@ == replaced(s@, pat@, to@),
{
    let sv = to_chars(s);
    let pv = to_chars(pat);
    let n = sv.len();
    let mut out = String::new();
    let mut i: usize = 0;
    assert(s@.skip(0) =~= s@);
    while i < n
        invariant
            sv@ == s@,
            pv@ == pat@,
            pat@.len() > 0,
            n == s@.len(),
            i <= n,
            replaced(s@, pat@, to@) == out@ + replaced(s@.skip(i as int), pat@, to@),
        decreases n - i,
    {
        let ghost rest = s@.skip(i as int);
        if has_at(&sv, &pv, i) {
            proof {
                assert(rest.take(pat@.len() as int) =~= s@.subrange(i as int, i + pat@.len()));
                assert(rest.skip(pat@.len() as int) =~= s@.skip(i + pat@.len()));
            }
            let ghost o = out@;
            push_str(&mut out, to);
            assert(out@ + replaced(s@.skip(i + pv@.len()), pat@, to@) =~= o + (to@ + replaced(rest.skip(pat@.len() as int), pat@, to@)));
            i = i + pv.len();
        } else {
            proof {
                if rest.len() >= pat@.len() {
                    assert(rest.take(pat@.len() as int) =~= s@.subrange(i as int, i + pat@.len()));
                }
                assert(rest.drop_first() =~= s@.skip(i + 1));
            }
            let ghost o = out@;
            out.push(sv[i]);
            proof {
                if rest.len() < pat@.len() {
                    lemma_replaced_short(rest, pat@, to@);
                    lemma_replaced_short(rest.drop_first(), pat@, to@);
                }
            }
            assert(out@ + replaced(s@.skip(i + 1), pat@, to@) =~= o + (seq![rest[0]] + replaced(rest.drop_first(), pat@, to@)));
            i = i + 1;
        }
    }
    assert(s@.skip(n as int) =~= Seq::<char>::empty());
    assert(out@ + Seq::<char>::empty() =~= out@);
    out
}

proof fn lemma_replaced_short(s: Seq<char>, pat: Seq<char>, to: Seq<char>)
    requires
        s.len() < pat.len(),
    ensures
        replaced(s, pat, to) == s,
{
}


// =============================================================================
// Floating-point literals
// =============================================================================

/// `c` in ASCII lower case.
pub open spec fn ascii_lower(c: char) -> char {
    if 'A' <= c <= 'Z' {
        ((c as u32) + 32) as char
    } else {
        c
    }
}

/// Whether `s` spells `word` (given in lower case), ASCII case ignored.
pub open spec fn ascii_ieq(s: Seq<char>, word: Seq<char>) -> bool {
    s.len() == word.len() && forall|i: int| 0 <= i < s.len() ==> ascii_lower(#[trigger] s[i]) == word[i]
}

/// Digits with at most one `.` among them, and at least one digit.
pub open spec fn mantissa_ok(m: Seq<char>) -> bool {
    &&& forall|i: int| 0 <= i < m.len() ==> is_ascii_digit(#[trigger] m[i]) || m[i] == '.'
    &&& forall|i: int, j: int| 0 <= i < m.len() && 0 <= j < m.len() && m[i] == '.' && m[j] == '.' ==> i == j
    &&& exists|i: int| 0 <= i < m.len() && is_ascii_digit(#[trigger] m[i])
}

/// An exponent after the `e`: an optional sign, then at least one digit.
pub open spec fn exponent_ok(e: Seq<char>) -> bool {
    let b = if e.len() > 0 && (e[0] == '+' || e[0] == '-') {
        e.drop_first()
    } else {
        e
    };
    b.len() > 0 && all_digits(b)
}

pub open spec fn is_exp_mark(c: char) -> bool {
    c == 'e' || c == 'E'
}

/// A decimal number: a mantissa, then optionally `e` or `E` and an exponent.
pub open spec fn decimal_ok(s: Seq<char>) -> bool {
    ||| mantissa_ok(s)
    ||| exists|k: int|
        0 <= k < s.len() && is_exp_mark(#[trigger] s[k]) && mantissa_ok(s.take(k)) && exponent_ok(
            s.skip(k + 1),
        )
}

/// Whether `str::parse::<f64>` accepts `s`: an optional sign, then `inf`,
/// `infinity` or `nan` in any case, or a decimal number.
pub open spec fn float_literal(s: Seq<char>) -> bool {
    let b = if s.len() > 0 && (s[0] == '+' || s[0] == '-') {
        s.drop_first()
    } else {
        s
    };
    ascii_ieq(b, "inf"@) || ascii_ieq(b, "infinity"@) || ascii_ieq(b, "nan"@) || decimal_ok(b)
}

fn ieq_word(v: &Vec<char>, start: usize, word: &str) -> (r: bool)
    requires
        start <= v@.len(),
    ensures
        r == ascii_ieq(v@.skip(start as int), word@),
{
    let w = to_chars(word);
    let vl = v.len();
    if vl - start != w.len() {
        return false;
    }
    let mut i: usize = 0;
    while i < w.len()
        invariant
            i <= w@.len(),
            start <= v@.len(),
            vl == v@.len(),
            v@.len() - start == w@.len(),
            w@ == word@,
            forall|k: int| 0 <= k < i ==> ascii_lower(#[trigger] v@.skip(start as int)[k]) == w@[k],
        decreases w@.len() - i,
    {
        assert(start + i < v@.len());
        let c = v[start + i];
        let l = if 'A' <= c && c <= 'Z' {
            char_add_32(c)
        } else {
            c
        };
        if l != w[i] {
            assert(v@.skip(start as int)[i as int] == c);
            return false;
        }
        i = i + 1;
    }
    true
}

fn char_add_32(c: char) -> (r: char)
    requires
        'A' <= c <= 'Z',
    ensures
        r == ((c as u32) + 32) as char,
{
    let n: u32 = c as u32;
    let m: u8 = (n + 32) as u8;
    m as char
}

/// Whether `v[start..end]` is a mantissa.
fn mantissa_at(v: &Vec<char>, start: usize, end: usize) -> (r: bool)
    requires
        start <= end <= v@.len(),
    ensures
        r == mantissa_ok(v@.subrange(start as int, end as int)),
{
    let ghost m = v@.subrange(start as int, end as int);
    let mut i: usize = start;
    let mut dot: Option<usize> = None;
    let mut digit = false;
    while i < end
        invariant
            start <= i <= end <= v@.len(),
            m == v@.subrange(start as int, end as int),
            forall|k: int| 0 <= k < i - start ==> is_ascii_digit(#[trigger] m[k]) || m[k] == '.',
            match dot {
                Some(d) => start <= d < i && m[d - start] == '.' && forall|k: int|
                    0 <= k < i - start && m[k] == '.' ==> k == d - start,
                None => forall|k: int| 0 <= k < i - start ==> m[k] != '.',
            },
            digit <==> exists|k: int| 0 <= k < i - start && is_ascii_digit(#[trigger] m[k]),
        decreases end - i,
    {
        let c = v[i];
        assert(m[i - start] == c);
        if '0' <= c && c <= '9' {
            digit = true;
        } else if c == '.' {
            match dot {
                Some(d) => {
                    assert(m[d - start] == '.' && m[i - start] == '.');
                    return false;
                },
                None => {
                    dot = Some(i);
                },
            }
        } else {
            assert(!(is_ascii_digit(m[i - start]) || m[i - start] == '.'));
            return false;
        }
        i = i + 1;
    }
    digit
}

/// Whether `v[start..]` is an exponent.
fn exponent_at(v: &Vec<char>, start: usize) -> (r: bool)
    requires
        start <= v@.len(),
    ensures
        r == exponent_ok(v@.skip(start as int)),
{
    let ghost e = v@.skip(start as int);
    let mut i = start;
    if i < v.len() && (v[i] == '+' || v[i] == '-') {
        i = i + 1;
    }
    assert(e.len() > 0 && (e[0] == '+' || e[0] == '-') ==> e.drop_first() =~= v@.skip(i as int));
    assert(!(e.len() > 0 && (e[0] == '+' || e[0] == '-')) ==> e =~= v@.skip(i as int));
    if i >= v.len() {
        return false;
    }
    let ghost b = v@.skip(i as int);
    let mut j = i;
    while j < v.len()
        invariant
            i <= j <= v@.len(),
            b == v@.skip(i as int),
            b.len() > 0,
            exponent_ok(v@.skip(start as int)) == all_digits(b),
            forall|k: int| 0 <= k < j - i ==> is_ascii_digit(#[trigger] b[k]),
        decreases v@.len() - j,
    {
        let c = v[j];
        assert(b[j - i] == c);
        if !('0' <= c && c <= '9') {
            return false;
        }
        j = j + 1;
    }
    true
}

/// Whether `v[start..]` is a decimal number.
fn decimal_at(v: &Vec<char>, start: usize) -> (r: bool)
    requires
        start <= v@.len(),
    ensures
        r == decimal_ok(v@.skip(start as int)),
{
    let ghost s = v@.skip(start as int);
    let mut k = start;
    while k < v.len() && v[k] != 'e' && v[k] != 'E'
        invariant
            start <= k <= v@.len(),
            s == v@.skip(start as int),
            forall|j: int| 0 <= j < k - start ==> !is_exp_mark(#[trigger] s[j]),
        decreases v@.len() - k,
    {
        assert(s[k - start] == v@[k as int]);
        k = k + 1;
    }
    if k == v.len() {
        assert(v@.subrange(start as int, v@.len() as int) =~= s);
        let r = mantissa_at(v, start, k);
        proof {
            if !r {
                assert forall|q: int| !(0 <= q < s.len() && is_exp_mark(#[trigger] s[q]) && mantissa_ok(
                    s.take(q),
                ) && exponent_ok(s.skip(q + 1))) by {}
            }
        }
        r
    } else {
        let ghost kk = k - start;
        assert(s[kk] == v@[k as int]);
        assert(v@.subrange(start as int, k as int) =~= s.take(kk));
        assert(v@.skip(k + 1) =~= s.skip(kk + 1));
        let a = mantissa_at(v, start, k);
        let b = exponent_at(v, k + 1);
        proof {
            if a && b {
                assert(is_exp_mark(s[kk]));
            } else {
                // no other split: the mantissa holds no `e`, so the mark is the first one
                assert(!mantissa_ok(s)) by {
                    assert(!is_ascii_digit(s[kk]) && s[kk] != '.');
                }
                assert forall|q: int| !(0 <= q < s.len() && is_exp_mark(#[trigger] s[q]) && mantissa_ok(
                    s.take(q),
                ) && exponent_ok(s.skip(q + 1))) by {
                    if 0 <= q < s.len() && is_exp_mark(s[q]) && mantissa_ok(s.take(q)) {
                        if q > kk {
                            assert(s.take(q)[kk] == s[kk]);
                        }
                        assert(q == kk);
                    }
                }
            }
        }
        a && b
    }
}

/// Whether `str::parse::<f64>` accepts `s`.
pub fn is_float_literal(s: &str) -> (r: bool)
    ensures
        r == float_literal(s@),
{
    let v = to_chars(s);
    let start: usize = if v.len() > 0 && (v[0] == '+' || v[0] == '-') {
        1
    } else {
        0
    };
    proof {
        reveal_strlit("inf");
        reveal_strlit("infinity");
        reveal_strlit("nan");
        if start == 1 {
            assert(s@.drop_first() =~= v@.skip(1));
        } else {
            assert(s@ =~= v@.skip(0));
        }
    }
    ieq_word(&v, start, "inf") || ieq_word(&v, start, "infinity") || ieq_word(&v, start, "nan") || decimal_at(
        &v,
        start,
    )
}

} // verus!
