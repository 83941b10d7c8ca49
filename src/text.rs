//! Character-level helpers shared by the parsers and the search engine.

use vstd::prelude::*;
use vstd::utf8::*;

verus! {

/// Relies on `String::push`: the character is appended at the end.
#[verifier::external_body]
pub(crate) fn push_char(s: &mut String, c: char)
    ensures
        final(s)@ == old(s)@.push(c),
{
    s.push(c);
}

/// Relies on `String::from_utf8`: it succeeds exactly on valid UTF-8 and
/// then holds those very bytes.
#[verifier::external_body]
pub(crate) fn string_from_utf8(v: Vec<u8>) -> (r: Option<String>)
    ensures
        r is Some <==> valid_utf8(v@),
        r matches Some(s) ==> encode_utf8(s@) == v@,
{
    String::from_utf8(v).ok()
}

/// Unicode's White_Space characters.
pub open spec fn is_ws(c: char) -> bool {
    ||| c == ' ' || c == '\t' || c == '\n' || c == '\u{0B}' || c == '\u{0C}' || c == '\r'
    ||| c == '\u{85}' || c == '\u{A0}' || c == '\u{1680}'
    ||| ('\u{2000}' <= c && c <= '\u{200A}')
    ||| c == '\u{2028}' || c == '\u{2029}' || c == '\u{202F}' || c == '\u{205F}' || c == '\u{3000}'
}

/// Whether `c` is Unicode white space.
pub fn is_whitespace(c: char) -> (r: bool)
    ensures
        r == is_ws(c),
{
    c == ' ' || c == '\t' || c == '\n' || c == '\u{0B}' || c == '\u{0C}' || c == '\r' || c
        == '\u{85}' || c == '\u{A0}' || c == '\u{1680}' || ('\u{2000}' <= c && c <= '\u{200A}')
        || c == '\u{2028}' || c == '\u{2029}' || c == '\u{202F}' || c == '\u{205F}' || c
        == '\u{3000}'
}

/// `s` without its leading white space.
pub open spec fn trim_start(s: Seq<char>) -> Seq<char>
    decreases s.len(),
{
    if s.len() > 0 && is_ws(s[0]) {
        trim_start(s.drop_first())
    } else {
        s
    }
}

/// `s` without its trailing white space.
pub open spec fn trim_end(s: Seq<char>) -> Seq<char>
    decreases s.len(),
{
    if s.len() > 0 && is_ws(s.last()) {
        trim_end(s.drop_last())
    } else {
        s
    }
}

/// `s` without leading or trailing white space.
pub open spec fn trim(s: Seq<char>) -> Seq<char> {
    trim_end(trim_start(s))
}

/// Scans the first `k` characters of `s` into words separated by white
/// space: the completed words and the word still open.
pub open spec fn scan_words(s: Seq<char>, k: int) -> (Seq<Seq<char>>, Seq<char>)
    decreases k,
{
    if k <= 0 {
        (seq![], seq![])
    } else {
        let (done, cur) = scan_words(s, k - 1);
        if is_ws(s[k - 1]) {
            (if cur.len() > 0 { done.push(cur) } else { done }, seq![])
        } else {
            (done, cur.push(s[k - 1]))
        }
    }
}

/// The white-space separated words of `s`.
pub open spec fn words(s: Seq<char>) -> Seq<Seq<char>> {
    let (done, cur) = scan_words(s, s.len() as int);
    if cur.len() > 0 {
        done.push(cur)
    } else {
        done
    }
}

/// The text made of `chars[from..to]`.
pub fn string_of(chars: &Vec<char>, from: usize, to: usize) -> (r: String)
    requires
        from <= to <= chars@.len(),
    ensures
        r@ == chars@.subrange(from as int, to as int),
{
    let mut r = String::new();
    let mut i: usize = from;
    while i < to
        invariant
            from <= i <= to <= chars@.len(),
            r@ == chars@.subrange(from as int, i as int),
        decreases to - i,
    {
        push_char(&mut r, chars[i]);
        assert(r@ =~= chars@.subrange(from as int, i + 1));
        i = i + 1;
    }
    r
}

/// The range of `chars[from..to]` left once white space is cut from both
/// ends.
pub fn trim_range(chars: &Vec<char>, from: usize, to: usize) -> (r: (usize, usize))
    requires
        from <= to <= chars@.len(),
    ensures
        from <= r.0 <= r.1 <= to,
        chars@.subrange(r.0 as int, r.1 as int) == trim(chars@.subrange(from as int, to as int)),
{
    let mut a: usize = from;
    while a < to && is_whitespace(chars[a])
        invariant
            from <= a <= to <= chars@.len(),
            trim_start(chars@.subrange(from as int, to as int)) == trim_start(
                chars@.subrange(a as int, to as int),
            ),
        decreases to - a,
    {
        assert(chars@.subrange(a as int, to as int).drop_first() =~= chars@.subrange(
            a + 1,
            to as int,
        ));
        a = a + 1;
    }
    let ghost mid = chars@.subrange(a as int, to as int);
    assert(trim_start(mid) == mid);
    let mut b: usize = to;
    while b > a && is_whitespace(chars[b - 1])
        invariant
            from <= a <= b <= to <= chars@.len(),
            trim_end(mid) == trim_end(chars@.subrange(a as int, b as int)),
            mid == chars@.subrange(a as int, to as int),
        decreases b - a,
    {
        assert(chars@.subrange(a as int, b as int).drop_last() =~= chars@.subrange(
            a as int,
            b - 1,
        ));
        b = b - 1;
    }
    (a, b)
}

/// Whether two texts are the same.
pub fn same_text(a: &str, b: &str) -> (r: bool)
    ensures
        r == (a@ == b@),
{
    let x = chars_of(a);
    let y = chars_of(b);
    if x.len() != y.len() {
        return false;
    }
    let mut i: usize = 0;
    while i < x.len()
        invariant
            x@ == a@,
            y@ == b@,
            x@.len() == y@.len(),
            i <= x@.len(),
            forall|j: int| 0 <= j < i ==> x@[j] == y@[j],
        decreases x@.len() - i,
    {
        if x[i] != y[i] {
            return false;
        }
        i = i + 1;
    }
    assert(x@ =~= y@);
    true
}

/// The white-space separated words of `s`.
pub fn split_words(s: &str) -> (r: Vec<String>)
    ensures
        r@.len() == words(s@).len(),
        forall|i: int| 0 <= i < r@.len() ==> #[trigger] r@[i]@ == words(s@)[i],
{
    let chars = chars_of(s);
    let mut r: Vec<String> = Vec::new();
    let mut cur = String::new();
    let mut k: usize = 0;
    while k < chars.len()
        invariant
            chars@ == s@,
            k <= chars@.len(),
            cur@ == scan_words(s@, k as int).1,
            r@.len() == scan_words(s@, k as int).0.len(),
            forall|i: int| 0 <= i < r@.len() ==> #[trigger] r@[i]@ == scan_words(s@, k as int).0[i],
        decreases chars@.len() - k,
    {
        let c = chars[k];
        if is_whitespace(c) {
            if !cur.as_str().is_empty() {
                r.push(cur);
            }
            cur = String::new();
        } else {
            push_char(&mut cur, c);
        }
        k = k + 1;
    }
    assert(s@.len() == k);
    if !cur.as_str().is_empty() {
        r.push(cur);
    }
    r
}

/// The non-empty lines of `s`, in order, without their line endings.
pub fn split_lines(s: &str) -> (r: Vec<String>)
    ensures
        r@.len() == listed_names(s@).len(),
        forall|i: int| 0 <= i < r@.len() ==> #[trigger] r@[i]@ == listed_names(s@)[i],
{
    let chars = chars_of(s);
    let mut r: Vec<String> = Vec::new();
    let mut cur = String::new();
    let mut k: usize = 0;
    while k < chars.len()
        invariant
            chars@ == s@,
            k <= chars@.len(),
            cur@ == scan_lines(s@, k as int).1,
            r@.len() == scan_lines(s@, k as int).0.len(),
            forall|i: int| 0 <= i < r@.len() ==> #[trigger] r@[i]@ == scan_lines(s@, k as int).0[i],
        decreases chars@.len() - k,
    {
        let c = chars[k];
        if c == '\n' {
            if !cur.as_str().is_empty() {
                r.push(cur);
            }
            cur = String::new();
        } else if c == '\r' && k + 1 < chars.len() && chars[k + 1] == '\n' {
        } else {
            push_char(&mut cur, c);
        }
        k = k + 1;
    }
    if !cur.as_str().is_empty() {
        r.push(cur);
    }
    r
}

/// Scans the first `k` characters of `s` into lines, empty ones included:
/// the completed lines and the line still open.
pub open spec fn scan_all_lines(s: Seq<char>, k: int) -> (Seq<Seq<char>>, Seq<char>)
    decreases k,
{
    if k <= 0 {
        (seq![], seq![])
    } else {
        let (done, cur) = scan_all_lines(s, k - 1);
        let c = s[k - 1];
        if c == '\n' {
            (done.push(cur), seq![])
        } else if c == '\r' && k < s.len() && s[k] == '\n' {
            (done, cur)
        } else {
            (done, cur.push(c))
        }
    }
}

/// The lines of `s` without their line endings; a final line ending adds
/// no empty line.
pub open spec fn all_lines(s: Seq<char>) -> Seq<Seq<char>> {
    let (done, cur) = scan_all_lines(s, s.len() as int);
    if cur.len() > 0 {
        done.push(cur)
    } else {
        done
    }
}

/// The lines of `s`, empty ones included, without their line endings.
pub fn split_all_lines(s: &str) -> (r: Vec<String>)
    ensures
        r@.len() == all_lines(s@).len(),
        forall|i: int| 0 <= i < r@.len() ==> #[trigger] r@[i]@ == all_lines(s@)[i],
{
    let chars = chars_of(s);
    let mut r: Vec<String> = Vec::new();
    let mut cur = String::new();
    let mut k: usize = 0;
    while k < chars.len()
        invariant
            chars@ == s@,
            k <= chars@.len(),
            cur@ == scan_all_lines(s@, k as int).1,
            r@.len() == scan_all_lines(s@, k as int).0.len(),
            forall|i: int|
                0 <= i < r@.len() ==> #[trigger] r@[i]@ == scan_all_lines(s@, k as int).0[i],
        decreases chars@.len() - k,
    {
        let c = chars[k];
        if c == '\n' {
            r.push(cur);
            cur = String::new();
        } else if c == '\r' && k + 1 < chars.len() && chars[k + 1] == '\n' {
        } else {
            push_char(&mut cur, c);
        }
        k = k + 1;
    }
    if !cur.as_str().is_empty() {
        r.push(cur);
    }
    r
}

/// The text starts with white space.
pub open spec fn starts_ws(s: Seq<char>) -> bool {
    s.len() > 0 && is_ws(s[0])
}

/// Whether `s` starts with white space.
pub fn starts_with_ws(s: &str) -> (r: bool)
    ensures
        r == starts_ws(s@),
{
    let chars = chars_of(s);
    chars.len() > 0 && is_whitespace(chars[0])
}

/// The decimal digits of `n`.
pub open spec fn decimal(n: nat) -> Seq<char>
    decreases n,
{
    if n < 10 {
        seq![digit_char(n)]
    } else {
        decimal(n / 10).push(digit_char(n % 10))
    }
}

/// The character of a decimal digit.
pub open spec fn digit_char(d: nat) -> char {
    if d == 0 { '0' } else if d == 1 { '1' } else if d == 2 { '2' } else if d == 3 { '3' }
    else if d == 4 { '4' } else if d == 5 { '5' } else if d == 6 { '6' } else if d == 7 { '7' }
    else if d == 8 { '8' } else { '9' }
}

fn digit(d: u128) -> (c: char)
    requires
        d < 10,
    ensures
        c == digit_char(d as nat),
{
    if d == 0 { '0' } else if d == 1 { '1' } else if d == 2 { '2' } else if d == 3 { '3' }
    else if d == 4 { '4' } else if d == 5 { '5' } else if d == 6 { '6' } else if d == 7 { '7' }
    else if d == 8 { '8' } else { '9' }
}

/// Appends the decimal digits of `n` to `s`.
pub fn push_decimal(s: &mut String, n: u128)
    ensures
        final(s)@ == old(s)@ + decimal(n as nat),
    decreases n,
{
    if n < 10 {
        push_char(s, digit(n));
    } else {
        push_decimal(s, n / 10);
        push_char(s, digit(n % 10));
    }
}

/// The characters of `s`, in order.
pub fn chars_of(s: &str) -> (r: Vec<char>)
    ensures
        r@ == s@,
{
    let mut r: Vec<char> = Vec::new();
    for c in it: s.chars()
        invariant
            r@ == it.seq().take(it.index()),
    {
        r.push(c);
    }
    r
}


/// The text with every character replaced by its lowercase mapping.
pub uninterp spec fn lower_of(s: Seq<char>) -> Seq<char>;

/// Relies on `str::to_lowercase`: the result depends on the characters
/// alone, and an empty text stays empty.
#[verifier::external_body]
pub fn lowercase(s: &str) -> (r: String)
    ensures
        r@ == lower_of(s@),
        s@.len() == 0 ==> r@.len() == 0,
{
    s.to_lowercase()
}

/// The text with every character replaced by its uppercase mapping.
pub uninterp spec fn upper_of(s: Seq<char>) -> Seq<char>;

/// Relies on `str::to_uppercase`: the result depends on the characters
/// alone.
#[verifier::external_body]
pub fn uppercase(s: &str) -> (r: String)
    ensures
        r@ == upper_of(s@),
{
    s.to_uppercase()
}

/// Position of the first `c` in `s`, or the length of `s` when there is none.
pub open spec fn find_char(s: Seq<char>, c: char) -> int
    decreases s.len(),
{
    if s.len() == 0 {
        0
    } else if s[0] == c {
        0
    } else {
        1 + find_char(s.drop_first(), c)
    }
}

/// Position of the first `c` in `chars[from..to]`, counted from `from`, or
/// `to - from` when there is none.
pub fn find_in(chars: &Vec<char>, from: usize, to: usize, c: char) -> (r: usize)
    requires
        from <= to <= chars@.len(),
    ensures
        r == find_char(chars@.subrange(from as int, to as int), c),
        from + r <= to,
{
    let mut i: usize = to;
    let mut found: usize = to - from;
    while i > from
        invariant
            from <= i <= to <= chars@.len(),
            found <= to - from,
            i + find_char(chars@.subrange(i as int, to as int), c) == from + found,
        decreases i - from,
    {
        let ghost tail = chars@.subrange(i as int, to as int);
        assert(chars@.subrange(i - 1, to as int).drop_first() =~= tail);
        if chars[i - 1] == c {
            found = i - 1 - from;
        }
        i = i - 1;
    }
    found
}

/// `needle` occurs in `hay` starting at position `i`.
pub open spec fn occurs_at(hay: Seq<char>, needle: Seq<char>, i: int) -> bool {
    0 <= i && i + needle.len() <= hay.len() && hay.subrange(i, i + needle.len()) == needle
}

/// `needle` occurs somewhere in `hay`.
pub open spec fn contains_seq(hay: Seq<char>, needle: Seq<char>) -> bool {
    exists|i: int| occurs_at(hay, needle, i)
}

fn occurs_at_exec(hay: &Vec<char>, needle: &Vec<char>, i: usize) -> (r: bool)
    requires
        i + needle@.len() <= hay@.len(),
    ensures
        r == occurs_at(hay@, needle@, i as int),
{
    let hay_len = hay.len();
    let mut k: usize = 0;
    while k < needle.len()
        invariant
            i + needle@.len() <= hay@.len(),
            hay_len == hay@.len(),
            k <= needle@.len(),
            forall|j: int| 0 <= j < k ==> hay@[i + j] == needle@[j],
        decreases needle@.len() - k,
    {
        if hay[i + k] != needle[k] {
            assert(hay@.subrange(i as int, i + needle@.len())[k as int] != needle@[k as int]);
            return false;
        }
        k = k + 1;
    }
    assert(hay@.subrange(i as int, i + needle@.len()) =~= needle@);
    true
}

/// Whether `needle` occurs in `hay`.
pub fn contains_str(hay: &str, needle: &str) -> (r: bool)
    ensures
        r == contains_seq(hay@, needle@),
{
    let h = chars_of(hay);
    let n = chars_of(needle);
    if n.len() > h.len() {
        assert forall|i: int| !occurs_at(hay@, needle@, i) by {}
        return false;
    }
    let last = h.len() - n.len();
    let mut i: usize = 0;
    loop
        invariant
            h@ == hay@,
            n@ == needle@,
            last + n@.len() == h@.len(),
            i <= last,
            forall|j: int| 0 <= j < i ==> !occurs_at(hay@, needle@, j),
        ensures
            forall|j: int| 0 <= j <= last ==> !occurs_at(hay@, needle@, j),
        decreases last - i,
    {
        if occurs_at_exec(&h, &n, i) {
            return true;
        }
        if i == last {
            break;
        }
        i = i + 1;
    }
    assert forall|j: int| !occurs_at(hay@, needle@, j) by {
        if occurs_at(hay@, needle@, j) {
            assert(j <= last);
        }
    }
    false
}

/// Scans the first `k` characters of `s` as the package manager's line
/// listing: a newline ends a line, a carriage return just before a newline
/// belongs to the line ending, and empty lines are dropped. Gives the
/// completed lines and the line still open.
pub open spec fn scan_lines(s: Seq<char>, k: int) -> (Seq<Seq<char>>, Seq<char>)
    decreases k,
{
    if k <= 0 {
        (seq![], seq![])
    } else {
        let (done, cur) = scan_lines(s, k - 1);
        let c = s[k - 1];
        if c == '\n' {
            (if cur.len() > 0 { done.push(cur) } else { done }, seq![])
        } else if c == '\r' && k < s.len() && s[k] == '\n' {
            (done, cur)
        } else {
            (done, cur.push(c))
        }
    }
}

/// The non-empty lines of `s`, in order, without their line endings.
pub open spec fn listed_names(s: Seq<char>) -> Seq<Seq<char>> {
    let (done, cur) = scan_lines(s, s.len() as int);
    if cur.len() > 0 {
        done.push(cur)
    } else {
        done
    }
}

pub proof fn lemma_scan_no_newline(s: Seq<char>, k: int)
    requires
        0 <= k <= s.len(),
    ensures
        !scan_lines(s, k).1.contains('\n'),
        forall|j: int|
            0 <= j < scan_lines(s, k).0.len() ==> !(#[trigger] scan_lines(s, k).0[j]).contains(
                '\n',
            ) && scan_lines(s, k).0[j].len() > 0,
    decreases k,
{
    if k > 0 {
        lemma_scan_no_newline(s, k - 1);
        let cur = scan_lines(s, k - 1).1;
        let c = s[k - 1];
        if c != '\n' && cur.push(c).contains('\n') {
            let j = choose|j: int| 0 <= j < cur.push(c).len() && cur.push(c)[j] == '\n';
            if j < cur.len() {
                assert(cur[j] == '\n');
            }
        }
    }
}

/// UTF-8 encoding distributes over concatenation.
pub proof fn lemma_encode_concat(a: Seq<char>, b: Seq<char>)
    ensures
        encode_utf8(a + b) == encode_utf8(a) + encode_utf8(b),
    decreases a.len(),
{
    if a.len() == 0 {
        assert(a + b =~= b);
        assert(encode_utf8(a) + encode_utf8(b) =~= encode_utf8(b));
    } else {
        assert((a + b).drop_first() =~= a.drop_first() + b);
        lemma_encode_concat(a.drop_first(), b);
        assert(encode_utf8(a + b) =~= encode_utf8(a) + encode_utf8(b));
    }
}

/// A character boundary of a valid encoding stays one when more valid
/// encoded text is appended.
pub proof fn lemma_boundary_concat(a: Seq<u8>, b: Seq<u8>, i: int)
    requires
        valid_utf8(a),
        valid_utf8(b),
        is_char_boundary(a, i),
    ensures
        valid_utf8(a + b),
        is_char_boundary(a + b, i),
{
    valid_utf8_concat(a, b);
    if i == 0 {
    } else if i < a.len() {
        is_char_boundary_iff_is_leading_byte(a, i);
        is_char_boundary_iff_is_leading_byte(a + b, i);
        assert((a + b)[i] == a[i]);
    } else if b.len() == 0 {
        assert(a + b =~= a);
    } else {
        is_char_boundary_iff_is_leading_byte(a + b, i);
        assert((a + b)[i] == b[0]);
    }
}

proof fn lemma_high_bytes(y: u8)
    by (bit_vector)
    ensures
        (0x80u8 | y) >= 0x80u8,
        (0xC0u8 | y) >= 0x80u8,
        (0xE0u8 | y) >= 0x80u8,
        (0xF0u8 | y) >= 0x80u8,
{
}

proof fn lemma_low_byte(v: u32)
    by (bit_vector)
    requires
        v <= 0x7f,
    ensures
        ((v & 0x7f) as u8) as u32 == v,
{
}

/// Only the newline character puts a newline byte into a UTF-8 encoding.
pub proof fn lemma_encode_no_newline(chars: Seq<char>)
    requires
        !chars.contains('\n'),
    ensures
        !encode_utf8(chars).contains(10u8),
    decreases chars.len(),
{
    if chars.len() > 0 {
        let v = chars[0] as u32;
        let rest = chars.drop_first();
        assert(!rest.contains('\n')) by {
            if rest.contains('\n') {
                let k = choose|k: int| 0 <= k < rest.len() && rest[k] == '\n';
                assert(chars[k + 1] == '\n');
            }
        }
        lemma_encode_no_newline(rest);
        let head = encode_scalar(v);
        char_is_scalar(chars[0]);
        assert forall|k: int| 0 <= k < head.len() implies head[k] != 10u8 by {
            if has_width_1_encoding(v) {
                lemma_low_byte(v);
                char_u32_cast(chars[0], v);
                assert(chars[0] != '\n');
                assert(v != 10);
            } else if has_width_2_encoding(v) {
                lemma_high_bytes(((v >> 6) & 0x1F) as u8);
                lemma_high_bytes((v & 0x3F) as u8);
            } else if has_width_3_encoding(v) {
                lemma_high_bytes(((v >> 12) & 0x0F) as u8);
                lemma_high_bytes(((v >> 6) & 0x3F) as u8);
                lemma_high_bytes((v & 0x3F) as u8);
            } else {
                lemma_high_bytes(((v >> 18) & 0x7) as u8);
                lemma_high_bytes(((v >> 12) & 0x3F) as u8);
                lemma_high_bytes(((v >> 6) & 0x3F) as u8);
                lemma_high_bytes((v & 0x3F) as u8);
            }
        }
        let whole = encode_utf8(chars);
        assert(whole =~= head + encode_utf8(rest));
        if whole.contains(10u8) {
            let k = choose|k: int| 0 <= k < whole.len() && whole[k] == 10u8;
            if k < head.len() {
                assert(head[k] == 10u8);
            } else {
                assert(encode_utf8(rest)[k - head.len()] == 10u8);
            }
        }
    }
}

} // verus!
