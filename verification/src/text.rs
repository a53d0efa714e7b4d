//! Text as sequences of characters: the string operations that the rest of
//! the crate is built from.

use vstd::prelude::*;

verus! {

/// `String::push` appends one character to the end of a string.
pub assume_specification[ String::push ](s: &mut String, c: char)
    ensures
        final(s)@ == old(s)@.push(c),
;

/// What `String::from_utf8` says is wrong with bytes that are not UTF-8.
pub uninterp spec fn utf8_complaint(bytes: Seq<u8>) -> Seq<char>;

/// Wraps `String::from_utf8`: the bytes are accepted exactly when they are valid
/// UTF-8, and the text is then what they decode to. The same bytes are always refused
/// in the same words.
#[verifier::external_body]
pub(crate) fn utf8_text(bytes: Vec<u8>) -> (r: Result<String, String>)
    ensures
        r is Ok == vstd::utf8::valid_utf8(bytes@),
        r matches Ok(t) ==> t@ == vstd::utf8::decode_utf8(bytes@),
        r matches Err(e) ==> e@ == utf8_complaint(bytes@),
{
    match String::from_utf8(bytes) {
        Ok(t) => Ok(t),
        Err(e) => Err(e.to_string()),
    }
}

/// The texts that a list of strings holds.
pub open spec fn texts(v: Seq<String>) -> Seq<Seq<char>> {
    v.map_values(|t: String| t@)
}

/// The text inside an optional string.
pub open spec fn opt_text(o: Option<String>) -> Option<Seq<char>> {
    match o {
        Some(t) => Some(t@),
        None => None,
    }
}

/// The text inside an optional string slice.
pub open spec fn opt_str(o: Option<&str>) -> Option<Seq<char>> {
    match o {
        Some(t) => Some(t@),
        None => None,
    }
}

// ---------------------------------------------------------------------------
// Characters and comparison
// ---------------------------------------------------------------------------

/// The characters of a text, one by one.
pub fn to_chars(s: &str) -> (r: Vec<char>)
    ensures
        r@ == s@,
{
    let mut r: Vec<char> = Vec::new();
    for c in it: s.chars()
        invariant
            r@ == s@.take(it.index() as int),
            it.seq() == s@,
    {
        r.push(c);
    }
    r
}

/// Whether two texts are the same.
pub fn same_text(a: &str, b: &str) -> (r: bool)
    ensures
        r == (a@ == b@),
{
    a.to_owned() == b.to_owned()
}

/// Whether an optional text is this very text.
pub fn is_text(o: &Option<String>, t: &str) -> (r: bool)
    ensures
        r == (opt_text(*o) == Some(t@)),
{
    match o {
        Some(s) => same_text(s.as_str(), t),
        None => false,
    }
}

/// A copy of an optional text.
pub fn copy_opt(o: &Option<String>) -> (r: Option<String>)
    ensures
        r == *o,
{
    match o {
        Some(s) => Some(s.clone()),
        None => None,
    }
}

/// A copy of a list of texts.
pub fn copy_texts(v: &Vec<String>) -> (r: Vec<String>)
    ensures
        texts(r@) == texts(v@),
{
    let mut r: Vec<String> = Vec::new();
    for i in 0..v.len()
        invariant
            r@ == v@.take(i as int),
    {
        r.push(v[i].clone());
        assert(r@ =~= v@.take(i + 1));
    }
    assert(v@.take(v@.len() as int) =~= v@);
    r
}

/// The control characters: the Unicode general category Cc.
pub open spec fn is_control(c: char) -> bool {
    c as u32 <= 0x1f || 0x7f <= c as u32 <= 0x9f
}

/// Whether `c` is a control character.
pub fn control_char(c: char) -> (r: bool)
    ensures
        r == is_control(c),
{
    let n: u32 = c as u32;
    n <= 0x1f || (0x7f <= n && n <= 0x9f)
}

/// The Unicode white space characters.
pub open spec fn is_space(c: char) -> bool {
    let n = c as u32;
    ||| 0x09 <= n <= 0x0d
    ||| n == 0x20
    ||| n == 0x85
    ||| n == 0xa0
    ||| n == 0x1680
    ||| 0x2000 <= n <= 0x200a
    ||| n == 0x2028
    ||| n == 0x2029
    ||| n == 0x202f
    ||| n == 0x205f
    ||| n == 0x3000
}

/// Whether `c` is white space.
pub fn space_char(c: char) -> (r: bool)
    ensures
        r == is_space(c),
{
    let n: u32 = c as u32;
    (0x09 <= n && n <= 0x0d) || n == 0x20 || n == 0x85 || n == 0xa0 || n == 0x1680 || (0x2000 <= n
        && n <= 0x200a) || n == 0x2028 || n == 0x2029 || n == 0x202f || n == 0x205f || n == 0x3000
}

// ---------------------------------------------------------------------------
// Trimming and stripping
// ---------------------------------------------------------------------------

/// `s` without the white space at its start.
pub open spec fn trim_start(s: Seq<char>) -> Seq<char>
    decreases s.len(),
{
    if s.len() > 0 && is_space(s.first()) {
        trim_start(s.drop_first())
    } else {
        s
    }
}

/// `s` without the white space at its end.
pub open spec fn trim_end(s: Seq<char>) -> Seq<char>
    decreases s.len(),
{
    if s.len() > 0 && is_space(s.last()) {
        trim_end(s.drop_last())
    } else {
        s
    }
}

/// `s` without the white space around it.
pub open spec fn trimmed(s: Seq<char>) -> Seq<char> {
    trim_end(trim_start(s))
}

/// The text without the white space around it.
pub fn trim(s: &str) -> (r: String)
    ensures
        r@ == trimmed(s@),
{
    let chars = to_chars(s);
    let n = chars.len();
    let mut a: usize = 0;
    proof {
        assert(s@.skip(0) =~= s@);
    }
    while a < n && space_char(chars[a])
        invariant
            a <= n,
            n == chars@.len(),
            chars@ == s@,
            trim_start(s@) == trim_start(s@.skip(a as int)),
        decreases n - a,
    {
        assert(s@.skip(a as int).drop_first() =~= s@.skip(a + 1));
        a = a + 1;
    }
    assert(trim_start(s@) == s@.skip(a as int));
    let mut b: usize = n;
    proof {
        assert(s@.subrange(a as int, n as int) =~= s@.skip(a as int));
    }
    while a < b && space_char(chars[b - 1])
        invariant
            a <= b <= n,
            n == chars@.len(),
            chars@ == s@,
            trim_end(s@.skip(a as int)) == trim_end(s@.subrange(a as int, b as int)),
        decreases b,
    {
        assert(s@.subrange(a as int, b as int).drop_last() =~= s@.subrange(a as int, b - 1));
        b = b - 1;
    }
    s.substring_char(a, b).to_owned()
}

/// `s` ends with `end`.
pub open spec fn ends_with(s: Seq<char>, end: Seq<char>) -> bool {
    end.len() <= s.len() && s.skip(s.len() - end.len()) == end
}

/// What follows `start` at the beginning of the text, if it begins so.
pub fn strip_prefix(s: &str, start: &str) -> (r: Option<String>)
    ensures
        r is Some == start@.is_prefix_of(s@),
        r matches Some(rest) ==> rest@ == s@.skip(start@.len() as int),
{
    let a = s.unicode_len();
    let b = start.unicode_len();
    if b <= a && same_text(s.substring_char(0, b), start) {
        assert(s@.subrange(b as int, a as int) =~= s@.skip(b as int));
        Some(s.substring_char(b, a).to_owned())
    } else {
        None
    }
}

/// `s` with every repetition of `end` at its end taken off.
pub open spec fn without_ends(s: Seq<char>, end: Seq<char>) -> Seq<char>
    decreases s.len(),
{
    if end.len() > 0 && ends_with(s, end) {
        without_ends(s.take(s.len() - end.len()), end)
    } else {
        s
    }
}

/// The text with every repetition of `end` at its end taken off.
pub fn strip_ends(s: &str, end: &str) -> (r: String)
    ensures
        r@ == without_ends(s@, end@),
{
    let a = s.unicode_len();
    let k = end.unicode_len();
    let mut b: usize = a;
    assert(s@.take(a as int) =~= s@);
    while k > 0 && k <= b && same_text(s.substring_char(b - k, b), end)
        invariant
            b <= a,
            a == s@.len(),
            k == end@.len(),
            without_ends(s@, end@) == without_ends(s@.take(b as int), end@),
        decreases b,
    {
        assert(s@.take(b as int).skip(b - k) =~= s@.subrange(b - k, b as int));
        assert(s@.take(b as int).take(b - k) =~= s@.take(b - k));
        b = b - k;
    }
    if k > 0 && k <= b {
        assert(s@.take(b as int).skip(b - k) =~= s@.subrange(b - k, b as int));
    }
    assert(s@.take(b as int) =~= s@.subrange(0, b as int));
    s.substring_char(0, b).to_owned()
}

// ---------------------------------------------------------------------------
// Splitting and joining
// ---------------------------------------------------------------------------

/// The pieces of `s` between the occurrences of `sep`.
pub open spec fn split(s: Seq<char>, sep: char) -> Seq<Seq<char>>
    decreases s.len(),
{
    if s.len() == 0 {
        seq![Seq::empty()]
    } else {
        let before = split(s.drop_last(), sep);
        if s.last() == sep {
            before.push(Seq::empty())
        } else {
            before.drop_last().push(before.last().push(s.last()))
        }
    }
}

/// There is always a piece, and no piece holds the separator.
pub proof fn lemma_split_pieces(s: Seq<char>, sep: char)
    ensures
        split(s, sep).len() > 0,
        forall|i: int, k: int|
            0 <= i < split(s, sep).len() && 0 <= k < split(s, sep)[i].len() ==> #[trigger] split(
                s,
                sep,
            )[i][k] != sep,
    decreases s.len(),
{
    if s.len() > 0 {
        lemma_split_pieces(s.drop_last(), sep);
    }
}

/// A text without the separator is its own only piece.
pub proof fn lemma_split_whole(s: Seq<char>, sep: char)
    requires
        !s.contains(sep),
    ensures
        split(s, sep) == seq![s],
    decreases s.len(),
{
    if s.len() > 0 {
        assert(s.contains(s.last()));
        assert forall|c: char| s.drop_last().contains(c) implies s.contains(c) by {
            let i = choose|i: int| 0 <= i < s.drop_last().len() && s.drop_last()[i] == c;
            assert(s[i] == c);
        }
        lemma_split_whole(s.drop_last(), sep);
        assert(s.drop_last().push(s.last()) =~= s);
        assert(split(s, sep) =~= seq![s]);
    } else {
        assert(s =~= Seq::empty());
        assert(split(s, sep) =~= seq![s]);
    }
}

/// A separator between two texts keeps their pieces apart.
pub proof fn lemma_split_around(a: Seq<char>, b: Seq<char>, sep: char)
    ensures
        split(a.push(sep) + b, sep) == split(a, sep) + split(b, sep),
    decreases b.len(),
{
    if b.len() == 0 {
        assert(a.push(sep) + b =~= a.push(sep));
        assert(a.push(sep).drop_last() =~= a);
        assert(split(a, sep).push(Seq::empty()) =~= split(a, sep) + split(b, sep));
    } else {
        let whole = a.push(sep) + b;
        assert(whole.drop_last() =~= a.push(sep) + b.drop_last());
        assert(whole.last() == b.last());
        lemma_split_around(a, b.drop_last(), sep);
        lemma_split_pieces(b.drop_last(), sep);
        let x = split(a, sep);
        let y = split(b.drop_last(), sep);
        assert((x + y).last() == y.last());
        assert((x + y).drop_last() =~= x + y.drop_last());
        assert(split(whole, sep) =~= x + split(b, sep));
    }
}

/// The pieces of the text between the occurrences of `sep`.
pub fn split_text(s: &str, sep: char) -> (r: Vec<String>)
    ensures
        texts(r@) == split(s@, sep),
{
    let chars = to_chars(s);
    let mut done: Vec<String> = Vec::new();
    let mut cur = String::new();
    assert(texts(done@).push(cur@) =~= split(s@.take(0), sep));
    for i in 0..chars.len()
        invariant
            chars@ == s@,
            texts(done@).push(cur@) == split(s@.take(i as int), sep),
    {
        let c = chars[i];
        assert(s@.take(i + 1).drop_last() =~= s@.take(i as int));
        let ghost before = split(s@.take(i as int), sep);
        assert(before.drop_last() =~= texts(done@));
        if c == sep {
            let ghost was = done@;
            done.push(cur);
            cur = String::new();
            assert(texts(done@) =~= before);
            assert(texts(done@).push(cur@) =~= split(s@.take(i + 1), sep));
        } else {
            cur.push(c);
        }
    }
    assert(s@.take(chars@.len() as int) =~= s@);
    let ghost was = done@;
    let ghost last = cur@;
    done.push(cur);
    assert(texts(done@) =~= texts(was).push(last));
    done
}

/// `s` without one carriage return at its end.
pub open spec fn without_return(s: Seq<char>) -> Seq<char> {
    if s.len() > 0 && s.last() == '\r' {
        s.drop_last()
    } else {
        s
    }
}

/// The lines of `s`: each ends with a line feed, which a carriage return may
/// precede; the last may lack its end.
pub open spec fn lines_of(s: Seq<char>) -> Seq<Seq<char>> {
    let parts = split(s, '\n');
    let ended = parts.drop_last().map_values(|p: Seq<char>| without_return(p));
    if parts.last().len() > 0 {
        ended.push(parts.last())
    } else {
        ended
    }
}

/// The lines of the text.
pub fn lines(s: &str) -> (r: Vec<String>)
    ensures
        texts(r@) == lines_of(s@),
{
    let parts = split_text(s, '\n');
    let ghost all = split(s@, '\n');
    proof {
        lemma_split_pieces(s@, '\n');
    }
    assert(parts@.len() == all.len());
    let mut r: Vec<String> = Vec::new();
    let n = parts.len() - 1;
    for i in 0..n
        invariant
            n == parts@.len() - 1,
            texts(parts@) == all,
            texts(r@) == all.take(i as int).map_values(|p: Seq<char>| without_return(p)),
    {
        let part = parts[i].as_str();
        let k = part.unicode_len();
        assert(part@ == all[i as int]);
        let ghost was = r@;
        if k > 0 && part.get_char(k - 1) == '\r' {
            assert(part@.subrange(0, k - 1) =~= part@.drop_last());
            r.push(part.substring_char(0, k - 1).to_owned());
        } else {
            r.push(part.to_owned());
        }
        assert(texts(r@) =~= texts(was).push(without_return(all[i as int])));
        assert(all.take(i + 1).map_values(|p: Seq<char>| without_return(p)) =~= all.take(
            i as int,
        ).map_values(|p: Seq<char>| without_return(p)).push(without_return(all[i as int])));
    }
    assert(all.take(n as int) =~= all.drop_last());
    let last = parts[n].as_str();
    assert(last@ == all[n as int]);
    if !last.is_empty() {
        let ghost was = r@;
        r.push(last.to_owned());
        assert(texts(r@) =~= texts(was).push(all.last()));
    }
    r
}

/// The texts with `sep` between each two of them.
pub open spec fn joined(parts: Seq<Seq<char>>, sep: Seq<char>) -> Seq<char>
    decreases parts.len(),
{
    if parts.len() == 0 {
        Seq::empty()
    } else if parts.len() == 1 {
        parts[0]
    } else {
        joined(parts.drop_last(), sep) + sep + parts.last()
    }
}

/// The texts with `sep` between each two of them, as one text.
pub fn join_texts(parts: &Vec<String>, sep: &str) -> (r: String)
    ensures
        r@ == joined(texts(parts@), sep@),
{
    let mut r = String::new();
    for i in 0..parts.len()
        invariant
            r@ == joined(texts(parts@).take(i as int), sep@),
    {
        let ghost all = texts(parts@);
        assert(all.take(i + 1).drop_last() =~= all.take(i as int));
        if i > 0 {
            r.append(sep);
        }
        r.append(parts[i].as_str());
        if i == 0 {
            assert(r@ =~= all[0]);
        }
    }
    assert(texts(parts@).take(parts@.len() as int) =~= texts(parts@));
    r
}

// ---------------------------------------------------------------------------
// Numbers and escapes
// ---------------------------------------------------------------------------

/// The digit that stands for `d`, up to base sixteen.
pub open spec fn digit(d: int) -> char {
    seq!['0', '1', '2', '3', '4', '5', '6', '7', '8', '9', 'a', 'b', 'c', 'd', 'e', 'f'][d]
}

/// The digit that stands for `d`, up to base sixteen.
pub fn digit_char(d: usize) -> (r: char)
    requires
        d < 16,
    ensures
        r == digit(d as int),
{
    let digits: [char; 16] = [
        '0',
        '1',
        '2',
        '3',
        '4',
        '5',
        '6',
        '7',
        '8',
        '9',
        'a',
        'b',
        'c',
        'd',
        'e',
        'f',
    ];
    digits[d]
}

/// `n` in decimal notation.
pub open spec fn decimal_of(n: nat) -> Seq<char>
    decreases n,
{
    if n < 10 {
        seq![digit(n as int)]
    } else {
        decimal_of(n / 10).push(digit((n % 10) as int))
    }
}

/// Different numbers are written differently.
pub proof fn law_decimal_injective(a: nat, b: nat)
    requires
        decimal_of(a) == decimal_of(b),
    ensures
        a == b,
    decreases a,
{
    lemma_decimal_length(a);
    lemma_decimal_length(b);
    assert(decimal_of(a).last() == digit((a % 10) as int));
    assert(decimal_of(b).last() == digit((b % 10) as int));
    lemma_digit_injective((a % 10) as int, (b % 10) as int);
    if a >= 10 && b >= 10 {
        assert(decimal_of(a).drop_last() =~= decimal_of(a / 10));
        assert(decimal_of(b).drop_last() =~= decimal_of(b / 10));
        law_decimal_injective(a / 10, b / 10);
    }
}

proof fn lemma_digit_injective(d: int, e: int)
    requires
        0 <= d < 10,
        0 <= e < 10,
        digit(d) == digit(e),
    ensures
        d == e,
{
    assert forall|k: int| 0 <= k < 10 implies digit(k) as u32 == 0x30 + k by {
        if k == 0 || k == 1 || k == 2 || k == 3 || k == 4 {
        } else {
            assert(k == 5 || k == 6 || k == 7 || k == 8 || k == 9);
        }
    }
    assert(digit(d) as u32 == 0x30 + d);
    assert(digit(e) as u32 == 0x30 + e);
}

proof fn lemma_decimal_length(a: nat)
    ensures
        decimal_of(a).len() >= 1,
        a >= 10 ==> decimal_of(a).len() >= 2,
        a < 10 ==> decimal_of(a).len() == 1,
    decreases a,
{
    if a >= 10 {
        lemma_decimal_length(a / 10);
    }
}

/// A number is written with the digits from `0` to `9` alone.
pub proof fn lemma_decimal_digits(n: nat)
    ensures
        decimal_of(n).len() > 0,
        forall|k: int| 0 <= k < decimal_of(n).len() ==> '0' <= #[trigger] decimal_of(n)[k] <= '9',
    decreases n,
{
    let d = (n % 10) as int;
    assert('0' <= digit(d) <= '9') by {
        if d == 0 || d == 1 || d == 2 || d == 3 || d == 4 {
        } else {
            assert(d == 5 || d == 6 || d == 7 || d == 8 || d == 9);
        }
    }
    if n >= 10 {
        lemma_decimal_digits(n / 10);
    }
}

/// The number in decimal notation.
pub fn decimal(n: u128) -> (r: String)
    ensures
        r@ == decimal_of(n as nat),
    decreases n,
{
    if n < 10 {
        let mut r = String::new();
        r.push(digit_char(n as usize));
        assert(r@ =~= seq![digit(n as int)]);
        r
    } else {
        let mut r = decimal(n / 10);
        r.push(digit_char((n % 10) as usize));
        r
    }
}

/// `n` in hexadecimal notation.
pub open spec fn hexadecimal_of(n: nat) -> Seq<char>
    decreases n,
{
    if n < 16 {
        seq![digit(n as int)]
    } else {
        hexadecimal_of(n / 16).push(digit((n % 16) as int))
    }
}

/// The number in hexadecimal notation.
pub fn hexadecimal(n: u32) -> (r: String)
    ensures
        r@ == hexadecimal_of(n as nat),
    decreases n,
{
    if n < 16 {
        let mut r = String::new();
        r.push(digit_char(n as usize));
        assert(r@ =~= seq![digit(n as int)]);
        r
    } else {
        let mut r = hexadecimal(n / 16);
        r.push(digit_char((n % 16) as usize));
        r
    }
}

/// A character as it is shown in a message: printable ASCII as it is, with a
/// backslash before quotes and backslashes, and everything else escaped.
pub open spec fn escaped(c: char) -> Seq<char> {
    if c == '\t' {
        seq!['\\', 't']
    } else if c == '\r' {
        seq!['\\', 'r']
    } else if c == '\n' {
        seq!['\\', 'n']
    } else if c == '\'' || c == '"' || c == '\\' {
        seq!['\\', c]
    } else if 0x20 <= c as u32 <= 0x7e {
        seq![c]
    } else {
        seq!['\\', 'u', '{'] + hexadecimal_of(c as nat) + seq!['}']
    }
}

/// The character as it is shown in a message.
pub fn escape(c: char) -> (r: String)
    ensures
        r@ == escaped(c),
{
    let mut r = String::new();
    let n: u32 = c as u32;
    if c == '\t' {
        r.push('\\');
        r.push('t');
        assert(r@ =~= escaped(c));
    } else if c == '\r' {
        r.push('\\');
        r.push('r');
        assert(r@ =~= escaped(c));
    } else if c == '\n' {
        r.push('\\');
        r.push('n');
        assert(r@ =~= escaped(c));
    } else if c == '\'' || c == '"' || c == '\\' {
        r.push('\\');
        r.push(c);
        assert(r@ =~= escaped(c));
    } else if 0x20 <= n && n <= 0x7e {
        r.push(c);
        assert(r@ =~= escaped(c));
    } else {
        r.push('\\');
        r.push('u');
        r.push('{');
        r.append(hexadecimal(n).as_str());
        r.push('}');
        assert(r@ =~= escaped(c));
    }
    r
}

// ---------------------------------------------------------------------------
// What holds of text
// ---------------------------------------------------------------------------

/// Trimming takes white space off both ends and nothing else: what is left stands in
/// the text with only white space around it, and neither begins nor ends with any.
pub proof fn law_trimmed(s: Seq<char>) -> (r: (int, int))
    ensures
        0 <= r.0 <= r.1 <= s.len(),
        trimmed(s) == s.subrange(r.0, r.1),
        forall|k: int| 0 <= k < r.0 ==> is_space(#[trigger] s[k]),
        forall|k: int| r.1 <= k < s.len() ==> is_space(#[trigger] s[k]),
        r.0 < r.1 ==> !is_space(s[r.0]) && !is_space(s[r.1 - 1]),
{
    let a = lemma_trim_start(s);
    let rest = s.skip(a);
    let b = lemma_trim_end(rest);
    assert(rest.take(b) =~= s.subrange(a, a + b));
    assert forall|k: int| a + b <= k < s.len() implies is_space(#[trigger] s[k]) by {
        assert(rest[k - a] == s[k]);
    }
    if b > 0 {
        assert(rest[0] == s[a]);
        assert(rest[b - 1] == s[a + b - 1]);
    }
    (a, a + b)
}

proof fn lemma_trim_start(s: Seq<char>) -> (a: int)
    ensures
        0 <= a <= s.len(),
        trim_start(s) == s.skip(a),
        forall|k: int| 0 <= k < a ==> is_space(#[trigger] s[k]),
        a < s.len() ==> !is_space(s[a]),
    decreases s.len(),
{
    if s.len() > 0 && is_space(s.first()) {
        let rest = s.drop_first();
        let a = lemma_trim_start(rest);
        assert(rest.skip(a) =~= s.skip(a + 1));
        assert forall|k: int| 0 <= k < a + 1 implies is_space(#[trigger] s[k]) by {
            if k > 0 {
                assert(rest[k - 1] == s[k]);
            }
        }
        a + 1
    } else {
        assert(s.skip(0) =~= s);
        0
    }
}

proof fn lemma_trim_end(s: Seq<char>) -> (b: int)
    ensures
        0 <= b <= s.len(),
        trim_end(s) == s.take(b),
        forall|k: int| b <= k < s.len() ==> is_space(#[trigger] s[k]),
        b > 0 ==> !is_space(s[b - 1]),
    decreases s.len(),
{
    if s.len() > 0 && is_space(s.last()) {
        let rest = s.drop_last();
        let b = lemma_trim_end(rest);
        assert(rest.take(b) =~= s.take(b));
        assert forall|k: int| b <= k < s.len() implies is_space(#[trigger] s[k]) by {
            if k < rest.len() {
                assert(rest[k] == s[k]);
            }
        }
        b
    } else {
        assert(s.take(s.len() as int) =~= s);
        s.len() as int
    }
}

/// One more of what is taken off at the end makes no difference, and a text that does
/// not end so stays as it is.
pub proof fn law_without_ends(s: Seq<char>, end: Seq<char>)
    requires
        end.len() > 0,
    ensures
        without_ends(s + end, end) == without_ends(s, end),
        !(end.len() <= s.len() && s.subrange(s.len() - end.len(), s.len() as int) == end)
            ==> without_ends(s, end) == s,
{
    let whole = s + end;
    assert(whole.skip(whole.len() - end.len()) =~= end);
    assert(whole.take(whole.len() - end.len()) =~= s);
    if end.len() <= s.len() {
        assert(s.skip(s.len() - end.len()) =~= s.subrange(s.len() - end.len(), s.len() as int));
    }
}

/// Joining texts: none give nothing, one gives itself, and one more comes after a
/// separator.
pub proof fn law_joined(parts: Seq<Seq<char>>, part: Seq<char>, sep: Seq<char>)
    ensures
        joined(Seq::empty(), sep) == Seq::<char>::empty(),
        joined(seq![part], sep) == part,
        parts.len() > 0 ==> joined(parts.push(part), sep) == joined(parts, sep) + sep + part,
{
    assert(parts.push(part).drop_last() =~= parts);
}

/// Splitting is undone by joining, and no piece holds the separator.
pub proof fn law_split_is_undone(s: Seq<char>, sep: char)
    ensures
        joined(split(s, sep), seq![sep]) == s,
        forall|i: int| 0 <= i < split(s, sep).len() ==> !(#[trigger] split(s, sep)[i]).contains(sep),
    decreases s.len(),
{
    lemma_split_pieces(s, sep);
    let pieces = split(s, sep);
    assert forall|i: int| 0 <= i < pieces.len() implies !(#[trigger] pieces[i]).contains(sep) by {
        if pieces[i].contains(sep) {
            let k = choose|k: int| 0 <= k < pieces[i].len() && pieces[i][k] == sep;
            assert(pieces[i][k] != sep);
        }
    }
    if s.len() > 0 {
        let t = s.drop_last();
        law_split_is_undone(t, sep);
        lemma_split_pieces(t, sep);
        let before = split(t, sep);
        if s.last() == sep {
            law_joined(before, Seq::empty(), seq![sep]);
            assert(t + seq![sep] + Seq::<char>::empty() =~= s);
        } else {
            let last = before.last().push(s.last());
            let front = before.drop_last();
            assert(pieces == front.push(last));
            assert(before =~= front.push(before.last()));
            law_joined(front, last, seq![sep]);
            law_joined(front, before.last(), seq![sep]);
            if front.len() == 0 {
                assert(front =~= Seq::empty());
                assert(pieces =~= seq![last]);
                assert(before =~= seq![before.last()]);
                assert(t == before.last());
            } else {
                assert(t == joined(front, seq![sep]) + seq![sep] + before.last());
            }
            assert(joined(pieces, seq![sep]) =~= t.push(s.last()));
            assert(t.push(s.last()) =~= s);
        }
    } else {
        assert(pieces =~= seq![Seq::<char>::empty()]);
        law_joined(pieces, Seq::empty(), seq![sep]);
        assert(s =~= Seq::empty());
    }
}

/// A text without line feeds is one line, with or without its end, and an empty text
/// has no line; a carriage return before the line feed belongs to the end.
pub proof fn law_one_line(line: Seq<char>)
    requires
        !line.contains('\n'),
    ensures
        lines_of(Seq::empty()) == Seq::<Seq<char>>::empty(),
        line.len() > 0 ==> lines_of(line) == seq![line],
        line.len() == 0 || line.last() != '\r' ==> lines_of(line.push('\n')) == seq![line],
        lines_of(line.push('\r').push('\n')) == seq![line],
{
    lemma_split_whole(Seq::empty(), '\n');
    lemma_split_whole(line, '\n');
    let none = Seq::<char>::empty();
    assert(lines_of(none) =~= Seq::<Seq<char>>::empty());
    if line.len() > 0 {
        assert(lines_of(line) =~= seq![line]);
    }
    lemma_split_around(line, none, '\n');
    assert(line.push('\n') + none =~= line.push('\n'));
    assert(split(line.push('\n'), '\n') =~= seq![line, none]);
    assert(lines_of(line.push('\n')) =~= seq![without_return(line)]);
    let long = line.push('\r');
    assert(!long.contains('\n')) by {
        if long.contains('\n') {
            let i = choose|i: int| 0 <= i < long.len() && long[i] == '\n';
            assert(line[i] == '\n');
        }
    }
    lemma_split_whole(long, '\n');
    lemma_split_around(long, none, '\n');
    assert(long.push('\n') + none =~= long.push('\n'));
    assert(split(long.push('\n'), '\n') =~= seq![long, none]);
    assert(lines_of(long.push('\n')) =~= seq![without_return(long)]);
    assert(long.drop_last() =~= line);
}

/// Text that follows a whole line adds its own lines.
pub proof fn law_lines_follow(start: Seq<char>, rest: Seq<char>)
    ensures
        lines_of(start.push('\n') + rest) == lines_of(start.push('\n')) + lines_of(rest),
{
    let none = Seq::<char>::empty();
    lemma_split_around(start, rest, '\n');
    lemma_split_around(start, none, '\n');
    lemma_split_whole(none, '\n');
    assert(start.push('\n') + none =~= start.push('\n'));
    lemma_split_pieces(start, '\n');
    lemma_split_pieces(rest, '\n');
    let a = split(start, '\n');
    let b = split(rest, '\n');
    assert(split(start.push('\n'), '\n') =~= a.push(none));
    assert(a.push(none).drop_last() =~= a);
    assert((a + b).drop_last() =~= a + b.drop_last());
    assert((a + b).last() == b.last());
    assert(lines_of(start.push('\n') + rest) =~= lines_of(start.push('\n')) + lines_of(rest));
}

/// The number that digits stand for.
pub open spec fn number_of(s: Seq<char>) -> int
    decreases s.len(),
{
    if s.len() == 0 {
        0
    } else {
        10 * number_of(s.drop_last()) + (s.last() as int - '0' as int)
    }
}

/// A number in decimal notation reads as that number, is made of the digits from `0` to
/// `9`, and has no zero too many before it.
pub proof fn law_decimal_reads_back(n: nat)
    ensures
        number_of(decimal_of(n)) == n,
        forall|k: int| 0 <= k < decimal_of(n).len() ==> '0' <= #[trigger] decimal_of(n)[k] <= '9',
        n > 0 ==> decimal_of(n)[0] != '0',
    decreases n,
{
    lemma_decimal_digits(n);
    let d = (n % 10) as int;
    assert(digit(d) as int == 0x30 + d) by {
        if d == 0 || d == 1 || d == 2 || d == 3 || d == 4 {
        } else {
            assert(d == 5 || d == 6 || d == 7 || d == 8 || d == 9);
        }
    }
    reveal_with_fuel(number_of, 2);
    if n < 10 {
        assert(decimal_of(n).drop_last() =~= Seq::empty());
    } else {
        law_decimal_reads_back(n / 10);
        lemma_decimal_digits(n / 10);
        assert(decimal_of(n).drop_last() =~= decimal_of(n / 10));
        assert(decimal_of(n)[0] == decimal_of(n / 10)[0]);
    }
}

/// Which characters are white space.
pub proof fn law_spaces(c: char)
    ensures
        c == ' ' || c == '\t' || c == '\n' || c == '\r' ==> is_space(c),
        0x21 <= c as u32 <= 0x7e ==> !is_space(c),
        is_space(c) <==> [
            0x09u32,
            0x0a,
            0x0b,
            0x0c,
            0x0d,
            0x20,
            0x85,
            0xa0,
            0x1680,
            0x2000,
            0x2001,
            0x2002,
            0x2003,
            0x2004,
            0x2005,
            0x2006,
            0x2007,
            0x2008,
            0x2009,
            0x200a,
            0x2028,
            0x2029,
            0x202f,
            0x205f,
            0x3000,
        ]@.contains(c as u32),
        is_control(c) <==> (c as u32) < 0x20 || 0x7f <= (c as u32) < 0xa0,
{
    let all = [
        0x09u32,
        0x0a,
        0x0b,
        0x0c,
        0x0d,
        0x20,
        0x85,
        0xa0,
        0x1680,
        0x2000,
        0x2001,
        0x2002,
        0x2003,
        0x2004,
        0x2005,
        0x2006,
        0x2007,
        0x2008,
        0x2009,
        0x200a,
        0x2028,
        0x2029,
        0x202f,
        0x205f,
        0x3000,
    ]@;
    assert(all.len() == 25);
    if is_space(c) {
        let n = c as u32;
        let k: int = if n <= 0x0d {
            n - 0x09
        } else if n == 0x20 {
            5
        } else if n == 0x85 {
            6
        } else if n == 0xa0 {
            7
        } else if n == 0x1680 {
            8
        } else if n <= 0x200a {
            9 + (n - 0x2000)
        } else if n == 0x2028 {
            20
        } else if n == 0x2029 {
            21
        } else if n == 0x202f {
            22
        } else if n == 0x205f {
            23
        } else {
            24
        };
        assert(all[k] == n);
    }
}

/// The number that hexadecimal digits write.
pub open spec fn hex_number(s: Seq<char>) -> int
    decreases s.len(),
{
    if s.len() == 0 {
        0
    } else {
        let c = s.last() as int;
        16 * hex_number(s.drop_last()) + if c < 'a' as int {
            c - '0' as int
        } else {
            c - 'a' as int + 10
        }
    }
}

/// A number that is written in hexadecimal digits reads back as the same.
pub proof fn law_hexadecimal_reads_back(n: nat)
    ensures
        hex_number(hexadecimal_of(n)) == n,
        forall|k: int|
            0 <= k < hexadecimal_of(n).len() ==> {
                let c = (#[trigger] hexadecimal_of(n)[k]) as u32;
                0x30 <= c <= 0x39 || 0x61 <= c <= 0x66
            },
        hexadecimal_of(n).len() > 0,
        n > 0 ==> hexadecimal_of(n)[0] != '0',
    decreases n,
{
    assert forall|d: int| 0 <= d < 16 implies (#[trigger] digit(d)) as u32 == if d < 10 {
        0x30 + d
    } else {
        0x57 + d
    } by {
        if d == 0 || d == 1 || d == 2 || d == 3 || d == 4 || d == 5 || d == 6 || d == 7 {
        } else {
            assert(d == 8 || d == 9 || d == 10 || d == 11 || d == 12 || d == 13 || d == 14 || d
                == 15);
        }
    }
    let s = hexadecimal_of(n);
    if n < 16 {
        assert(s.drop_last() =~= Seq::empty());
        assert(digit(n as int) as u32 == if n < 10 {
            0x30 + n
        } else {
            0x57 + n
        });
        reveal_with_fuel(hex_number, 2);
    } else {
        law_hexadecimal_reads_back(n / 16);
        let d = (n % 16) as int;
        assert(s.drop_last() =~= hexadecimal_of(n / 16));
        assert(s.last() == digit(d));
        assert(digit(d) as u32 == if d < 10 {
            0x30 + d
        } else {
            0x57 + d
        });
        assert forall|k: int| 0 <= k < s.len() implies {
            let c = (#[trigger] s[k]) as u32;
            0x30 <= c <= 0x39 || 0x61 <= c <= 0x66
        } by {
            if k < s.len() - 1 {
                assert(s[k] == hexadecimal_of(n / 16)[k]);
            }
        }
        assert(s[0] == hexadecimal_of(n / 16)[0]);
    }
}

/// How a character is shown: printable ones as they are, but for quotes and backslashes,
/// which a backslash precedes; tabs, line feeds and returns by their letters; every other
/// by its number, from which it reads back.
pub proof fn law_escaped(c: char)
    ensures
        c == '\t' ==> escaped(c) == "\\t"@,
        c == '\n' ==> escaped(c) == "\\n"@,
        c == '\r' ==> escaped(c) == "\\r"@,
        c == '\'' ==> escaped(c) == "\\'"@,
        c == '"' ==> escaped(c) == "\\\""@,
        c == '\\' ==> escaped(c) == "\\\\"@,
        ' ' as u32 <= c as u32 <= '~' as u32 && c != '\'' && c != '"' && c != '\\' ==> escaped(c)
            == seq![c],
        !(' ' as u32 <= c as u32 <= '~' as u32) && c != '\t' && c != '\n' && c != '\r' ==> {
            let s = escaped(c);
            &&& s.len() > 4 && s[0] == '\\' && s[1] == 'u' && s[2] == '{' && s.last() == '}'
            &&& hex_number(s.subrange(3, s.len() - 1)) == c as int
        },
{
    reveal_strlit("\\t");
    reveal_strlit("\\n");
    reveal_strlit("\\r");
    reveal_strlit("\\'");
    reveal_strlit("\\\"");
    reveal_strlit("\\\\");
    law_hexadecimal_reads_back(c as nat);
    if !(' ' as u32 <= c as u32 <= '~' as u32) && c != '\t' && c != '\n' && c != '\r' {
        let s = escaped(c);
        assert(s.subrange(3, s.len() - 1) =~= hexadecimal_of(c as nat));
    }
    if c == '\t' {
        assert(escaped(c) =~= "\\t"@);
    }
    if c == '\n' {
        assert(escaped(c) =~= "\\n"@);
    }
    if c == '\r' {
        assert(escaped(c) =~= "\\r"@);
    }
    if c == '\'' {
        assert(escaped(c) =~= "\\'"@);
    }
    if c == '"' {
        assert(escaped(c) =~= "\\\""@);
    }
    if c == '\\' {
        assert(escaped(c) =~= "\\\\"@);
    }
}

} // verus!
