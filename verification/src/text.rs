//! Character sequences: the string operations that the renderers are built on.
use vstd::prelude::*;
use vstd::utf8::encode_utf8;

verus! {

/// `String::push` appends one character.
pub assume_specification[ String::push ](s: &mut String, c: char)
    ensures
        final(s)@ == old(s)@.push(c),
;

/// Concatenation is associative; used left to right, so that what was appended piece by piece
/// equals what was appended at once.
pub broadcast proof fn lemma_concat_assoc<A>(a: Seq<A>, b: Seq<A>, c: Seq<A>)
    ensures
        #[trigger] (a + (b + c)) == a + b + c,
{
    assert(a + (b + c) =~= a + b + c);
}

/// Appending nothing changes nothing.
pub broadcast proof fn lemma_concat_empty<A>(a: Seq<A>)
    ensures
        #[trigger] (a + Seq::<A>::empty()) == a,
{
    assert(a + Seq::<A>::empty() =~= a);
}

/// `c`, `n` times.
pub open spec fn repeated(c: char, n: nat) -> Seq<char> {
    Seq::new(n, |i: int| c)
}

/// How many spaces fill a width of which something is used already.
pub open spec fn padding(width: nat, used: nat) -> nat {
    if used <= width {
        (width - used) as nat
    } else {
        0
    }
}

/// The number of bytes that the text takes in UTF-8.
pub open spec fn byte_len(s: Seq<char>) -> nat {
    encode_utf8(s).len()
}

/// A number in decimal digits, without leading zeros.
pub open spec fn decimal(n: nat) -> Seq<char>
    decreases n,
{
    if n < 10 {
        seq![('0' as u8 + n) as u8 as char]
    } else {
        decimal(n / 10).push(('0' as u8 + n % 10) as u8 as char)
    }
}

/// Unicode's `White_Space` property.
pub open spec fn is_white(c: char) -> bool {
    ||| '\u{9}' <= c <= '\u{d}'
    ||| c == ' '
    ||| c == '\u{85}'
    ||| c == '\u{a0}'
    ||| c == '\u{1680}'
    ||| '\u{2000}' <= c <= '\u{200a}'
    ||| c == '\u{2028}'
    ||| c == '\u{2029}'
    ||| c == '\u{202f}'
    ||| c == '\u{205f}'
    ||| c == '\u{3000}'
}

/// The text without the white space at its end.
pub open spec fn trimmed_end(s: Seq<char>) -> Seq<char>
    decreases s.len(),
{
    if s.len() > 0 && is_white(s.last()) {
        trimmed_end(s.drop_last())
    } else {
        s
    }
}

/// The text without the white space at its start.
pub open spec fn trimmed_start(s: Seq<char>) -> Seq<char>
    decreases s.len(),
{
    if s.len() > 0 && is_white(s[0]) {
        trimmed_start(s.skip(1))
    } else {
        s
    }
}

/// The text without the white space at either end.
pub open spec fn trimmed(s: Seq<char>) -> Seq<char> {
    trimmed_start(trimmed_end(s))
}

/// The text without the line feeds at its end.
pub open spec fn without_newlines(s: Seq<char>) -> Seq<char>
    decreases s.len(),
{
    if s.len() > 0 && s.last() == '\n' {
        without_newlines(s.drop_last())
    } else {
        s
    }
}

/// Whether `pattern` stands in `s` at position `i`.
pub open spec fn occurs_at(s: Seq<char>, pattern: Seq<char>, i: int) -> bool {
    &&& 0 <= i
    &&& i + pattern.len() <= s.len()
    &&& s.subrange(i, i + pattern.len()) == pattern
}

/// Whether `pattern` stands anywhere in `s`.
pub open spec fn contains_text(s: Seq<char>, pattern: Seq<char>) -> bool {
    exists|i: int| occurs_at(s, pattern, i)
}

/// The first position, from `from` on, at which `pattern` stands in `s`.
pub open spec fn find_from(s: Seq<char>, pattern: Seq<char>, from: int) -> Option<int>
    decreases s.len() - from + 1,
{
    if from + pattern.len() > s.len() {
        None
    } else if occurs_at(s, pattern, from) {
        Some(from)
    } else {
        find_from(s, pattern, from + 1)
    }
}

/// `s` with every occurrence of `pattern`, taken from the left and without overlap, replaced by
/// `replacement`. An empty pattern is replaced nowhere.
pub open spec fn replaced(s: Seq<char>, pattern: Seq<char>, replacement: Seq<char>) -> Seq<char>
    decreases s.len(),
{
    if pattern.len() == 0 || s.len() < pattern.len() {
        s
    } else if occurs_at(s, pattern, 0) {
        replacement + replaced(s.skip(pattern.len() as int), pattern, replacement)
    } else {
        s.take(1) + replaced(s.skip(1), pattern, replacement)
    }
}

/// One line without the carriage return that belongs to its line ending.
pub open spec fn without_cr(line: Seq<char>) -> Seq<char> {
    if line.len() > 0 && line.last() == '\r' {
        line.drop_last()
    } else {
        line
    }
}

/// The lines of a text. A line ends in a line feed, which a carriage return may precede; the
/// ending of the last line may be missing, and its bare carriage return is then kept.
pub open spec fn lines_of(s: Seq<char>) -> Seq<Seq<char>>
    decreases s.len(),
{
    if s.len() == 0 {
        Seq::empty()
    } else {
        match find_from(s, seq!['\n'], 0) {
            Some(i) => if 0 <= i < s.len() {
                seq![without_cr(s.take(i))] + lines_of(s.skip(i + 1))
            } else {
                Seq::empty()
            },
            None => seq![s],
        }
    }
}

/// The parts of a text between its line feeds, but for an empty last one.
pub open spec fn split_lines(s: Seq<char>) -> Seq<Seq<char>>
    decreases s.len(),
{
    if s.len() == 0 {
        Seq::empty()
    } else {
        match find_from(s, seq!['\n'], 0) {
            Some(i) => if 0 <= i < s.len() {
                seq![s.take(i)] + split_lines(s.skip(i + 1))
            } else {
                Seq::empty()
            },
            None => seq![s],
        }
    }
}

/// The characters of a text.
pub fn chars_of(s: &str) -> (chars: Vec<char>)
    ensures
        chars@ == s@,
{
    let mut chars: Vec<char> = Vec::new();
    for c in it: s.chars()
        invariant
            it.seq() == s@,
            chars@ == s@.take(it.index() as int),
    {
        chars.push(c);
    }
    assert(s@.take(s@.len() as int) =~= s@);
    chars
}

/// Appends characters to a text.
pub fn push_chars(out: &mut String, chars: &[char])
    ensures
        final(out)@ == old(out)@ + chars@,
{
    let mut i: usize = 0;
    assert(out@ =~= old(out)@ + chars@.take(0));
    while i < chars.len()
        invariant
            i <= chars@.len(),
            out@ == old(out)@ + chars@.take(i as int),
        decreases chars@.len() - i,
    {
        out.push(chars[i]);
        assert(out@ =~= old(out)@ + chars@.take(i + 1));
        i += 1;
    }
    assert(chars@.take(chars@.len() as int) =~= chars@);
}

/// The text that consists of the given characters.
pub fn string_of(chars: &[char]) -> (s: String)
    ensures
        s@ == chars@,
{
    let mut s = String::new();
    push_chars(&mut s, chars);
    assert(s@ =~= chars@);
    s
}

/// An owned copy of a text.
pub fn owned(s: &str) -> (r: String)
    ensures
        r@ == s@,
{
    let mut r = String::new();
    r.append(s);
    assert(r@ =~= s@);
    r
}

/// Appends `c`, `n` times.
pub fn push_repeated(out: &mut String, c: char, n: usize)
    ensures
        final(out)@ == old(out)@ + repeated(c, n as nat),
{
    let mut i: usize = 0;
    assert(out@ =~= old(out)@ + repeated(c, 0));
    while i < n
        invariant
            i <= n,
            out@ == old(out)@ + repeated(c, i as nat),
        decreases n - i,
    {
        out.push(c);
        i += 1;
        assert(out@ =~= old(out)@ + repeated(c, i as nat));
    }
}

/// `s.len()`: the number of bytes that a text takes.
pub fn byte_length(s: &str) -> (n: usize)
    ensures
        n == byte_len(s@),
{
    s.as_bytes().len()
}

/// Whether two texts are the same.
pub fn same_text(a: &str, b: &str) -> (r: bool)
    ensures
        r == (a@ == b@),
{
    let x = chars_of(a);
    let y = chars_of(b);
    if x.len() != y.len() {
        return false;
    }
    let mut i: usize = 0;
    while i < x.len()
        invariant
            i <= x@.len(),
            x@.len() == y@.len(),
            x@ == a@,
            y@ == b@,
            forall|j: int| 0 <= j < i ==> x@[j] == y@[j],
        decreases x@.len() - i,
    {
        if x[i] != y[i] {
            return false;
        }
        i += 1;
    }
    assert(x@ =~= y@);
    true
}

/// One decimal digit.
fn digit(d: u8) -> (c: char)
    requires
        d < 10,
    ensures
        c == ('0' as u8 + d) as u8 as char,
{
    (48u8 + d) as char
}

/// Appends a number in decimal digits.
pub fn push_decimal(out: &mut String, n: u8)
    ensures
        final(out)@ == old(out)@ + decimal(n as nat),
{
    reveal_with_fuel(decimal, 3);
    if n >= 100 {
        out.push(digit(n / 100));
    }
    if n >= 10 {
        out.push(digit(n / 10 % 10));
    }
    out.push(digit(n % 10));
    assert(out@ =~= old(out)@ + decimal(n as nat));
}

/// Whether a character is white space.
pub fn is_whitespace(c: char) -> (r: bool)
    ensures
        r == is_white(c),
{
    ('\u{9}' <= c && c <= '\u{d}') || c == ' ' || c == '\u{85}' || c == '\u{a0}' || c == '\u{1680}'
        || ('\u{2000}' <= c && c <= '\u{200a}') || c == '\u{2028}' || c == '\u{2029}' || c
        == '\u{202f}' || c == '\u{205f}' || c == '\u{3000}'
}

/// `s.trim_end()`.
pub fn trim_end(s: &str) -> (r: String)
    ensures
        r@ == trimmed_end(s@),
{
    let chars = chars_of(s);
    let mut end: usize = chars.len();
    assert(s@.take(end as int) =~= s@);
    while end > 0 && is_whitespace(chars[end - 1])
        invariant
            end <= chars@.len(),
            chars@ == s@,
            trimmed_end(s@) == trimmed_end(s@.take(end as int)),
        decreases end,
    {
        assert(s@.take(end as int).drop_last() =~= s@.take(end - 1));
        end -= 1;
    }
    let mut r = String::new();
    push_chars(&mut r, vstd::slice::slice_subrange(chars.as_slice(), 0, end));
    assert(r@ =~= s@.take(end as int));
    r
}

/// `s.trim_end_matches('\n')`.
pub fn trim_newlines(s: &str) -> (r: String)
    ensures
        r@ == without_newlines(s@),
{
    let chars = chars_of(s);
    let mut end: usize = chars.len();
    assert(s@.take(end as int) =~= s@);
    while end > 0 && chars[end - 1] == '\n'
        invariant
            end <= chars@.len(),
            chars@ == s@,
            without_newlines(s@) == without_newlines(s@.take(end as int)),
        decreases end,
    {
        assert(s@.take(end as int).drop_last() =~= s@.take(end - 1));
        end -= 1;
    }
    let mut r = String::new();
    push_chars(&mut r, vstd::slice::slice_subrange(chars.as_slice(), 0, end));
    assert(r@ =~= s@.take(end as int));
    r
}

/// `s.trim()`.
pub fn trim(s: &str) -> (r: String)
    ensures
        r@ == trimmed(s@),
{
    let t = trim_end(s);
    let chars = chars_of(t.as_str());
    let mut start: usize = 0;
    assert(t@.skip(0) =~= t@);
    while start < chars.len() && is_whitespace(chars[start])
        invariant
            start <= chars@.len(),
            chars@ == t@,
            trimmed_start(t@) == trimmed_start(t@.skip(start as int)),
        decreases chars@.len() - start,
    {
        assert(t@.skip(start as int).skip(1) =~= t@.skip(start + 1));
        start += 1;
    }
    let mut r = String::new();
    push_chars(&mut r, vstd::slice::slice_subrange(chars.as_slice(), start, chars.len()));
    assert(r@ =~= t@.skip(start as int));
    r
}

/// Whether `pattern` stands in `s` at position `i`.
pub fn matches_at(s: &[char], pattern: &[char], i: usize) -> (r: bool)
    requires
        i <= s@.len(),
    ensures
        r == occurs_at(s@, pattern@, i as int),
{
    if pattern.len() > s.len() - i {
        return false;
    }
    let mut j: usize = 0;
    while j < pattern.len()
        invariant
            i + pattern@.len() <= s@.len() <= usize::MAX,
            j <= pattern@.len(),
            forall|k: int| 0 <= k < j ==> s@[i + k] == pattern@[k],
        decreases pattern@.len() - j,
    {
        if s[i + j] != pattern[j] {
            assert(s@.subrange(i as int, i + pattern@.len())[j as int] != pattern@[j as int]);
            return false;
        }
        j += 1;
    }
    assert(s@.subrange(i as int, i + pattern@.len()) =~= pattern@);
    true
}

/// The first position, from `from` on, at which `pattern` stands in `s`.
pub fn find(s: &[char], pattern: &[char], from: usize) -> (r: Option<usize>)
    requires
        from <= s@.len(),
    ensures
        match r {
            Some(i) => find_from(s@, pattern@, from as int) == Some(i as int) && from <= i && i
                + pattern@.len() <= s@.len(),
            None => find_from(s@, pattern@, from as int) is None,
        },
{
    let mut i: usize = from;
    while i < s.len()
        invariant
            from <= i <= s@.len(),
            find_from(s@, pattern@, from as int) == find_from(s@, pattern@, i as int),
        decreases s@.len() - i,
    {
        if matches_at(s, pattern, i) {
            return Some(i);
        }
        i += 1;
    }
    if matches_at(s, pattern, i) {
        Some(i)
    } else {
        reveal_with_fuel(find_from, 2);
        None
    }
}

/// What [`find_from`] finds is an occurrence, and it finds one if there is any.
pub proof fn lemma_find_from(s: Seq<char>, pattern: Seq<char>, from: int)
    ensures
        match find_from(s, pattern, from) {
            Some(i) => from <= i && occurs_at(s, pattern, i) && forall|j: int|
                from <= j < i ==> !occurs_at(s, pattern, j),
            None => forall|j: int| from <= j ==> !occurs_at(s, pattern, j),
        },
    decreases s.len() - from + 1,
{
    if from + pattern.len() <= s.len() && !occurs_at(s, pattern, from) {
        lemma_find_from(s, pattern, from + 1);
    }
}

/// Whether `pattern` stands anywhere in `s`.
pub fn contains(s: &str, pattern: &str) -> (r: bool)
    ensures
        r == contains_text(s@, pattern@),
{
    let chars = chars_of(s);
    let wanted = chars_of(pattern);
    proof {
        lemma_find_from(s@, pattern@, 0);
    }
    match find(chars.as_slice(), wanted.as_slice(), 0) {
        Some(i) => {
            assert(occurs_at(s@, pattern@, i as int));
            true
        },
        None => false,
    }
}

/// `s` with every occurrence of `pattern`, taken from the left and without overlap, replaced by
/// `replacement`.
pub fn replace(s: &[char], pattern: &str, replacement: &str) -> (r: Vec<char>)
    ensures
        r@ == replaced(s@, pattern@, replacement@),
{
    broadcast use lemma_concat_assoc;

    let wanted = chars_of(pattern);
    let put = chars_of(replacement);
    let mut r: Vec<char> = Vec::new();
    let mut i: usize = 0;
    assert(s@.skip(0) =~= s@);
    assert(r@ + replaced(s@, pattern@, replacement@) =~= replaced(s@, pattern@, replacement@));
    if wanted.len() > 0 {
        while i < s.len() && wanted.len() <= s.len() - i
            invariant
                i <= s@.len(),
                wanted@ == pattern@,
                put@ == replacement@,
                wanted@.len() > 0,
                replaced(s@, pattern@, replacement@) == r@ + replaced(
                    s@.skip(i as int),
                    pattern@,
                    replacement@,
                ),
            decreases s@.len() - i,
        {
            let ghost rest = s@.skip(i as int);
            assert(occurs_at(s@, pattern@, i as int) == occurs_at(rest, pattern@, 0)) by {
                assert(rest.subrange(0, pattern@.len() as int) =~= s@.subrange(
                    i as int,
                    i + pattern@.len(),
                ));
            }
            if matches_at(s, wanted.as_slice(), i) {
                extend(&mut r, put.as_slice());
                assert(rest.skip(pattern@.len() as int) =~= s@.skip(i + pattern@.len()));
                i += wanted.len();
            } else {
                r.push(s[i]);
                assert(r@ =~= r@.drop_last() + rest.take(1));
                assert(rest.skip(1) =~= s@.skip(i + 1));
                i += 1;
            }
        }
    }
    assert(replaced(s@, pattern@, replacement@) == r@ + s@.skip(i as int));
    extend(&mut r, vstd::slice::slice_subrange(s, i, s.len()));
    assert(s@.subrange(i as int, s@.len() as int) =~= s@.skip(i as int));
    r
}

/// Appends characters to a vector of them.
pub fn extend(out: &mut Vec<char>, chars: &[char])
    ensures
        final(out)@ == old(out)@ + chars@,
{
    let mut i: usize = 0;
    assert(out@ =~= old(out)@ + chars@.take(0));
    while i < chars.len()
        invariant
            i <= chars@.len(),
            out@ == old(out)@ + chars@.take(i as int),
        decreases chars@.len() - i,
    {
        out.push(chars[i]);
        assert(out@ =~= old(out)@ + chars@.take(i + 1));
        i += 1;
    }
    assert(chars@.take(chars@.len() as int) =~= chars@);
}

/// `s.lines()`.
pub fn lines(s: &str) -> (r: Vec<String>)
    ensures
        r.deep_view() == lines_of(s@),
{
    broadcast use lemma_concat_assoc;

    let chars = chars_of(s);
    let newline: Vec<char> = vec!['\n'];
    assert(newline@ =~= seq!['\n']);
    let mut r: Vec<String> = Vec::new();
    let mut i: usize = 0;
    assert(s@.skip(0) =~= s@);
    assert(r.deep_view() + lines_of(s@) =~= lines_of(s@));
    while i < chars.len()
        invariant
            i <= chars@.len(),
            chars@ == s@,
            newline@ == seq!['\n'],
            lines_of(s@) == r.deep_view() + lines_of(s@.skip(i as int)),
        decreases chars@.len() - i,
    {
        let ghost rest = s@.skip(i as int);
        let ghost before = r.deep_view();
        proof {
            lemma_find_from_shift(s@, seq!['\n'], i as int, 0);
            lemma_find_from(s@, seq!['\n'], i as int);
        }
        match find(chars.as_slice(), newline.as_slice(), i) {
            Some(k) => {
                let end: usize = if k > i && chars[k - 1] == '\r' {
                    k - 1
                } else {
                    k
                };
                r.push(string_of(vstd::slice::slice_subrange(chars.as_slice(), i, end)));
                assert(r@[r@.len() - 1]@ =~= without_cr(rest.take(k - i)));
                assert(rest.skip(k - i + 1) =~= s@.skip(k + 1));
                assert(r.deep_view() =~= before + seq![without_cr(rest.take(k - i))]);
                i = k + 1;
            },
            None => {
                r.push(string_of(vstd::slice::slice_subrange(chars.as_slice(), i, chars.len())));
                assert(r@[r@.len() - 1]@ =~= rest);
                assert(r.deep_view() =~= before + seq![rest]);
                i = chars.len();
                assert(lines_of(s@.skip(i as int)) =~= Seq::empty());
                assert(r.deep_view() + lines_of(s@.skip(i as int)) =~= r.deep_view());
            },
        }
    }
    assert(r.deep_view() + lines_of(s@.skip(i as int)) =~= r.deep_view());
    r
}

/// Searching a text from a position on is searching the rest of it.
pub proof fn lemma_find_from_shift(s: Seq<char>, pattern: Seq<char>, start: int, from: int)
    requires
        0 <= start <= s.len(),
        0 <= from,
    ensures
        find_from(s.skip(start), pattern, from) == match find_from(s, pattern, start + from) {
            Some(i) => Some(i - start),
            None => None,
        },
    decreases s.len() - start - from + 1,
{
    let rest = s.skip(start);
    if from + pattern.len() <= rest.len() {
        assert(rest.subrange(from, from + pattern.len()) =~= s.subrange(
            start + from,
            start + from + pattern.len(),
        ));
        if !occurs_at(rest, pattern, from) {
            lemma_find_from_shift(s, pattern, start, from + 1);
        }
    }
}

/// A text has no more characters than bytes.
pub proof fn lemma_chars_fit_bytes(s: Seq<char>)
    ensures
        s.len() <= byte_len(s),
    decreases s.len(),
{
    if s.len() > 0 {
        lemma_chars_fit_bytes(s.drop_first());
    }
}

/// A text without white space at its end has none at its end either when white space is taken from
/// its start.
proof fn lemma_trimmed_start_keeps_end(s: Seq<char>)
    requires
        s.len() > 0 ==> !is_white(s.last()),
    ensures
        trimmed_start(s).len() > 0 ==> !is_white(trimmed_start(s).last()),
        trimmed_start(s).len() > 0 ==> !is_white(trimmed_start(s)[0]),
    decreases s.len(),
{
    if s.len() > 0 && is_white(s[0]) {
        assert(s.skip(1).len() > 0 ==> s.skip(1).last() == s.last());
        lemma_trimmed_start_keeps_end(s.skip(1));
    }
}

/// A text without white space at its end ends in none.
proof fn lemma_trimmed_end(s: Seq<char>)
    ensures
        trimmed_end(s).len() > 0 ==> !is_white(trimmed_end(s).last()),
    decreases s.len(),
{
    if s.len() > 0 && is_white(s.last()) {
        lemma_trimmed_end(s.drop_last());
    }
}

/// A trimmed text neither starts nor ends in white space, and to trim it again changes nothing.
pub proof fn law_trimmed_is_trimmed(s: Seq<char>)
    ensures
        trimmed(s).len() > 0 ==> !is_white(trimmed(s)[0]) && !is_white(trimmed(s).last()),
        trimmed(trimmed(s)) == trimmed(s),
{
    lemma_trimmed_end(s);
    lemma_trimmed_start_keeps_end(trimmed_end(s));
}

/// White space is what Unicode takes for it.
pub proof fn law_white_space(c: char)
    ensures
        is_white(c) <==> {
            ||| 0x9 <= c as u32 <= 0xd
            ||| 0x2000 <= c as u32 <= 0x200a
            ||| set![
                0x20u32,
                0x85,
                0xa0,
                0x1680,
                0x2028,
                0x2029,
                0x202f,
                0x205f,
                0x3000,
            ].contains(c as u32)
        },
{
}

/// Whether a text is white space alone.
pub open spec fn all_white(s: Seq<char>) -> bool {
    forall|i: int| 0 <= i < s.len() ==> is_white(#[trigger] s[i])
}

/// Whether a text has characters and neither starts nor ends in white space.
pub open spec fn is_tight(s: Seq<char>) -> bool {
    s.len() > 0 && !is_white(s[0]) && !is_white(s.last())
}

/// White space at the end goes, and nothing else.
pub proof fn law_trimmed_end_drops_white_space(s: Seq<char>, after: Seq<char>)
    requires
        s.len() > 0 ==> !is_white(s.last()),
        all_white(after),
    ensures
        trimmed_end(s + after) == s,
    decreases after.len(),
{
    let all = s + after;
    if after.len() == 0 {
        assert(all =~= s);
    } else {
        assert(is_white(after[after.len() - 1]));
        assert(all.drop_last() =~= s + after.drop_last());
        assert forall|i: int| 0 <= i < after.drop_last().len() implies is_white(
            #[trigger] after.drop_last()[i],
        ) by {
            assert(after.drop_last()[i] == after[i]);
        }
        law_trimmed_end_drops_white_space(s, after.drop_last());
    }
}

/// White space at the start goes, and nothing else.
proof fn lemma_trimmed_start_drops_white_space(before: Seq<char>, s: Seq<char>)
    requires
        s.len() > 0 ==> !is_white(s[0]),
        all_white(before),
    ensures
        trimmed_start(before + s) == s,
    decreases before.len(),
{
    let all = before + s;
    if before.len() == 0 {
        assert(all =~= s);
    } else {
        assert(is_white(before[0]));
        assert(all.skip(1) =~= before.skip(1) + s);
        assert forall|i: int| 0 <= i < before.skip(1).len() implies is_white(
            #[trigger] before.skip(1)[i],
        ) by {
            assert(before.skip(1)[i] == before[i + 1]);
        }
        lemma_trimmed_start_drops_white_space(before.skip(1), s);
    }
}

/// White space at both ends goes, and nothing else.
pub proof fn law_trimmed_drops_white_space(before: Seq<char>, s: Seq<char>, after: Seq<char>)
    requires
        all_white(before),
        s.len() == 0 || is_tight(s),
        all_white(after),
    ensures
        trimmed(before + s + after) == s,
{
    if s.len() == 0 {
        let all = before + s + after;
        assert(all =~= Seq::<char>::empty() + (before + after));
        assert forall|i: int| 0 <= i < (before + after).len() implies is_white(
            #[trigger] (before + after)[i],
        ) by {
            if i < before.len() {
                assert(is_white(before[i]));
            } else {
                assert(is_white(after[i - before.len()]));
            }
        }
        law_trimmed_end_drops_white_space(Seq::empty(), before + after);
        assert(s =~= Seq::<char>::empty());
    } else {
        law_trimmed_end_drops_white_space(before + s, after);
        lemma_trimmed_start_drops_white_space(before, s);
    }
}

/// Line feeds at the end go, and nothing else.
pub proof fn law_without_newlines_drops_line_feeds(s: Seq<char>, n: nat)
    requires
        s.len() > 0 ==> s.last() != '\n',
    ensures
        without_newlines(s + repeated('\n', n)) == s,
    decreases n,
{
    let all = s + repeated('\n', n);
    if n == 0 {
        assert(all =~= s);
    } else {
        assert(all.drop_last() =~= s + repeated('\n', (n - 1) as nat));
        law_without_newlines_drops_line_feeds(s, (n - 1) as nat);
    }
}

/// Whether a text holds no line feed.
pub open spec fn is_one_line(s: Seq<char>) -> bool {
    forall|i: int| 0 <= i < s.len() ==> #[trigger] s[i] != '\n'
}

/// A line feed stands exactly where the character is one.
proof fn lemma_line_feed_at(s: Seq<char>, i: int)
    ensures
        occurs_at(s, seq!['\n'], i) <==> 0 <= i < s.len() && s[i] == '\n',
{
    if 0 <= i < s.len() {
        assert(s.subrange(i, i + 1) =~= seq![s[i]]);
        if s[i] == '\n' {
            assert(s.subrange(i, i + 1) =~= seq!['\n']);
        } else {
            assert(s.subrange(i, i + 1)[0] != seq!['\n'][0]);
        }
    }
}

/// From some position on, the first line feed is the one that no other is before.
proof fn lemma_find_line_feed(s: Seq<char>, from: int, at: int)
    requires
        0 <= from <= at <= s.len(),
        at < s.len() ==> s[at] == '\n',
        forall|i: int| from <= i < at ==> #[trigger] s[i] != '\n',
    ensures
        find_from(s, seq!['\n'], from) == if at < s.len() {
            Some(at)
        } else {
            None
        },
    decreases at - from,
{
    lemma_line_feed_at(s, from);
    if from < at {
        assert(s[from] != '\n');
        lemma_find_line_feed(s, from + 1, at);
    }
}

/// The first line feed behind a line is at its end.
proof fn lemma_find_line_end(line: Seq<char>, rest: Seq<char>)
    requires
        is_one_line(line),
    ensures
        find_from(line + seq!['\n'] + rest, seq!['\n'], 0) == Some(line.len() as int),
{
    let s = line + seq!['\n'] + rest;
    assert forall|i: int| 0 <= i < line.len() implies #[trigger] s[i] != '\n' by {
        assert(s[i] == line[i]);
    }
    lemma_find_line_feed(s, 0, line.len() as int);
}

/// There is no line feed to be found in a line.
proof fn lemma_no_line_end(line: Seq<char>)
    requires
        is_one_line(line),
    ensures
        find_from(line, seq!['\n'], 0) is None,
{
    lemma_find_line_feed(line, 0, line.len() as int);
}

/// A text is cut at its line ends: at each line feed, with one carriage return before it or without
/// any. Nothing else is changed, and an end after the last line starts no further one.
pub proof fn law_lines_are_cut_at_line_ends(line: Seq<char>, rest: Seq<char>)
    requires
        is_one_line(line),
    ensures
        !(line.len() > 0 && line.last() == '\r') ==> lines_of(line + seq!['\n'] + rest) == seq![line]
            + lines_of(rest),
        lines_of(line + seq!['\r', '\n'] + rest) == seq![line] + lines_of(rest),
        line.len() > 0 ==> lines_of(line) == seq![line],
        lines_of(Seq::empty()) == Seq::<Seq<char>>::empty(),
{
    let a = line + seq!['\n'] + rest;
    lemma_find_line_end(line, rest);
    assert(a.take(line.len() as int) =~= line);
    assert(a.skip(line.len() as int + 1) =~= rest);
    let longer = line + seq!['\r'];
    let b = line + seq!['\r', '\n'] + rest;
    assert(b =~= longer + seq!['\n'] + rest);
    assert(is_one_line(longer)) by {
        assert forall|i: int| 0 <= i < longer.len() implies #[trigger] longer[i] != '\n' by {
            if i < line.len() {
                assert(longer[i] == line[i]);
            }
        }
    }
    lemma_find_line_end(longer, rest);
    assert(b.take(longer.len() as int) =~= longer);
    assert(longer.drop_last() =~= line);
    assert(b.skip(longer.len() as int + 1) =~= rest);
    lemma_no_line_end(line);
}

/// A text is split at its line feeds. Nothing else is changed, and a line feed at the end starts no
/// further part.
pub proof fn law_text_is_split_at_line_feeds(line: Seq<char>, rest: Seq<char>)
    requires
        is_one_line(line),
    ensures
        split_lines(line + seq!['\n'] + rest) == seq![line] + split_lines(rest),
        line.len() > 0 ==> split_lines(line) == seq![line],
        split_lines(Seq::empty()) == Seq::<Seq<char>>::empty(),
{
    let a = line + seq!['\n'] + rest;
    lemma_find_line_end(line, rest);
    assert(a.take(line.len() as int) =~= line);
    assert(a.skip(line.len() as int + 1) =~= rest);
    lemma_no_line_end(line);
}

/// A text in which the pattern does not stand is left as it is.
pub proof fn law_replaced_nowhere(s: Seq<char>, pattern: Seq<char>, replacement: Seq<char>)
    requires
        !contains_text(s, pattern),
    ensures
        replaced(s, pattern, replacement) == s,
    decreases s.len(),
{
    if pattern.len() > 0 && s.len() >= pattern.len() {
        assert(!occurs_at(s, pattern, 0));
        let rest = s.skip(1);
        assert forall|i: int| !occurs_at(rest, pattern, i) by {
            if occurs_at(rest, pattern, i) {
                assert(rest.subrange(i, i + pattern.len()) =~= s.subrange(
                    i + 1,
                    i + 1 + pattern.len(),
                ));
                assert(occurs_at(s, pattern, i + 1));
            }
        }
        law_replaced_nowhere(rest, pattern, replacement);
        assert(s.take(1) + rest =~= s);
    }
}

/// The first place at which the pattern stands is replaced, what is before it is left as it is, and
/// what is behind it is replaced in the same way.
pub proof fn law_replaced_at_first_place(
    before: Seq<char>,
    pattern: Seq<char>,
    after: Seq<char>,
    replacement: Seq<char>,
)
    requires
        pattern.len() > 0,
        forall|i: int|
            0 <= i < before.len() ==> !#[trigger] occurs_at(before + pattern + after, pattern, i),
    ensures
        replaced(before + pattern + after, pattern, replacement) == before + replacement + replaced(
            after,
            pattern,
            replacement,
        ),
    decreases before.len(),
{
    let s = before + pattern + after;
    if before.len() == 0 {
        assert(s.subrange(0, pattern.len() as int) =~= pattern);
        assert(s.skip(pattern.len() as int) =~= after);
        assert(before + replacement =~= replacement);
    } else {
        let less = before.skip(1);
        let rest = less + pattern + after;
        assert(s.skip(1) =~= rest);
        assert forall|i: int| 0 <= i < less.len() implies !#[trigger] occurs_at(
            less + pattern + after,
            pattern,
            i,
        ) by {
            if occurs_at(rest, pattern, i) {
                assert(rest.subrange(i, i + pattern.len()) =~= s.subrange(
                    i + 1,
                    i + 1 + pattern.len(),
                ));
                assert(occurs_at(s, pattern, i + 1));
            }
        }
        assert(!occurs_at(s, pattern, 0));
        law_replaced_at_first_place(less, pattern, after, replacement);
        assert(s.take(1) + (less + replacement + replaced(after, pattern, replacement)) =~= before
            + replacement + replaced(after, pattern, replacement));
    }
}

/// A text holds exactly the patterns that something stands before and behind in it.
pub proof fn law_contains_what_stands_in_it(before: Seq<char>, pattern: Seq<char>, after: Seq<char>)
    ensures
        contains_text(before + pattern + after, pattern),
        forall|s: Seq<char>| #[trigger]
            contains_text(s, pattern) ==> exists|a: Seq<char>, b: Seq<char>|
                s == #[trigger] (a + pattern + b),
{
    let all = before + pattern + after;
    assert(all.subrange(before.len() as int, before.len() as int + pattern.len()) =~= pattern);
    assert(occurs_at(all, pattern, before.len() as int));
    assert forall|s: Seq<char>| #[trigger] contains_text(s, pattern) implies exists|
        a: Seq<char>,
        b: Seq<char>,
    | s == #[trigger] (a + pattern + b) by {
        let i = choose|i: int| occurs_at(s, pattern, i);
        assert(s =~= s.take(i) + pattern + s.skip(i + pattern.len()));
    }
}

/// The number that decimal digits stand for.
pub open spec fn digits_value(digits: Seq<char>) -> int
    decreases digits.len(),
{
    if digits.len() == 0 {
        0
    } else {
        digits_value(digits.drop_last()) * 10 + (digits.last() as u32 - '0' as u32)
    }
}

/// A number is written in digits that stand for it, without zeros before it.
pub proof fn law_decimal_stands_for_the_number(n: nat)
    ensures
        digits_value(decimal(n)) == n,
        decimal(n).len() > 0,
        decimal(n)[0] == '0' ==> decimal(n) == seq!['0'],
        forall|i: int| 0 <= i < decimal(n).len() ==> '0' <= #[trigger] decimal(n)[i] <= '9',
    decreases n,
{
    let last = ('0' as u8 + n % 10) as u8 as char;
    assert(last as u32 == '0' as u32 + n % 10);
    if n < 10 {
        assert(decimal(n).drop_last() =~= Seq::empty());
        assert(digits_value(decimal(n).drop_last()) == 0);
        assert(decimal(n) =~= seq![last]);
        if last == '0' {
            assert(decimal(n) =~= seq!['0']);
        }
    } else {
        law_decimal_stands_for_the_number(n / 10);
        assert(decimal(n).drop_last() =~= decimal(n / 10));
        if decimal(n / 10)[0] == '0' {
            assert(decimal(n / 10).drop_last() =~= Seq::empty());
            assert(digits_value(decimal(n / 10).drop_last()) == 0);
            assert(decimal(n / 10).last() == '0');
        }
    }
}

/// What is used and the padding together are as wide as the width, or as what is used where that is
/// more; and a repeated character stands there as often as it is repeated.
pub proof fn law_padding_fills_the_width(width: nat, used: nat, c: char)
    ensures
        used <= width ==> used + padding(width, used) == width,
        used > width ==> padding(width, used) == 0,
        repeated(c, width).len() == width,
        forall|i: int| 0 <= i < width ==> #[trigger] repeated(c, width)[i] == c,
{
}

} // verus!
