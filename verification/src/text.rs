//! Text: splitting, trimming, joining, and numbers in decimal.

use vstd::prelude::*;

verus! {

/// `String::push` appends one character to the string.
pub assume_specification[ String::push ](s: &mut String, c: char)
    ensures
        final(s)@ == old(s)@.push(c),
;

/// The contents of a list of strings.
pub open spec fn texts(v: Seq<String>) -> Seq<Seq<char>> {
    Seq::new(v.len(), |i: int| v[i]@)
}

/// The characters of a string.
pub fn chars_of(s: &str) -> (r: Vec<char>)
    ensures
        r@ == s@,
{
    let mut r: Vec<char> = Vec::new();
    for c in it: s.chars()
        invariant
            r@ == it.seq().take(it.index()),
            it.seq() == s@,
    {
        r.push(c);
        assert(it.seq().take(it.index() + 1) == it.seq().take(it.index()).push(c));
    }
    assert(r@ =~= s@);
    r
}

/// The string of the characters from `from` up to `to`.
pub fn string_of(chars: &Vec<char>, from: usize, to: usize) -> (r: String)
    requires
        from <= to <= chars@.len(),
    ensures
        r@ == chars@.subrange(from as int, to as int),
{
    let mut r = String::new();
    let mut i: usize = from;
    while i < to
        invariant
            from <= i <= to <= chars@.len(),
            r@ == chars@.subrange(from as int, i as int),
        decreases to - i,
    {
        r.push(chars[i]);
        assert(chars@.subrange(from as int, i + 1) =~= chars@.subrange(from as int, i as int).push(
            chars@[i as int],
        ));
        i = i + 1;
    }
    r
}

/// Whether two strings are the same.
pub fn same(a: &str, b: &str) -> (r: bool)
    ensures
        r == (a@ == b@),
{
    a.to_owned() == b.to_owned()
}

/// The characters with the Unicode property `White_Space`.
pub open spec fn is_space(c: char) -> bool {
    ||| '\u{9}' <= c <= '\u{d}'
    ||| c == ' '
    ||| c == '\u{85}'
    ||| c == '\u{a0}'
    ||| c == '\u{1680}'
    ||| '\u{2000}' <= c <= '\u{200a}'
    ||| c == '\u{2028}'
    ||| c == '\u{2029}'
    ||| c == '\u{202f}'
    ||| c == '\u{205f}'
    ||| c == '\u{3000}'
}

/// Whether a character is white space.
fn white(c: char) -> (r: bool)
    ensures
        r == is_space(c),
{
    ('\u{9}' <= c && c <= '\u{d}') || c == ' ' || c == '\u{85}' || c == '\u{a0}' || c == '\u{1680}'
        || ('\u{2000}' <= c && c <= '\u{200a}') || c == '\u{2028}' || c == '\u{2029}' || c
        == '\u{202f}' || c == '\u{205f}' || c == '\u{3000}'
}

/// `s` without the white space at its beginning.
pub open spec fn trimmed_start(s: Seq<char>) -> Seq<char>
    decreases s.len(),
{
    if s.len() > 0 && is_space(s[0]) {
        trimmed_start(s.drop_first())
    } else {
        s
    }
}

/// `s` without the white space at its end.
pub open spec fn trimmed_end(s: Seq<char>) -> Seq<char>
    decreases s.len(),
{
    if s.len() > 0 && is_space(s.last()) {
        trimmed_end(s.drop_last())
    } else {
        s
    }
}

/// `s` without the white space at both ends.
pub open spec fn trimmed(s: Seq<char>) -> Seq<char> {
    trimmed_end(trimmed_start(s))
}

/// The string without the white space at both ends.
pub fn trim(s: &str) -> (r: String)
    ensures
        r@ == trimmed(s@),
{
    let chars = chars_of(s);
    let n: usize = chars.len();
    let mut from: usize = 0;
    assert(chars@.skip(0) =~= chars@);
    while from < n && white(chars[from])
        invariant
            from <= n,
            n == chars@.len(),
            trimmed_start(chars@) == trimmed_start(chars@.skip(from as int)),
        decreases n - from,
    {
        assert(chars@.skip(from as int).drop_first() =~= chars@.skip(from + 1));
        from = from + 1;
    }
    assert(trimmed_start(chars@) == chars@.skip(from as int));
    assert(chars@.skip(from as int) =~= chars@.subrange(from as int, n as int));
    let mut to: usize = n;
    while to > from && white(chars[to - 1])
        invariant
            from <= to <= n,
            n == chars@.len(),
            trimmed(chars@) == trimmed_end(chars@.subrange(from as int, to as int)),
        decreases to,
    {
        assert(chars@.subrange(from as int, to as int).drop_last() =~= chars@.subrange(
            from as int,
            to - 1,
        ));
        to = to - 1;
    }
    string_of(&chars, from, to)
}

/// What is left after trimming the beginning does not begin with white space.
proof fn lemma_trimmed_start(s: Seq<char>)
    ensures
        trimmed_start(s).len() > 0 ==> !is_space(trimmed_start(s)[0]),
    decreases s.len(),
{
    if s.len() > 0 && is_space(s[0]) {
        lemma_trimmed_start(s.drop_first());
    }
}

/// What is left after trimming the end is a beginning of the text that does not end with white
/// space.
proof fn lemma_trimmed_end(s: Seq<char>)
    ensures
        trimmed_end(s).is_prefix_of(s),
        trimmed_end(s).len() > 0 ==> !is_space(trimmed_end(s).last()),
    decreases s.len(),
{
    if s.len() > 0 && is_space(s.last()) {
        lemma_trimmed_end(s.drop_last());
    }
}

/// Trimming a trimmed text changes nothing.
pub proof fn law_trim_is_idempotent(s: Seq<char>)
    ensures
        trimmed(trimmed(s)) == trimmed(s),
{
    let a = trimmed_start(s);
    let b = trimmed_end(a);
    lemma_trimmed_start(s);
    lemma_trimmed_end(a);
    if b.len() > 0 {
        assert(b[0] == a[0]);
    }
    assert(trimmed_start(b) == b);
    assert(trimmed_end(b) == b);
}

/// The parts of `s` between the occurrences of `sep`, of which there is always at least one.
pub open spec fn split_parts(s: Seq<char>, sep: char) -> Seq<Seq<char>>
    decreases s.len(),
{
    if s.len() == 0 {
        seq![Seq::empty()]
    } else {
        let parts = split_parts(s.drop_last(), sep);
        if s.last() == sep {
            parts.push(Seq::empty())
        } else {
            parts.drop_last().push(parts.last().push(s.last()))
        }
    }
}

/// The parts one after the other, with `sep` between them.
pub open spec fn joined(parts: Seq<Seq<char>>, sep: Seq<char>) -> Seq<char>
    decreases parts.len(),
{
    if parts.len() == 0 {
        Seq::empty()
    } else if parts.len() == 1 {
        parts[0]
    } else {
        joined(parts.drop_last(), sep) + sep + parts.last()
    }
}

/// The parts of the string between the occurrences of `sep`.
pub fn split(s: &str, sep: char) -> (r: Vec<String>)
    ensures
        texts(r@) == split_parts(s@, sep),
{
    let chars = chars_of(s);
    let n: usize = chars.len();
    let mut parts: Vec<String> = Vec::new();
    let mut part = String::new();
    let mut i: usize = 0;
    assert(texts(parts@).push(part@) =~= split_parts(chars@.take(0), sep));
    while i < n
        invariant
            i <= n,
            n == chars@.len(),
            texts(parts@).push(part@) == split_parts(chars@.take(i as int), sep),
        decreases n - i,
    {
        let ghost before = texts(parts@).push(part@);
        assert(chars@.take(i + 1).drop_last() =~= chars@.take(i as int));
        assert(before.drop_last() =~= texts(parts@));
        if chars[i] == sep {
            parts.push(part);
            part = String::new();
            assert(texts(parts@) =~= before);
        } else {
            part.push(chars[i]);
        }
        i = i + 1;
    }
    assert(chars@.take(n as int) =~= chars@);
    let ghost before = texts(parts@).push(part@);
    parts.push(part);
    assert(texts(parts@) =~= before);
    parts
}

/// There is always a part, and no part contains the separator.
pub proof fn lemma_split_parts(s: Seq<char>, sep: char)
    ensures
        split_parts(s, sep).len() > 0,
        forall|i: int|
            0 <= i < split_parts(s, sep).len() ==> !(#[trigger] split_parts(s, sep)[i]).contains(
                sep,
            ),
    decreases s.len(),
{
    if s.len() > 0 {
        lemma_split_parts(s.drop_last(), sep);
        let parts = split_parts(s.drop_last(), sep);
        let after = split_parts(s, sep);
        assert forall|i: int| 0 <= i < after.len() implies !(#[trigger] after[i]).contains(sep) by {
            if s.last() == sep {
                if i < parts.len() {
                    assert(after[i] == parts[i]);
                }
            } else if i < parts.len() - 1 {
                assert(after[i] == parts[i]);
            } else {
                let last = parts.last();
                assert(after[i] == last.push(s.last()));
                assert(!parts[parts.len() - 1].contains(sep));
                if after[i].contains(sep) {
                    let k = choose|k: int| 0 <= k < after[i].len() && after[i][k] == sep;
                    assert(last[k] == sep);
                    assert(last.contains(sep));
                }
            }
        }
    }
}

/// Joining the parts with the separator gives the text back.
pub proof fn law_join_of_split(s: Seq<char>, sep: char)
    ensures
        joined(split_parts(s, sep), seq![sep]) == s,
    decreases s.len(),
{
    if s.len() == 0 {
        assert(joined(split_parts(s, sep), seq![sep]) =~= s);
    } else {
        law_join_of_split(s.drop_last(), sep);
        lemma_split_parts(s.drop_last(), sep);
        let parts = split_parts(s.drop_last(), sep);
        let after = split_parts(s, sep);
        if s.last() == sep {
            assert(after.drop_last() =~= parts);
            assert(joined(after, seq![sep]) =~= s);
        } else {
            assert(after.drop_last() =~= parts.drop_last());
            assert(s =~= s.drop_last().push(s.last()));
            if parts.len() == 1 {
                assert(after[0] == parts[0].push(s.last()));
            } else {
                let head = joined(parts.drop_last(), seq![sep]) + seq![sep];
                assert(head + parts.last().push(s.last()) =~= (head + parts.last()).push(s.last()));
            }
        }
    }
}

/// Text without a separator only lengthens the last part.
pub proof fn lemma_split_extend(a: Seq<char>, b: Seq<char>, sep: char)
    requires
        !b.contains(sep),
    ensures
        split_parts(a + b, sep) == split_parts(a, sep).drop_last().push(
            split_parts(a, sep).last() + b,
        ),
    decreases b.len(),
{
    lemma_split_parts(a, sep);
    let parts = split_parts(a, sep);
    if b.len() == 0 {
        assert(a + b =~= a);
        assert(parts.last() + b =~= parts.last());
        assert(parts.drop_last().push(parts.last()) =~= parts);
    } else {
        let init = b.drop_last();
        assert(!init.contains(sep)) by {
            if init.contains(sep) {
                let k = choose|k: int| 0 <= k < init.len() && init[k] == sep;
                assert(b[k] == sep);
            }
        }
        lemma_split_extend(a, init, sep);
        assert((a + b).drop_last() =~= a + init);
        assert(b.last() != sep) by {
            assert(b[b.len() - 1] == b.last());
        }
        let before = split_parts(a + init, sep);
        assert(before.drop_last() =~= parts.drop_last());
        assert((parts.last() + init).push(b.last()) =~= parts.last() + b);
    }
}

/// A separator starts a new part.
pub proof fn lemma_split_separator(a: Seq<char>, sep: char)
    ensures
        split_parts(a.push(sep), sep) == split_parts(a, sep).push(Seq::empty()),
{
    assert(a.push(sep).drop_last() =~= a);
}

/// Splitting joined parts gives them back, if none of them contains the separator.
pub proof fn law_split_of_join(parts: Seq<Seq<char>>, sep: char)
    requires
        parts.len() > 0,
        forall|i: int| 0 <= i < parts.len() ==> !(#[trigger] parts[i]).contains(sep),
    ensures
        split_parts(joined(parts, seq![sep]), sep) == parts,
    decreases parts.len(),
{
    let last = parts.last();
    assert(!parts[parts.len() - 1].contains(sep));
    if parts.len() == 1 {
        lemma_split_extend(Seq::empty(), last, sep);
        assert(Seq::<char>::empty() + last =~= last);
        assert(split_parts(last, sep) =~= parts);
    } else {
        let init = parts.drop_last();
        assert forall|i: int| 0 <= i < init.len() implies !(#[trigger] init[i]).contains(sep) by {
            assert(init[i] == parts[i]);
        }
        law_split_of_join(init, sep);
        let a = joined(init, seq![sep]);
        assert(a + seq![sep] =~= a.push(sep));
        lemma_split_separator(a, sep);
        lemma_split_extend(a.push(sep), last, sep);
        assert(Seq::<char>::empty() + last =~= last);
        assert(split_parts(joined(parts, seq![sep]), sep) =~= parts);
    }
}

/// The text before and the text after the first occurrence of `sep`.
pub open spec fn parts_at_first(s: Seq<char>, sep: char) -> Option<(Seq<char>, Seq<char>)> {
    match s.index_of_first(sep) {
        Some(i) => Some((s.take(i), s.skip(i + 1))),
        None => None,
    }
}

/// The text before and the text after the first occurrence of `sep`, if there is one.
pub fn split_once(s: &str, sep: char) -> (r: Option<(String, String)>)
    ensures
        match r {
            Some(p) => parts_at_first(s@, sep) == Some((p.0@, p.1@)),
            None => parts_at_first(s@, sep) is None,
        },
{
    let chars = chars_of(s);
    let n: usize = chars.len();
    let mut i: usize = 0;
    proof {
        s@.index_of_first_ensures(sep);
    }
    while i < n
        invariant
            i <= n,
            n == chars@.len(),
            chars@ == s@,
            forall|j: int| 0 <= j < i ==> #[trigger] chars@[j] != sep,
        decreases n - i,
    {
        if chars[i] == sep {
            proof {
                s@.index_of_first_ensures(sep);
                assert(s@.contains(sep)) by {
                    assert(s@[i as int] == sep);
                }
                assert(s@.index_of_first(sep) == Some(i as int));
                assert(s@.take(i as int) =~= s@.subrange(0, i as int));
                assert(s@.skip(i + 1) =~= s@.subrange(i + 1, n as int));
            }
            return Some((string_of(&chars, 0, i), string_of(&chars, i + 1, n)));
        }
        i = i + 1;
    }
    None
}

/// A line without the carriage return at its end.
pub open spec fn without_cr(s: Seq<char>) -> Seq<char> {
    if s.len() > 0 && s.last() == '\r' {
        s.drop_last()
    } else {
        s
    }
}

/// The lines of a text: each is ended by a line feed, before which a carriage return does not
/// count, and what follows the last line feed is a line if it is not empty.
pub open spec fn line_parts(s: Seq<char>) -> Seq<Seq<char>> {
    let parts = split_parts(s, '\n');
    let ended = Seq::new((parts.len() - 1) as nat, |i: int| without_cr(parts[i]));
    if parts.last().len() == 0 {
        ended
    } else {
        ended.push(parts.last())
    }
}

/// The string without a carriage return at its end.
fn strip_cr(s: &String) -> (r: String)
    ensures
        r@ == without_cr(s@),
{
    let chars = chars_of(s.as_str());
    let n: usize = chars.len();
    if n > 0 && chars[n - 1] == '\r' {
        assert(chars@.subrange(0, n - 1) =~= chars@.drop_last());
        string_of(&chars, 0, n - 1)
    } else {
        s.clone()
    }
}

/// The lines of a text.
pub fn lines(s: &str) -> (r: Vec<String>)
    ensures
        texts(r@) == line_parts(s@),
{
    let parts = split(s, '\n');
    proof {
        lemma_split_parts(s@, '\n');
    }
    assert(texts(parts@).len() == parts@.len());
    let n: usize = parts.len();
    let mut r: Vec<String> = Vec::new();
    let mut i: usize = 0;
    while i < n - 1
        invariant
            0 < n == parts@.len(),
            i <= n - 1,
            texts(parts@) == split_parts(s@, '\n'),
            r@.len() == i,
            forall|j: int| 0 <= j < i ==> (#[trigger] r@[j])@ == without_cr(parts@[j]@),
        decreases n - i,
    {
        r.push(strip_cr(&parts[i]));
        i = i + 1;
    }
    assert(texts(parts@).last() == parts@[n - 1]@);
    if parts[n - 1].as_str().is_empty() {
        assert(texts(r@) =~= line_parts(s@));
    } else {
        r.push(parts[n - 1].clone());
        assert(texts(r@) =~= line_parts(s@));
    }
    r
}

/// The digit for a number below ten.
pub open spec fn digit(d: int) -> char {
    if d == 0 {
        '0'
    } else if d == 1 {
        '1'
    } else if d == 2 {
        '2'
    } else if d == 3 {
        '3'
    } else if d == 4 {
        '4'
    } else if d == 5 {
        '5'
    } else if d == 6 {
        '6'
    } else if d == 7 {
        '7'
    } else if d == 8 {
        '8'
    } else {
        '9'
    }
}

/// A number in decimal.
pub open spec fn decimal(n: nat) -> Seq<char>
    decreases n,
{
    if n < 10 {
        seq![digit(n as int)]
    } else {
        decimal(n / 10).push(digit((n % 10) as int))
    }
}

/// A number in decimal consists of digits.
pub proof fn lemma_decimal_digits(n: nat)
    ensures
        decimal(n).len() > 0,
        forall|i: int| 0 <= i < decimal(n).len() ==> '0' <= #[trigger] decimal(n)[i] <= '9',
    decreases n,
{
    if n >= 10 {
        lemma_decimal_digits(n / 10);
    }
}

/// Appends a number in decimal.
pub fn push_decimal(s: &mut String, n: u128)
    ensures
        final(s)@ == old(s)@ + decimal(n as nat),
    decreases n,
{
    let ghost before = s@;
    if n >= 10 {
        push_decimal(s, n / 10);
    }
    let d: u128 = n % 10;
    let c = if d == 0 {
        '0'
    } else if d == 1 {
        '1'
    } else if d == 2 {
        '2'
    } else if d == 3 {
        '3'
    } else if d == 4 {
        '4'
    } else if d == 5 {
        '5'
    } else if d == 6 {
        '6'
    } else if d == 7 {
        '7'
    } else if d == 8 {
        '8'
    } else {
        '9'
    };
    s.push(c);
    assert(s@ =~= before + decimal(n as nat));
}

/// A number in decimal, with zeroes after the sign to make it at least `width` characters.
pub open spec fn padded(n: int, width: int) -> Seq<char> {
    let sign = if n < 0 {
        seq!['-']
    } else {
        Seq::empty()
    };
    let digits = decimal((if n < 0 {
        -n
    } else {
        n
    }) as nat);
    let missing = width - sign.len() - digits.len();
    sign + Seq::new((if missing < 0 {
        0
    } else {
        missing
    }) as nat, |i: int| '0') + digits
}

/// Appends a number, with zeroes after the sign to make it at least `width` characters.
pub fn push_padded(s: &mut String, n: i32, width: usize)
    ensures
        final(s)@ == old(s)@ + padded(n as int, width as int),
{
    let ghost before = s@;
    let negative = n < 0;
    let magnitude: u128 = if negative {
        (-(n as i64)) as u128
    } else {
        n as u128
    };
    let mut digits = String::new();
    push_decimal(&mut digits, magnitude);
    assert(digits@ =~= decimal(magnitude as nat));
    let ghost sign = if negative {
        seq!['-']
    } else {
        Seq::empty()
    };
    let mut used: usize = digits.as_str().unicode_len();
    if negative {
        s.push('-');
        if used < width {
            used = used + 1;
        }
    }
    let ghost signed = s@;
    let ghost start = used;
    assert(signed =~= before + sign);
    while used < width
        invariant
            start <= used,
            used <= width || start > width,
            start > width ==> used == start,
            s@ == signed + Seq::new((used - start) as nat, |i: int| '0'),
        decreases width - used,
    {
        s.push('0');
        used = used + 1;
        assert(s@ =~= signed + Seq::new((used - start) as nat, |i: int| '0'));
    }
    s.append(digits.as_str());
    assert(s@ =~= before + padded(n as int, width as int));
}

/// White space are the characters that Unicode lists as such, by their numbers: tab to carriage
/// return, the space, next line, the no-break space, the Ogham space, the spaces of general
/// punctuation, the line and the paragraph separator, and the ideographic space.
pub proof fn law_white_space_by_number(c: char)
    ensures
        is_space(c) <==> {
            let n = c as u32;
            ||| 9 <= n <= 13
            ||| n == 32
            ||| n == 133
            ||| n == 160
            ||| n == 5760
            ||| 8192 <= n <= 8202
            ||| n == 8232
            ||| n == 8233
            ||| n == 8239
            ||| n == 8287
            ||| n == 12288
        },
{
}

/// All of the characters are white space.
pub open spec fn all_space(s: Seq<char>) -> bool {
    forall|i: int| 0 <= i < s.len() ==> is_space(#[trigger] s[i])
}

proof fn lemma_start_is_trimmed(a: Seq<char>, t: Seq<char>)
    requires
        all_space(a),
        t.len() > 0 ==> !is_space(t[0]),
    ensures
        trimmed_start(a + t) == t,
    decreases a.len(),
{
    if a.len() > 0 {
        assert(is_space(a[0]));
        assert((a + t)[0] == a[0]);
        assert((a + t).drop_first() =~= a.drop_first() + t);
        assert forall|i: int| 0 <= i < a.drop_first().len() implies is_space(
            #[trigger] a.drop_first()[i],
        ) by {
            assert(a.drop_first()[i] == a[i + 1]);
        }
        lemma_start_is_trimmed(a.drop_first(), t);
    } else {
        assert(a + t =~= t);
    }
}

proof fn lemma_end_is_trimmed(t: Seq<char>, b: Seq<char>)
    requires
        all_space(b),
        t.len() > 0 ==> !is_space(t.last()),
    ensures
        trimmed_end(t + b) == t,
    decreases b.len(),
{
    if b.len() > 0 {
        assert(is_space(b[b.len() - 1]));
        assert((t + b).last() == b[b.len() - 1]);
        assert((t + b).drop_last() =~= t + b.drop_last());
        assert forall|i: int| 0 <= i < b.drop_last().len() implies is_space(
            #[trigger] b.drop_last()[i],
        ) by {
            assert(b.drop_last()[i] == b[i]);
        }
        lemma_end_is_trimmed(t, b.drop_last());
    } else {
        assert(t + b =~= t);
    }
}

/// Trimming takes all of the white space off both ends and nothing else: white space inside the
/// text stays, and of white space alone nothing is left.
pub proof fn law_trim_takes_white_space_off(a: Seq<char>, t: Seq<char>, b: Seq<char>)
    requires
        all_space(a),
        all_space(b),
        t.len() > 0 ==> !is_space(t[0]) && !is_space(t.last()),
    ensures
        trimmed(a + t + b) == t,
{
    if t.len() == 0 {
        let s = a + t + b;
        assert(s =~= (a + b) + t);
        assert forall|i: int| 0 <= i < (a + b).len() implies is_space(#[trigger] (a + b)[i]) by {
            if i < a.len() {
                assert(is_space(a[i]));
            } else {
                assert(is_space(b[i - a.len()]));
            }
        }
        lemma_start_is_trimmed(a + b, t);
    } else {
        assert(a + t + b =~= a + (t + b));
        assert((t + b)[0] == t[0]);
        lemma_start_is_trimmed(a, t + b);
        lemma_end_is_trimmed(t, b);
    }
}

/// The last separator of a text begins its last part, and a text without a separator is its only
/// part.
pub proof fn law_split_at_the_last_separator(a: Seq<char>, b: Seq<char>, sep: char)
    requires
        !b.contains(sep),
    ensures
        split_parts(b, sep) == seq![b],
        split_parts(a + seq![sep] + b, sep) == split_parts(a, sep).push(b),
{
    let none = Seq::<char>::empty();
    lemma_split_extend(none, b, sep);
    assert(none + b =~= b);
    assert(split_parts(b, sep) =~= seq![b]);
    assert(a + seq![sep] =~= a.push(sep));
    lemma_split_separator(a, sep);
    lemma_split_extend(a.push(sep), b, sep);
    assert(split_parts(a, sep).push(none).drop_last() =~= split_parts(a, sep));
    assert(split_parts(a + seq![sep] + b, sep) =~= split_parts(a, sep).push(b));
}

/// Joining puts the separator between each part and the next one, and nowhere else.
pub proof fn law_join_of_one_part_more(parts: Seq<Seq<char>>, last: Seq<char>, sep: Seq<char>)
    ensures
        joined(Seq::empty(), sep).len() == 0,
        joined(seq![last], sep) == last,
        parts.len() > 0 ==> joined(parts.push(last), sep) == joined(parts, sep) + sep + last,
{
    assert(parts.push(last).drop_last() =~= parts);
}

/// The first separator divides a text; the part after it may hold more of them. A text without a
/// separator is not divided.
pub proof fn law_first_separator_divides(a: Seq<char>, b: Seq<char>, sep: char)
    requires
        !a.contains(sep),
    ensures
        parts_at_first(a + seq![sep] + b, sep) == Some((a, b)),
        parts_at_first(a, sep) is None,
{
    let s = a + seq![sep] + b;
    s.index_of_first_ensures(sep);
    a.index_of_first_ensures(sep);
    assert(s[a.len() as int] == sep);
    assert(s.contains(sep));
    let i = s.index_of_first(sep)->Some_0;
    if i < a.len() {
        assert(a[i] == s[i]);
        assert(a.contains(sep));
    }
    assert(i == a.len());
    assert(s.take(i) =~= a);
    assert(s.skip(i + 1) =~= b);
}

/// Each line feed ends a line, and a carriage return right before it does not count; what follows
/// the last line feed is one more line, as it is, unless it is empty.
pub proof fn law_line_feeds_end_lines(parts: Seq<Seq<char>>)
    requires
        parts.len() > 0,
        forall|i: int| 0 <= i < parts.len() ==> !(#[trigger] parts[i]).contains('\n'),
    ensures
        ({
            let found = line_parts(joined(parts, seq!['\n']));
            let n = parts.len() - 1;
            &&& parts[n].len() == 0 ==> found.len() == n
            &&& parts[n].len() > 0 ==> found.len() == n + 1 && found[n] == parts[n]
            &&& forall|i: int|
                0 <= i < n ==> #[trigger] found[i] == if parts[i].len() > 0
                    && parts[i][parts[i].len() - 1] == '\r' {
                    parts[i].take(parts[i].len() - 1)
                } else {
                    parts[i]
                }
        }),
{
    law_split_of_join(parts, '\n');
    let n = parts.len() - 1;
    let found = line_parts(joined(parts, seq!['\n']));
    assert forall|i: int| 0 <= i < n implies #[trigger] found[i] == if parts[i].len() > 0
        && parts[i][parts[i].len() - 1] == '\r' {
        parts[i].take(parts[i].len() - 1)
    } else {
        parts[i]
    } by {
        if parts[i].len() > 0 && parts[i][parts[i].len() - 1] == '\r' {
            assert(parts[i].drop_last() =~= parts[i].take(parts[i].len() - 1));
        }
    }
}

/// The number that a text of decimal digits stands for.
pub open spec fn number_of(digits: Seq<char>) -> int
    decreases digits.len(),
{
    if digits.len() == 0 {
        0
    } else {
        number_of(digits.drop_last()) * 10 + (digits.last() as u32 - 48)
    }
}

/// All of the characters are decimal digits.
pub open spec fn all_digits(s: Seq<char>) -> bool {
    forall|i: int| 0 <= i < s.len() ==> 48 <= (#[trigger] s[i]) as u32 <= 57
}

/// A number in decimal reads as that number, consists of digits, and does not begin with a zero
/// unless it is zero.
pub proof fn law_decimal_reads_as_the_number(n: nat)
    ensures
        number_of(decimal(n)) == n,
        decimal(n).len() > 0,
        all_digits(decimal(n)),
        decimal(n)[0] as u32 == 48 ==> n == 0 && decimal(n).len() == 1,
    decreases n,
{
    if n >= 10 {
        law_decimal_reads_as_the_number(n / 10);
        let d = decimal(n);
        assert(d.drop_last() =~= decimal(n / 10));
        assert(d[0] == decimal(n / 10)[0]);
        assert forall|i: int| 0 <= i < d.len() implies 48 <= (#[trigger] d[i]) as u32 <= 57 by {
            if i < d.len() - 1 {
                assert(d[i] == decimal(n / 10)[i]);
            }
        }
    } else {
        let d = decimal(n);
        assert(d.drop_last() =~= Seq::empty());
        assert(number_of(d.drop_last()) == 0);
    }
}

/// Zeroes at the beginning do not change a number.
proof fn lemma_leading_zeroes(k: nat, digits: Seq<char>)
    ensures
        number_of(Seq::new(k, |i: int| '0') + digits) == number_of(digits),
    decreases k + digits.len(),
{
    let s = Seq::new(k, |i: int| '0') + digits;
    if digits.len() > 0 {
        assert(s.drop_last() =~= Seq::new(k, |i: int| '0') + digits.drop_last());
        lemma_leading_zeroes(k, digits.drop_last());
    } else if k > 0 {
        let fewer = Seq::new((k - 1) as nat, |i: int| '0');
        assert(s.drop_last() =~= fewer + digits);
        lemma_leading_zeroes((k - 1) as nat, digits);
    } else {
        assert(s =~= digits);
    }
}

/// A padded number reads as that number, after a sign if it is negative, and takes at least the
/// given width; it has zeroes at its beginning only to take just that.
pub proof fn law_padded_reads_as_the_number(n: int, width: int)
    ensures
        ({
            let s = padded(n, width);
            let digits = if n < 0 {
                s.skip(1)
            } else {
                s
            };
            &&& n < 0 ==> s.len() > 0 && s[0] as u32 == 45
            &&& all_digits(digits)
            &&& number_of(digits) == if n < 0 {
                -n
            } else {
                n
            }
            &&& s.len() >= width
            &&& s.len() > width && n >= 0 ==> s == decimal(n as nat)
            &&& s.len() > width && n < 0 ==> digits == decimal((-n) as nat)
        }),
{
    let magnitude = (if n < 0 {
        -n
    } else {
        n
    }) as nat;
    let sign = if n < 0 {
        seq!['-']
    } else {
        Seq::empty()
    };
    let d = decimal(magnitude);
    let missing = width - sign.len() - d.len();
    let k = (if missing < 0 {
        0
    } else {
        missing
    }) as nat;
    let zeroes = Seq::new(k, |i: int| '0');
    let s = padded(n, width);
    let digits = if n < 0 {
        s.skip(1)
    } else {
        s
    };
    assert(digits =~= zeroes + d);
    law_decimal_reads_as_the_number(magnitude);
    lemma_leading_zeroes(k, d);
    assert forall|i: int| 0 <= i < digits.len() implies 48 <= (#[trigger] digits[i]) as u32 <= 57 by {
        if i < k {
            assert(digits[i] == '0');
        } else {
            assert(digits[i] == d[i - k]);
        }
    }
    if s.len() > width {
        assert(zeroes + d =~= d);
    }
}

} // verus!
