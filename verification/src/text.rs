//! Strings as sequences of characters: what trimming, prefixes, decimal
//! numbers and padding mean, and the functions that compute them.
use vstd::prelude::*;
use vstd::string::*;

verus! {

/// The characters that have the Unicode property `White_Space`.
pub open spec fn white_space(c: char) -> bool {
    ||| 0x09 <= c as u32 <= 0x0d
    ||| c as u32 == 0x20
    ||| c as u32 == 0x85
    ||| c as u32 == 0xa0
    ||| c as u32 == 0x1680
    ||| 0x2000 <= c as u32 <= 0x200a
    ||| 0x2028 <= c as u32 <= 0x2029
    ||| c as u32 == 0x202f
    ||| c as u32 == 0x205f
    ||| c as u32 == 0x3000
}

/// `char::is_whitespace` of std, which tells whether a character has the
/// Unicode property `White_Space`; the contract lists the members of that
/// property.
pub assume_specification[ char::is_whitespace ](c: char) -> (r: bool)
    ensures
        r == white_space(c),
;

/// `String::push` of std, which appends one character.
pub assume_specification[ String::push ](s: &mut String, c: char)
    ensures
        final(s)@ == old(s)@.push(c),
;

/// What `{:?}` of std writes for a string: the string between quotation marks,
/// with some characters escaped.
pub uninterp spec fn quotation(s: Seq<char>) -> Seq<char>;

/// `Debug` of std for `str`. Which characters it escapes, and how, is named
/// and not spelled out.
#[verifier::external_body]
pub(crate) fn quoted(s: &str) -> (r: String)
    ensures
        r@ == quotation(s@),
{
    format!("{:?}", s)
}

/// `s` without its leading white space.
pub open spec fn trim_start(s: Seq<char>) -> Seq<char>
    decreases s.len(),
{
    if s.len() > 0 && white_space(s[0]) {
        trim_start(s.drop_first())
    } else {
        s
    }
}

/// `s` without its trailing white space.
pub open spec fn trim_end(s: Seq<char>) -> Seq<char>
    decreases s.len(),
{
    if s.len() > 0 && white_space(s.last()) {
        trim_end(s.drop_last())
    } else {
        s
    }
}

/// `s` without white space at either end.
pub open spec fn trim(s: Seq<char>) -> Seq<char> {
    trim_end(trim_start(s))
}

/// `s` without the run of `c` that it starts with.
pub open spec fn trim_start_matches(s: Seq<char>, c: char) -> Seq<char>
    decreases s.len(),
{
    if s.len() > 0 && s[0] == c {
        trim_start_matches(s.drop_first(), c)
    } else {
        s
    }
}

/// `s` without the run of `c` that it ends with.
pub open spec fn trim_end_matches(s: Seq<char>, c: char) -> Seq<char>
    decreases s.len(),
{
    if s.len() > 0 && s.last() == c {
        trim_end_matches(s.drop_last(), c)
    } else {
        s
    }
}

/// Whether `part` occurs somewhere in `s`.
pub open spec fn contains(s: Seq<char>, part: Seq<char>) -> bool {
    exists|i: int| #[trigger] occurs_at(s, part, i)
}

/// Whether `part` occurs in `s` from position `i` on.
pub open spec fn occurs_at(s: Seq<char>, part: Seq<char>, i: int) -> bool {
    0 <= i && i + part.len() <= s.len() && s.subrange(i, i + part.len()) == part
}

/// The decimal digit that stands for `d`.
pub open spec fn digit(d: nat) -> char {
    (0x30 + d) as char
}

/// `n` in decimal, without leading zeros.
pub open spec fn decimal(n: nat) -> Seq<char>
    decreases n,
{
    if n < 10 {
        seq![digit(n)]
    } else {
        decimal(n / 10).push(digit(n % 10))
    }
}

/// `n` spaces.
pub open spec fn spaces(n: int) -> Seq<char> {
    Seq::new(if n > 0 { n as nat } else { 0 }, |i: int| ' ')
}

/// `s` filled up with spaces on the right to `width` characters.
pub open spec fn pad_right(s: Seq<char>, width: int) -> Seq<char> {
    s + spaces(width - s.len())
}

/// `s` filled up with spaces on the left to `width` characters.
pub open spec fn pad_left(s: Seq<char>, width: int) -> Seq<char> {
    spaces(width - s.len()) + s
}

/// What is left after the run of `c` at the end does not end in `c`, and
/// trimming it again changes nothing.
pub proof fn lemma_trim_end_matches(s: Seq<char>, c: char)
    ensures
        trim_end_matches(s, c).len() > 0 ==> trim_end_matches(s, c).last() != c,
        trim_end_matches(trim_end_matches(s, c), c) == trim_end_matches(s, c),
    decreases s.len(),
{
    if s.len() > 0 && s.last() == c {
        lemma_trim_end_matches(s.drop_last(), c);
    }
}

/// The characters of `s`.
pub fn chars_of(s: &str) -> (r: Vec<char>)
    ensures
        r@ == s@,
{
    let mut r: Vec<char> = Vec::new();
    for c in it: s.chars()
        invariant
            r@ == s@.take(it.index() as int),
            it.seq() == s@,
    {
        proof {
            assert(s@.take(it.index() + 1) =~= s@.take(it.index() as int).push(c));
        }
        r.push(c);
    }
    assert(s@.take(s@.len() as int) =~= s@);
    r
}

/// The characters `from..to` of `chars` as a string.
pub fn string_of(chars: &Vec<char>, from: usize, to: usize) -> (r: String)
    requires
        from <= to <= chars@.len(),
    ensures
        r@ == chars@.subrange(from as int, to as int),
{
    let mut r = String::new();
    let mut i: usize = from;
    while i < to
        invariant
            from <= i <= to <= chars@.len(),
            r@ == chars@.subrange(from as int, i as int),
        decreases to - i,
    {
        r.push(chars[i]);
        i = i + 1;
        assert(chars@.subrange(from as int, i as int) =~= chars@.subrange(
            from as int,
            i - 1,
        ).push(chars@[i - 1]));
    }
    r
}

/// Whether two strings hold the same characters.
pub fn same(a: &str, b: &str) -> (r: bool)
    ensures
        r == (a@ == b@),
{
    let x = chars_of(a);
    let y = chars_of(b);
    assert(x@.subrange(0, x@.len() as int) =~= x@);
    x.len() == y.len() && has_part_at(&x, 0, &y)
}

/// Whether `part` stands in `chars` from position `at` on.
pub fn has_part_at(chars: &Vec<char>, at: usize, part: &Vec<char>) -> (r: bool)
    requires
        at <= chars@.len(),
    ensures
        r == occurs_at(chars@, part@, at as int),
{
    let len = chars.len();
    if len - at < part.len() {
        return false;
    }
    let mut i: usize = 0;
    while i < part.len()
        invariant
            at <= len,
            len == chars@.len(),
            len - at >= part@.len(),
            i <= part@.len(),
            forall|j: int| 0 <= j < i ==> chars@[at + j] == #[trigger] part@[j],
        decreases part@.len() - i,
    {
        if chars[at + i] != part[i] {
            proof {
                assert(chars@.subrange(at as int, at + part@.len())[i as int] != part@[i as int]);
            }
            return false;
        }
        i = i + 1;
    }
    assert(chars@.subrange(at as int, at + part@.len()) =~= part@);
    true
}

/// Whether `s` starts with `prefix`.
pub fn starts_with(s: &str, prefix: &str) -> (r: bool)
    ensures
        r == prefix@.is_prefix_of(s@),
{
    let chars = chars_of(s);
    let part = chars_of(prefix);
    let r = has_part_at(&chars, 0, &part);
    r
}

/// Whether `part` occurs in `s`.
pub fn includes(s: &str, part: &str) -> (r: bool)
    ensures
        r == contains(s@, part@),
{
    let chars = chars_of(s);
    let wanted = chars_of(part);
    let mut i: usize = 0;
    while i < chars.len()
        invariant
            chars@ == s@,
            wanted@ == part@,
            i <= chars@.len(),
            forall|j: int| 0 <= j < i ==> !occurs_at(s@, part@, j),
        decreases chars@.len() - i,
    {
        if has_part_at(&chars, i, &wanted) {
            return true;
        }
        i = i + 1;
    }
    has_part_at(&chars, i, &wanted)
}

/// The position in `from..=to` at which the white space that starts at `from` ends.
pub fn skip_white_space(chars: &Vec<char>, from: usize, to: usize) -> (r: usize)
    requires
        from <= to <= chars@.len(),
    ensures
        from <= r <= to,
        trim_start(chars@.subrange(from as int, to as int)) == chars@.subrange(r as int, to as int),
{
    let mut i: usize = from;
    while i < to && chars[i].is_whitespace()
        invariant
            from <= i <= to <= chars@.len(),
            trim_start(chars@.subrange(from as int, to as int)) == trim_start(
                chars@.subrange(i as int, to as int),
            ),
        decreases to - i,
    {
        assert(chars@.subrange(i as int, to as int).drop_first() =~= chars@.subrange(
            i + 1,
            to as int,
        ));
        i = i + 1;
    }
    i
}

/// The position in `from..=to` at which the white space that ends at `to` starts.
pub fn drop_white_space(chars: &Vec<char>, from: usize, to: usize) -> (r: usize)
    requires
        from <= to <= chars@.len(),
    ensures
        from <= r <= to,
        trim_end(chars@.subrange(from as int, to as int)) == chars@.subrange(from as int, r as int),
{
    let mut i: usize = to;
    while from < i && chars[i - 1].is_whitespace()
        invariant
            from <= i <= to <= chars@.len(),
            trim_end(chars@.subrange(from as int, to as int)) == trim_end(
                chars@.subrange(from as int, i as int),
            ),
        decreases i,
    {
        assert(chars@.subrange(from as int, i as int).drop_last() =~= chars@.subrange(
            from as int,
            i - 1,
        ));
        i = i - 1;
    }
    i
}

/// `s` without white space at either end.
pub fn trimmed(s: &str) -> (r: String)
    ensures
        r@ == trim(s@),
{
    let chars = chars_of(s);
    let from = skip_white_space(&chars, 0, chars.len());
    let to = drop_white_space(&chars, from, chars.len());
    assert(chars@.subrange(0, chars@.len() as int) =~= s@);
    string_of(&chars, from, to)
}

/// `s` without the run of `c` that it ends with.
pub fn without_trailing(s: &str, c: char) -> (r: String)
    ensures
        r@ == trim_end_matches(s@, c),
{
    let chars = chars_of(s);
    let mut i: usize = chars.len();
    assert(chars@.subrange(0, i as int) =~= s@);
    while 0 < i && chars[i - 1] == c
        invariant
            i <= chars@.len(),
            trim_end_matches(s@, c) == trim_end_matches(chars@.subrange(0, i as int), c),
        decreases i,
    {
        assert(chars@.subrange(0, i as int).drop_last() =~= chars@.subrange(0, i - 1));
        i = i - 1;
    }
    string_of(&chars, 0, i)
}

/// The position at which the run of `c` that `chars` starts with ends.
pub fn skip_leading(chars: &Vec<char>, c: char) -> (r: usize)
    ensures
        r <= chars@.len(),
        trim_start_matches(chars@, c) == chars@.subrange(r as int, chars@.len() as int),
{
    let mut i: usize = 0;
    assert(chars@.subrange(0, chars@.len() as int) =~= chars@);
    while i < chars.len() && chars[i] == c
        invariant
            i <= chars@.len(),
            trim_start_matches(chars@, c) == trim_start_matches(
                chars@.subrange(i as int, chars@.len() as int),
                c,
            ),
        decreases chars@.len() - i,
    {
        assert(chars@.subrange(i as int, chars@.len() as int).drop_first() =~= chars@.subrange(
            i + 1,
            chars@.len() as int,
        ));
        i = i + 1;
    }
    i
}

/// `n` in decimal.
pub fn decimal_text(n: u64) -> (r: String)
    ensures
        r@ == decimal(n as nat),
    decreases n,
{
    let mut r = if n < 10 { String::new() } else { decimal_text(n / 10) };
    let d: u8 = (n % 10) as u8;
    r.push((0x30u8 + d) as char);
    assert(n < 10 ==> r@ =~= seq![digit(n as nat)]);
    r
}

/// `s` filled up with spaces on the right to `width` characters.
pub fn padded_right(s: &str, width: usize) -> (r: String)
    ensures
        r@ == pad_right(s@, width as int),
{
    let mut r = s.to_string();
    let mut n: usize = s.unicode_len();
    assert(r@ =~= s@ + spaces(0));
    while n < width
        invariant
            s@.len() <= n,
            n <= width || n == s@.len(),
            r@ == s@ + spaces(n - s@.len()),
        decreases width - n,
    {
        r.push(' ');
        n = n + 1;
        assert(spaces(n - s@.len()) =~= spaces(n - 1 - s@.len()).push(' '));
        assert(r@ =~= s@ + spaces(n - s@.len()));
    }
    assert(spaces(n - s@.len()) =~= spaces(width - s@.len()));
    r
}

/// `s` filled up with spaces on the left to `width` characters.
pub fn padded_left(s: &str, width: usize) -> (r: String)
    ensures
        r@ == pad_left(s@, width as int),
{
    let mut r = String::new();
    let mut n: usize = s.unicode_len();
    assert(r@ =~= spaces(0));
    while n < width
        invariant
            s@.len() <= n,
            n <= width || n == s@.len(),
            r@ == spaces(n - s@.len()),
        decreases width - n,
    {
        r.push(' ');
        n = n + 1;
        assert(spaces(n - s@.len()) =~= spaces(n - 1 - s@.len()).push(' '));
    }
    assert(spaces(n - s@.len()) =~= spaces(width - s@.len()));
    r.append(s);
    r
}

pub proof fn lemma_trim_start_of(a: Seq<char>, t: Seq<char>)
    requires
        forall|i: int| 0 <= i < a.len() ==> white_space(#[trigger] a[i]),
        t.len() > 0 ==> !white_space(t[0]),
    ensures
        trim_start(a + t) == t,
    decreases a.len(),
{
    if a.len() > 0 {
        assert(white_space(a[0]));
        assert((a + t).drop_first() =~= a.drop_first() + t);
        assert forall|i: int| 0 <= i < a.drop_first().len() implies white_space(
            #[trigger] a.drop_first()[i],
        ) by {
            assert(white_space(a[i + 1]));
        }
        lemma_trim_start_of(a.drop_first(), t);
    } else {
        assert(a + t =~= t);
    }
}

proof fn lemma_trim_end_of(t: Seq<char>, b: Seq<char>)
    requires
        forall|i: int| 0 <= i < b.len() ==> white_space(#[trigger] b[i]),
        t.len() > 0 ==> !white_space(t.last()),
    ensures
        trim_end(t + b) == t,
    decreases b.len(),
{
    if b.len() > 0 {
        assert(white_space(b[b.len() - 1]));
        assert((t + b).drop_last() =~= t + b.drop_last());
        assert forall|i: int| 0 <= i < b.drop_last().len() implies white_space(
            #[trigger] b.drop_last()[i],
        ) by {
            assert(white_space(b[i]));
        }
        lemma_trim_end_of(t, b.drop_last());
    } else {
        assert(t + b =~= t);
    }
}

/// Trimming takes away the white space around a text, all of it and nothing
/// else; at the start alone, what follows the text stays.
pub proof fn law_trimming(before: Seq<char>, t: Seq<char>, after: Seq<char>)
    requires
        forall|i: int| 0 <= i < before.len() ==> white_space(#[trigger] before[i]),
        forall|i: int| 0 <= i < after.len() ==> white_space(#[trigger] after[i]),
        t.len() > 0 ==> !white_space(t[0]) && !white_space(t.last()),
    ensures
        trim(before + t + after) == t,
        t.len() > 0 ==> trim_start(before + t + after) == t + after,
        trim_start(before) == Seq::<char>::empty(),
{
    let none = Seq::<char>::empty();
    lemma_trim_start_of(before, none);
    assert(before + none =~= before);
    if t.len() > 0 {
        lemma_trim_start_of(before, t + after);
        assert(before + t + after =~= before + (t + after));
        lemma_trim_end_of(t, after);
    } else {
        let all = before + after;
        assert(before + t + after =~= all);
        assert forall|i: int| 0 <= i < all.len() implies white_space(#[trigger] all[i]) by {
            if i < before.len() {
                assert(white_space(before[i]));
            } else {
                assert(white_space(after[i - before.len()]));
            }
        }
        lemma_trim_start_of(all, none);
        assert(all + none =~= all);
        assert(t =~= none);
    }
}

/// Taking away the run of a character at the end of a text takes away all of
/// it and nothing else.
pub proof fn law_trimming_a_trailing_run(t: Seq<char>, run: Seq<char>, c: char)
    requires
        t.len() > 0 ==> t.last() != c,
        forall|i: int| 0 <= i < run.len() ==> #[trigger] run[i] == c,
    ensures
        trim_end_matches(t + run, c) == t,
    decreases run.len(),
{
    if run.len() > 0 {
        assert(run[run.len() - 1] == c);
        assert((t + run).drop_last() =~= t + run.drop_last());
        assert forall|i: int| 0 <= i < run.drop_last().len() implies #[trigger] run.drop_last()[i]
            == c by {
            assert(run[i] == c);
        }
        law_trimming_a_trailing_run(t, run.drop_last(), c);
    } else {
        assert(t + run =~= t);
    }
}

/// Taking away the run of a character at the start of a text takes away all of
/// it and nothing else.
pub proof fn law_trimming_a_leading_run(run: Seq<char>, t: Seq<char>, c: char)
    requires
        t.len() > 0 ==> t[0] != c,
        forall|i: int| 0 <= i < run.len() ==> #[trigger] run[i] == c,
    ensures
        trim_start_matches(run + t, c) == t,
    decreases run.len(),
{
    if run.len() > 0 {
        assert(run[0] == c);
        assert((run + t).drop_first() =~= run.drop_first() + t);
        assert forall|i: int| 0 <= i < run.drop_first().len() implies #[trigger] run.drop_first()[i]
            == c by {
            assert(run[i + 1] == c);
        }
        law_trimming_a_leading_run(run.drop_first(), t, c);
    } else {
        assert(run + t =~= t);
    }
}

/// A text contains exactly what it can be cut out around.
pub proof fn law_containing(s: Seq<char>, part: Seq<char>)
    ensures
        contains(s, part) <==> exists|before: Seq<char>, after: Seq<char>|
            s == #[trigger] (before + part + after),
{
    if contains(s, part) {
        let i = choose|i: int| #[trigger] occurs_at(s, part, i);
        let before = s.take(i);
        let after = s.skip(i + part.len());
        assert(s =~= before + part + after);
    }
    if exists|before: Seq<char>, after: Seq<char>| s == #[trigger] (before + part + after) {
        let (before, after) = choose|before: Seq<char>, after: Seq<char>|
            s == #[trigger] (before + part + after);
        assert(s.subrange(before.len() as int, before.len() as int + part.len()) =~= part);
        assert(occurs_at(s, part, before.len() as int));
    }
}

/// A number below ten is written as its digit, and a digit behind a number is
/// ten times the number and the digit.
pub proof fn law_decimal(n: nat, d: nat)
    requires
        d < 10,
    ensures
        decimal(d).len() == 1,
        decimal(d)[0] as u32 == '0' as u32 + d,
        n > 0 ==> decimal(10 * n + d) == decimal(n) + decimal(d),
{
    if n > 0 {
        assert((10 * n + d) / 10 == n);
        assert((10 * n + d) % 10 == d);
        assert(decimal(n).push(digit(d)) =~= decimal(n) + decimal(d));
    }
}

/// Padding adds spaces alone, at the one end, and only up to the width.
pub proof fn law_padding(s: Seq<char>, width: nat)
    ensures
        pad_right(s, width as int).len() == (if s.len() < width {
            width
        } else {
            s.len()
        }),
        pad_right(s, width as int).take(s.len() as int) == s,
        forall|i: int|
            s.len() <= i < pad_right(s, width as int).len() ==> #[trigger] pad_right(
                s,
                width as int,
            )[i] == ' ',
        pad_left(s, width as int).len() == pad_right(s, width as int).len(),
        pad_left(s, width as int).skip(pad_left(s, width as int).len() - s.len()) == s,
        forall|i: int|
            0 <= i < pad_left(s, width as int).len() - s.len() ==> #[trigger] pad_left(
                s,
                width as int,
            )[i] == ' ',
{
    assert(pad_right(s, width as int).take(s.len() as int) =~= s);
    assert(pad_left(s, width as int).skip(pad_left(s, width as int).len() - s.len()) =~= s);
}

} // verus!
