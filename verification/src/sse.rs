//! Server-sent events: where an event of a byte stream ends, and what its
//! `event:` and `data:` fields hold.
use vstd::prelude::*;
use vstd::utf8::*;

use crate::text;

verus! {

/// `std::str::Utf8Error`.
#[verifier::external_type_specification]
#[verifier::external_body]
pub struct ExUtf8Error(std::str::Utf8Error);

/// `str::from_utf8` of std, which accepts exactly the valid UTF-8 encodings
/// and hands out the characters that the bytes encode.
pub assume_specification<'a>[ std::str::from_utf8 ](v: &'a [u8]) -> (r: Result<
    &'a str,
    std::str::Utf8Error,
>)
    ensures
        r is Ok <==> valid_utf8(v@),
        r matches Ok(s) ==> s@ == decode_utf8(v@),
;

/// The length of the blank line that starts at `i`: two line feeds, or two
/// pairs of carriage return and line feed. Zero where there is none.
pub open spec fn blank_line_at(buf: Seq<u8>, i: int) -> int {
    if i + 1 < buf.len() && buf[i] == 10 && buf[i + 1] == 10 {
        2
    } else if i + 3 < buf.len() && buf[i] == 13 && buf[i + 1] == 10 && buf[i + 2] == 13 && buf[i
        + 3] == 10 {
        4
    } else {
        0
    }
}

/// The end of the first blank line that starts at `i` or later.
pub open spec fn boundary_from(buf: Seq<u8>, i: int) -> Option<int>
    decreases buf.len() - i,
{
    if i + 1 >= buf.len() {
        None
    } else if blank_line_at(buf, i) > 0 {
        Some(i + blank_line_at(buf, i))
    } else {
        boundary_from(buf, i + 1)
    }
}

/// The number of bytes up to the end of the first event, its blank line included.
pub open spec fn boundary(buf: Seq<u8>) -> Option<int> {
    boundary_from(buf, 0)
}

/// The number of characters before the first line feed, or all of them.
pub open spec fn line_len(s: Seq<char>) -> int
    decreases s.len(),
{
    if s.len() == 0 || s[0] == '\n' {
        0
    } else {
        1 + line_len(s.drop_first())
    }
}

/// `line` without a carriage return at its end.
pub open spec fn without_return(line: Seq<char>) -> Seq<char> {
    if line.len() > 0 && line.last() == '\r' {
        line.drop_last()
    } else {
        line
    }
}

/// The lines of `s`. A line ends in a line feed, which a carriage return may
/// precede; neither belongs to the line. The last line may lack its ending.
pub open spec fn lines(s: Seq<char>) -> Seq<Seq<char>>
    decreases s.len(),
    via lines_decreases
{
    if s.len() == 0 {
        seq![]
    } else if line_len(s) < s.len() {
        seq![without_return(s.take(line_len(s)))] + lines(s.skip(line_len(s) + 1))
    } else {
        seq![s]
    }
}

#[via_fn]
proof fn lines_decreases(s: Seq<char>) {
    lemma_line_len(s);
}

proof fn lemma_line_len(s: Seq<char>)
    ensures
        0 <= line_len(s) <= s.len(),
    decreases s.len(),
{
    if s.len() > 0 && s[0] != '\n' {
        lemma_line_len(s.drop_first());
    }
}

/// What follows `prefix` in the last line that starts with it.
pub open spec fn last_field(ls: Seq<Seq<char>>, prefix: Seq<char>) -> Option<Seq<char>>
    decreases ls.len(),
{
    if ls.len() == 0 {
        None
    } else if prefix.is_prefix_of(ls.last()) {
        Some(ls.last().skip(prefix.len() as int))
    } else {
        last_field(ls.drop_last(), prefix)
    }
}

/// The event name that the lines give: the last `event:` field, trimmed.
pub open spec fn event_name(ls: Seq<Seq<char>>) -> Option<Seq<char>> {
    match last_field(ls, "event:"@) {
        Some(v) => Some(text::trim(v)),
        None => None,
    }
}

/// The data that the lines give: the last `data:` field without its leading
/// white space.
pub open spec fn event_data(ls: Seq<Seq<char>>) -> Option<Seq<char>> {
    match last_field(ls, "data:"@) {
        Some(v) => Some(text::trim_start(v)),
        None => None,
    }
}

/// The name and the data of an event, where its bytes are text and both
/// fields are there.
pub open spec fn named_event(raw: Seq<u8>) -> Option<(Seq<char>, Seq<char>)> {
    if valid_utf8(raw) {
        let ls = lines(decode_utf8(raw));
        match (event_name(ls), event_data(ls)) {
            (Some(name), Some(data)) => Some((name, data)),
            _ => None,
        }
    } else {
        None
    }
}

/// An event has at least one byte and ends within the buffer.
pub proof fn lemma_boundary_in_range(buf: Seq<u8>, i: int)
    requires
        0 <= i,
    ensures
        boundary_from(buf, i) matches Some(n) ==> i < n <= buf.len(),
    decreases buf.len() - i,
{
    if i + 1 < buf.len() && blank_line_at(buf, i) == 0 {
        lemma_boundary_in_range(buf, i + 1);
    }
}

/// Where an event ends does not depend on the bytes after it.
pub proof fn lemma_boundary_is_stable(buf: Seq<u8>, more: Seq<u8>, i: int)
    requires
        0 <= i,
        boundary_from(buf, i) is Some,
    ensures
        boundary_from(buf + more, i) == boundary_from(buf, i),
    decreases buf.len() - i,
{
    if blank_line_at(buf, i) == 0 {
        lemma_boundary_is_stable(buf, more, i + 1);
        reveal_with_fuel(boundary_from, 3);
        assert(blank_line_at(buf + more, i) == 0);
    }
}

/// The number of bytes up to the end of the first event in `buf`.
pub fn find_event_boundary(buf: &[u8]) -> (r: Option<usize>)
    ensures
        match r {
            Some(n) => boundary(buf@) == Some(n as int) && 0 < n <= buf@.len(),
            None => boundary(buf@) is None,
        },
{
    let mut i: usize = 0;
    let len: usize = buf.len();
    while i < len && i + 1 < len
        invariant
            i <= len == buf@.len(),
            boundary(buf@) == boundary_from(buf@, i as int),
        decreases len - i,
    {
        if buf[i] == 10 && buf[i + 1] == 10 {
            return Some(i + 2);
        }
        if len - i > 3 && buf[i] == 13 && buf[i + 1] == 10 && buf[i + 2] == 13 && buf[i + 3] == 10 {
            return Some(i + 4);
        }
        i = i + 1;
    }
    None
}

/// The number of characters of the line that starts at `from`, its ending
/// not counted.
fn find_line_feed(chars: &Vec<char>, from: usize) -> (r: usize)
    requires
        from <= chars@.len(),
    ensures
        from <= r <= chars@.len(),
        r - from == line_len(chars@.skip(from as int)),
        r < chars@.len() ==> chars@[r as int] == '\n',
{
    let mut i: usize = from;
    while i < chars.len() && chars[i] != '\n'
        invariant
            from <= i <= chars@.len(),
            line_len(chars@.skip(from as int)) == i - from + line_len(chars@.skip(i as int)),
        decreases chars@.len() - i,
    {
        assert(chars@.skip(i as int).drop_first() =~= chars@.skip(i + 1));
        i = i + 1;
    }
    i
}

/// The value of the field `prefix` in the line `from..to`, if the line is
/// such a field: the position at which it starts.
fn field_start(chars: &Vec<char>, from: usize, to: usize, prefix: &Vec<char>) -> (r: Option<usize>)
    requires
        from <= to <= chars@.len(),
    ensures
        match r {
            Some(at) => {
                &&& from <= at <= to
                &&& prefix@.is_prefix_of(chars@.subrange(from as int, to as int))
                &&& chars@.subrange(at as int, to as int) == chars@.subrange(
                    from as int,
                    to as int,
                ).skip(prefix@.len() as int)
            },
            None => !prefix@.is_prefix_of(chars@.subrange(from as int, to as int)),
        },
{
    let ghost line = chars@.subrange(from as int, to as int);
    if to - from < prefix.len() {
        return None;
    }
    assert(line.subrange(0, prefix@.len() as int) =~= chars@.subrange(
        from as int,
        from + prefix@.len(),
    ));
    if text::has_part_at(chars, from, prefix) {
        assert(chars@.subrange(from + prefix@.len(), to as int) =~= line.skip(
            prefix@.len() as int,
        ));
        Some(from + prefix.len())
    } else {
        None
    }
}

proof fn lemma_last_field_push(ls: Seq<Seq<char>>, line: Seq<char>, prefix: Seq<char>)
    ensures
        last_field(ls.push(line), prefix) == (if prefix.is_prefix_of(line) {
            Some(line.skip(prefix.len() as int))
        } else {
            last_field(ls, prefix)
        }),
{
    assert(ls.push(line).drop_last() =~= ls);
}

/// The name and the data of the event that `raw` holds. `None` where `raw` is
/// not text or lacks one of the two fields.
pub fn read_event(raw: &[u8]) -> (r: Option<(String, String)>)
    ensures
        match r {
            Some((name, data)) => named_event(raw@) == Some((name@, data@)),
            None => named_event(raw@) is None,
        },
{
    let s = match std::str::from_utf8(raw) {
        Ok(s) => s,
        Err(_) => {
            return None;
        },
    };
    let chars = text::chars_of(s);
    let event_prefix = text::chars_of("event:");
    let data_prefix = text::chars_of("data:");
    proof {
        reveal_strlit("event:");
        reveal_strlit("data:");
    }
    let mut event: Option<(usize, usize)> = None;
    let mut data: Option<(usize, usize)> = None;
    let mut at: usize = 0;
    let ghost mut done: Seq<Seq<char>> = seq![];
    assert(chars@.skip(0) =~= chars@);
    assert(done + lines(chars@) =~= lines(chars@));
    while at < chars.len()
        invariant
            at <= chars@.len(),
            event_prefix@ == "event:"@,
            data_prefix@ == "data:"@,
            event_prefix@.len() > 0 && event_prefix@[0] == 'e',
            data_prefix@.len() > 0 && data_prefix@[0] == 'd',
            lines(chars@) == done + lines(chars@.skip(at as int)),
            match event {
                Some((a, b)) => a <= b <= chars@.len() && event_name(done) == Some(
                    chars@.subrange(a as int, b as int),
                ),
                None => event_name(done) is None,
            },
            match data {
                Some((a, b)) => a <= b <= chars@.len() && event_data(done) == Some(
                    chars@.subrange(a as int, b as int),
                ),
                None => event_data(done) is None,
            },
        decreases chars@.len() - at,
    {
        let stop = find_line_feed(&chars, at);
        let end = if stop < chars.len() && at < stop && chars[stop - 1] == '\r' {
            stop - 1
        } else {
            stop
        };
        let next = if stop < chars.len() { stop + 1 } else { stop };
        let ghost rest = chars@.skip(at as int);
        let ghost line = chars@.subrange(at as int, end as int);
        proof {
            if stop < chars@.len() {
                assert(rest.take(stop - at) =~= chars@.subrange(at as int, stop as int));
                assert(without_return(rest.take(stop - at)) =~= line);
                assert(rest.skip(stop - at + 1) =~= chars@.skip(next as int));
                assert(lines(rest) == seq![line] + lines(chars@.skip(next as int)));
            } else {
                assert(rest =~= line);
                assert(chars@.skip(next as int).len() == 0);
                assert(lines(rest) =~= seq![line] + lines(chars@.skip(next as int)));
            }
            assert(done + lines(rest) =~= done.push(line) + lines(chars@.skip(next as int)));
            lemma_last_field_push(done, line, "event:"@);
            lemma_last_field_push(done, line, "data:"@);
        }
        if let Some(from) = field_start(&chars, at, end, &event_prefix) {
            let a = text::skip_white_space(&chars, from, end);
            let b = text::drop_white_space(&chars, a, end);
            event = Some((a, b));
            assert(line[0] == 'e');
        } else if let Some(from) = field_start(&chars, at, end, &data_prefix) {
            let a = text::skip_white_space(&chars, from, end);
            data = Some((a, end));
        }
        proof {
            done = done.push(line);
        }
        at = next;
    }
    assert(chars@.skip(at as int).len() == 0);
    assert(lines(chars@) =~= done);
    match (event, data) {
        (Some((a, b)), Some((c, d))) => {
            Some((text::string_of(&chars, a, b), text::string_of(&chars, c, d)))
        },
        _ => None,
    }
}

/// An event ends with the first blank line: its last bytes are two line feeds,
/// or two pairs of carriage return and line feed, and nowhere before did bytes
/// stand like that. Without such bytes no event has ended.
pub proof fn law_event_ends_at_the_first_blank_line(buf: Seq<u8>, m: int)
    requires
        0 <= m <= buf.len(),
    ensures
        ({
            let blank = {
                ||| m >= 2 && buf[m - 2] == 10 && buf[m - 1] == 10
                ||| m >= 4 && buf[m - 4] == 13 && buf[m - 3] == 10 && buf[m - 2] == 13 && buf[m - 1]
                    == 10
            };
            match boundary(buf) {
                Some(n) => 0 < n <= buf.len() && (m == n ==> blank) && (m < n ==> !blank),
                None => !blank,
            }
        }),
{
    lemma_boundary_in_range(buf, 0);
    lemma_no_blank_line_before(buf, 0, m);
}

proof fn lemma_no_blank_line_before(buf: Seq<u8>, i: int, m: int)
    requires
        0 <= i,
        0 <= m <= buf.len(),
    ensures
        match boundary_from(buf, i) {
            Some(n) => {
                &&& m == n ==> (m - 2 >= i && blank_line_at(buf, m - 2) == 2) || (m - 4 >= i
                    && blank_line_at(buf, m - 4) == 4)
                &&& m < n && m - 2 >= i ==> blank_line_at(buf, m - 2) != 2
                &&& m < n && m - 4 >= i ==> blank_line_at(buf, m - 4) != 4
            },
            None => {
                &&& m - 2 >= i ==> blank_line_at(buf, m - 2) != 2
                &&& m - 4 >= i ==> blank_line_at(buf, m - 4) != 4
            },
        },
    decreases buf.len() - i,
{
    if i + 1 < buf.len() && blank_line_at(buf, i) == 0 {
        lemma_no_blank_line_before(buf, i + 1, m);
    }
}

/// A line ends in a line feed or in a carriage return and a line feed, neither
/// of which belongs to it, or at the end of the text.
pub proof fn law_lines(line: Seq<char>, rest: Seq<char>)
    requires
        forall|i: int| 0 <= i < line.len() ==> #[trigger] line[i] != '\n',
    ensures
        line.len() == 0 || line.last() != '\r' ==> lines(line + seq!['\n'] + rest) == seq![line]
            + lines(rest),
        lines(line + seq!['\r', '\n'] + rest) == seq![line] + lines(rest),
        line.len() > 0 ==> lines(line) == seq![line],
        lines(Seq::<char>::empty()) == Seq::<Seq<char>>::empty(),
{
    let plain = line + seq!['\n'] + rest;
    lemma_line_len_before(line, seq!['\n'] + rest);
    assert(plain =~= line + (seq!['\n'] + rest));
    assert(plain.take(line.len() as int) =~= line);
    assert(plain.skip(line.len() as int + 1) =~= rest);
    let returned = line + seq!['\r', '\n'] + rest;
    let longer = line.push('\r');
    assert(returned =~= longer + (seq!['\n'] + rest));
    lemma_line_len_before(longer, seq!['\n'] + rest);
    assert(returned.take(longer.len() as int) =~= longer);
    assert(longer.drop_last() =~= line);
    assert(returned.skip(longer.len() as int + 1) =~= rest);
    lemma_line_len_before(line, seq![]);
    assert(line + seq![] =~= line);
}

proof fn lemma_line_len_before(line: Seq<char>, rest: Seq<char>)
    requires
        forall|i: int| 0 <= i < line.len() ==> #[trigger] line[i] != '\n',
        rest.len() > 0 ==> rest[0] == '\n',
    ensures
        line_len(line + rest) == line.len(),
    decreases line.len(),
{
    if line.len() > 0 {
        assert(line[0] != '\n');
        assert((line + rest).drop_first() =~= line.drop_first() + rest);
        assert forall|i: int| 0 <= i < line.drop_first().len() implies #[trigger] line.drop_first()[i]
            != '\n' by {
            assert(line[i + 1] != '\n');
        }
        lemma_line_len_before(line.drop_first(), rest);
    } else {
        assert(line + rest =~= rest);
    }
}

proof fn lemma_last_field_at(ls: Seq<Seq<char>>, prefix: Seq<char>, i: int)
    requires
        0 <= i < ls.len(),
        prefix.is_prefix_of(ls[i]),
        forall|j: int| i < j < ls.len() ==> !prefix.is_prefix_of(#[trigger] ls[j]),
    ensures
        last_field(ls, prefix) == Some(ls[i].skip(prefix.len() as int)),
    decreases ls.len(),
{
    if i < ls.len() - 1 {
        assert(!prefix.is_prefix_of(ls[ls.len() - 1]));
        lemma_last_field_at(ls.drop_last(), prefix, i);
    }
}

proof fn lemma_no_field(ls: Seq<Seq<char>>, prefix: Seq<char>)
    requires
        forall|j: int| 0 <= j < ls.len() ==> !prefix.is_prefix_of(#[trigger] ls[j]),
    ensures
        last_field(ls, prefix) is None,
    decreases ls.len(),
{
    if ls.len() > 0 {
        assert(!prefix.is_prefix_of(ls[ls.len() - 1]));
        lemma_no_field(ls.drop_last(), prefix);
    }
}

/// The last `event:` line gives the name of an event, trimmed, and the last
/// `data:` line its data, without white space at the start. `i` and `k` are
/// the places of these lines.
pub proof fn law_event_fields(
    raw: Seq<u8>,
    i: int,
    before_name: Seq<char>,
    name: Seq<char>,
    after_name: Seq<char>,
    k: int,
    before_data: Seq<char>,
    data: Seq<char>,
)
    requires
        valid_utf8(raw),
        0 <= i < lines(decode_utf8(raw)).len(),
        lines(decode_utf8(raw))[i] == "event:"@ + before_name + name + after_name,
        forall|j: int|
            i < j < lines(decode_utf8(raw)).len() ==> !"event:"@.is_prefix_of(
                #[trigger] lines(decode_utf8(raw))[j],
            ),
        0 <= k < lines(decode_utf8(raw)).len(),
        lines(decode_utf8(raw))[k] == "data:"@ + before_data + data,
        forall|j: int|
            k < j < lines(decode_utf8(raw)).len() ==> !"data:"@.is_prefix_of(
                #[trigger] lines(decode_utf8(raw))[j],
            ),
        forall|j: int| 0 <= j < before_name.len() ==> text::white_space(#[trigger] before_name[j]),
        forall|j: int| 0 <= j < after_name.len() ==> text::white_space(#[trigger] after_name[j]),
        forall|j: int| 0 <= j < before_data.len() ==> text::white_space(#[trigger] before_data[j]),
        name.len() > 0 ==> !text::white_space(name[0]) && !text::white_space(name.last()),
        data.len() > 0 ==> !text::white_space(data[0]),
    ensures
        named_event(raw) == Some((name, data)),
{
    let ls = lines(decode_utf8(raw));
    let event = before_name + name + after_name;
    assert(ls[i] =~= "event:"@ + event);
    assert(ls[i].subrange(0, "event:"@.len() as int) =~= "event:"@);
    assert(ls[i].skip("event:"@.len() as int) =~= event);
    lemma_last_field_at(ls, "event:"@, i);
    text::law_trimming(before_name, name, after_name);
    let value = before_data + data;
    assert(ls[k] =~= "data:"@ + value);
    assert(ls[k].subrange(0, "data:"@.len() as int) =~= "data:"@);
    assert(ls[k].skip("data:"@.len() as int) =~= value);
    lemma_last_field_at(ls, "data:"@, k);
    text::lemma_trim_start_of(before_data, data);
}

/// Bytes that are no text, or lack one of the two fields, are no event.
pub proof fn law_no_event(raw: Seq<u8>)
    requires
        !valid_utf8(raw) || (forall|j: int|
            0 <= j < lines(decode_utf8(raw)).len() ==> !"event:"@.is_prefix_of(
                #[trigger] lines(decode_utf8(raw))[j],
            )) || (forall|j: int|
            0 <= j < lines(decode_utf8(raw)).len() ==> !"data:"@.is_prefix_of(
                #[trigger] lines(decode_utf8(raw))[j],
            )),
    ensures
        named_event(raw) is None,
{
    if valid_utf8(raw) {
        let ls = lines(decode_utf8(raw));
        if forall|j: int| 0 <= j < ls.len() ==> !"event:"@.is_prefix_of(#[trigger] ls[j]) {
            lemma_no_field(ls, "event:"@);
        } else {
            lemma_no_field(ls, "data:"@);
        }
    }
}

proof fn lemma_text_of_two_lines(first: Seq<char>, second: Seq<char>)
    requires
        forall|i: int| 0 <= i < first.len() ==> #[trigger] first[i] != '\n' && first[i] != '\r',
        forall|i: int| 0 <= i < second.len() ==> #[trigger] second[i] != '\n' && second[i] != '\r',
    ensures
        lines(first + seq!['\n'] + second + seq!['\n', '\n']) == seq![
            first,
            second,
            Seq::<char>::empty(),
        ],
{
    let none = Seq::<char>::empty();
    let tail = second + seq!['\n'] + seq!['\n'];
    law_lines(first, tail);
    law_lines(second, seq!['\n']);
    law_lines(none, none);
    assert(first + seq!['\n'] + second + seq!['\n', '\n'] =~= first + seq!['\n'] + tail);
    assert(none + seq!['\n'] + none =~= seq!['\n']);
    assert(seq![first] + (seq![second] + (seq![none] + lines(none))) =~= seq![first, second, none]);
}

/// The bytes of an event as it is sent say its name and its data.
pub proof fn law_written_event_reads_back(name: Seq<char>, data: Seq<char>)
    requires
        forall|i: int| 0 <= i < name.len() ==> #[trigger] name[i] != '\n' && name[i] != '\r',
        forall|i: int| 0 <= i < data.len() ==> #[trigger] data[i] != '\n' && data[i] != '\r',
        name.len() > 0 ==> !text::white_space(name[0]) && !text::white_space(name.last()),
        data.len() > 0 ==> !text::white_space(data[0]),
    ensures
        named_event(encode_utf8("event: "@ + name + "\ndata: "@ + data + "\n\n"@)) == Some(
            (name, data),
        ),
{
    let s = "event: "@ + name + "\ndata: "@ + data + "\n\n"@;
    let raw = encode_utf8(s);
    reveal_strlit("event: ");
    reveal_strlit("\ndata: ");
    reveal_strlit("\n\n");
    reveal_strlit("event:");
    reveal_strlit("data:");
    encode_utf8_valid_utf8(s);
    encode_utf8_decode_utf8(s);
    let first = "event: "@ + name;
    let second = "data:"@ + seq![' '] + data;
    assert(s =~= first + seq!['\n'] + second + seq!['\n', '\n']);
    lemma_text_of_two_lines(first, second);
    let none = Seq::<char>::empty();
    let ls = lines(decode_utf8(raw));
    assert(first =~= "event:"@ + seq![' '] + name + none);
    assert(second[0] == 'd');
    assert(first[0] == 'e');
    assert forall|j: int| 0 < j < ls.len() implies !"event:"@.is_prefix_of(#[trigger] ls[j]) by {
        if j == 1 {
            if "event:"@.is_prefix_of(second) {
                assert(second.subrange(0, "event:"@.len() as int)[0] == "event:"@[0]);
            }
        }
    }
    assert forall|j: int| 1 < j < ls.len() implies !"data:"@.is_prefix_of(#[trigger] ls[j]) by {
        assert(ls[2].len() == 0);
    }
    law_event_fields(raw, 0, seq![' '], name, none, 1, seq![' '], data);
}

proof fn lemma_encoding_in_parts(a: Seq<char>, b: Seq<char>)
    ensures
        encode_utf8(a + b) == encode_utf8(a) + encode_utf8(b),
    decreases a.len(),
{
    if a.len() > 0 {
        assert((a + b).drop_first() =~= a.drop_first() + b);
        lemma_encoding_in_parts(a.drop_first(), b);
        assert(encode_utf8(a + b) =~= encode_utf8(a) + encode_utf8(b));
    } else {
        assert(a + b =~= b);
        assert(encode_utf8(a) + encode_utf8(b) =~= encode_utf8(b));
    }
}

proof fn lemma_encoding_without_breaks(s: Seq<char>)
    requires
        forall|i: int| 0 <= i < s.len() ==> #[trigger] s[i] != '\n' && s[i] != '\r',
    ensures
        forall|i: int|
            0 <= i < encode_utf8(s).len() ==> #[trigger] encode_utf8(s)[i] != 10 && encode_utf8(
                s,
            )[i] != 13,
    decreases s.len(),
{
    if s.len() > 0 {
        let rest = s.drop_first();
        let b = encode_utf8(s);
        assert forall|i: int| 0 <= i < rest.len() implies #[trigger] rest[i] != '\n' && rest[i]
            != '\r' by {
            assert(s[i + 1] != '\n' && s[i + 1] != '\r');
        }
        lemma_encoding_without_breaks(rest);
        encode_utf8_valid_utf8(s);
        encode_utf8_first_scalar(s);
        encode_utf8_decode_utf8(s);
        assert(s[0] != '\n' && s[0] != '\r');
        assert(b.len() > 0);
        let first = encode_scalar(s[0] as u32);
        assert(b =~= first + encode_utf8(rest));
        assert(decode_utf8(b)[0] == decode_first_scalar(b) as char);
        if is_leading_byte_width_1(b[0]) {
            let x = b[0];
            assert(x & 0x7f == x) by (bit_vector)
                requires
                    x <= 0x7f,
            ;
            assert((x as u32) as char == s[0]);
            assert(10u32 as char == '\n');
            assert(13u32 as char == '\r');
        }
        assert(first =~= take_first_scalar(b));
        assert forall|i: int| 0 <= i < b.len() implies #[trigger] b[i] != 10 && b[i] != 13 by {
            if i >= first.len() {
                assert(b[i] == encode_utf8(rest)[i - first.len()]);
            }
        }
    }
}

/// The bytes of an event as it is sent end where the event ends, whatever
/// follows.
pub proof fn law_written_event_is_one_event(name: Seq<char>, data: Seq<char>, rest: Seq<u8>)
    requires
        forall|i: int| 0 <= i < name.len() ==> #[trigger] name[i] != '\n' && name[i] != '\r',
        forall|i: int| 0 <= i < data.len() ==> #[trigger] data[i] != '\n' && data[i] != '\r',
    ensures
        ({
            let raw = encode_utf8("event: "@ + name + "\ndata: "@ + data + "\n\n"@);
            boundary(raw + rest) == Some(raw.len() as int)
        }),
{
    let s = "event: "@ + name + "\ndata: "@ + data + "\n\n"@;
    reveal_strlit("event: ");
    reveal_strlit("\ndata: ");
    reveal_strlit("\n\n");
    let first = "event: "@ + name;
    let second = seq!['d', 'a', 't', 'a', ':', ' '] + data;
    let feed = seq!['\n'];
    let feeds = seq!['\n', '\n'];
    assert(s =~= first + (feed + (second + feeds)));
    lemma_encoding_in_parts(first, feed + (second + feeds));
    lemma_encoding_in_parts(feed, second + feeds);
    lemma_encoding_in_parts(second, feeds);
    is_ascii_chars_encode_utf8(feed);
    is_ascii_chars_encode_utf8(feeds);
    lemma_encoding_without_breaks(first);
    lemma_encoding_without_breaks(second);
    let a = encode_utf8(first);
    let b = encode_utf8(second);
    assert(second[0] == 'd');
    encode_utf8_first_scalar(second);
    assert(b.len() > 0);
    let raw = encode_utf8(s);
    assert(encode_utf8(feed) =~= seq![10u8]);
    assert(encode_utf8(feeds) =~= seq![10u8, 10u8]);
    assert(raw =~= a + seq![10u8] + b + seq![10u8, 10u8]);
    let buf = raw + rest;
    let n = raw.len() as int;
    assert forall|i: int| 0 <= i < n implies #[trigger] buf[i] != 13 && (buf[i] == 10 ==> i
        == a.len() || i >= n - 2) by {
        if i < a.len() {
            assert(buf[i] == a[i]);
        } else if a.len() < i < n - 2 {
            assert(buf[i] == b[i - a.len() - 1]);
        }
    }
    assert(buf[a.len() as int + 1] == b[0]);
    assert(buf[n - 1] == 10 && buf[n - 2] == 10);
    law_event_ends_at_the_first_blank_line(buf, n);
    let end = boundary(buf)->Some_0;
    law_event_ends_at_the_first_blank_line(buf, end);
    assert(buf[end - 1] == 10);
    assert(buf[end - 2] != 13);
    assert(buf[end - 2] == 10);
}

} // verus!
