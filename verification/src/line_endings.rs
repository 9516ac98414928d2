//! Streams whose lines end in a carriage return and a line feed: they hold the
//! same events as the streams whose lines end in a line feed alone.
use vstd::prelude::*;
use vstd::utf8::*;

use crate::sse;

verus! {

/// `b` with a carriage return before each line feed.
pub open spec fn crlf(b: Seq<u8>) -> Seq<u8>
    decreases b.len(),
{
    if b.len() == 0 {
        seq![]
    } else if b[0] == 10 {
        seq![13u8, 10u8] + crlf(b.drop_first())
    } else {
        seq![b[0]] + crlf(b.drop_first())
    }
}

/// `s` with a carriage return before each line feed.
pub open spec fn crlf_text(s: Seq<char>) -> Seq<char>
    decreases s.len(),
{
    if s.len() == 0 {
        seq![]
    } else if s[0] == '\n' {
        seq!['\r', '\n'] + crlf_text(s.drop_first())
    } else {
        seq![s[0]] + crlf_text(s.drop_first())
    }
}

/// Whether `b` holds no carriage return.
pub open spec fn no_return(b: Seq<u8>) -> bool {
    forall|i: int| 0 <= i < b.len() ==> #[trigger] b[i] != 13
}

/// Whether `s` holds no carriage return.
pub open spec fn no_return_in_text(s: Seq<char>) -> bool {
    forall|i: int| 0 <= i < s.len() ==> #[trigger] s[i] != '\r'
}

/// Two parts can be changed one by one.
pub proof fn lemma_crlf_parts(a: Seq<u8>, b: Seq<u8>)
    ensures
        crlf(a + b) == crlf(a) + crlf(b),
    decreases a.len(),
{
    if a.len() == 0 {
        assert(a + b =~= b);
        assert(crlf(a) + crlf(b) =~= crlf(b));
    } else {
        lemma_crlf_parts(a.drop_first(), b);
        assert((a + b).drop_first() =~= a.drop_first() + b);
        assert(crlf(a + b) =~= crlf(a) + crlf(b));
    }
}

/// Bytes without a line feed stay as they are.
proof fn lemma_crlf_of_one_line(b: Seq<u8>)
    requires
        forall|i: int| 0 <= i < b.len() ==> #[trigger] b[i] != 10,
    ensures
        crlf(b) == b,
    decreases b.len(),
{
    if b.len() > 0 {
        assert forall|i: int| 0 <= i < b.drop_first().len() implies #[trigger] b.drop_first()[i]
            != 10 by {
            assert(b[i + 1] != 10);
        }
        lemma_crlf_of_one_line(b.drop_first());
    }
    assert(crlf(b) =~= b);
}

/// What stands before the first carriage return stood there before.
proof fn lemma_crlf_prefix(b: Seq<u8>, n: int)
    requires
        0 <= n <= crlf(b).len(),
        forall|i: int| 0 <= i < n ==> #[trigger] crlf(b)[i] != 13,
    ensures
        n <= b.len(),
        forall|i: int| 0 <= i < n ==> #[trigger] b[i] == crlf(b)[i],
    decreases b.len(),
{
    if b.len() > 0 && n > 0 {
        assert(crlf(b)[0] != 13);
        let rest = crlf(b.drop_first());
        assert forall|i: int| 0 <= i < n - 1 implies #[trigger] rest[i] != 13 by {
            assert(crlf(b)[i + 1] != 13);
        }
        lemma_crlf_prefix(b.drop_first(), n - 1);
        assert forall|i: int| 0 <= i < n implies #[trigger] b[i] == crlf(b)[i] by {
            if i > 0 {
                assert(b.drop_first()[i - 1] == rest[i - 1]);
            }
        }
    }
}

proof fn lemma_boundary_shifts(buf: Seq<u8>, i: int)
    requires
        buf.len() > 0,
        0 <= i,
    ensures
        sse::boundary_from(buf, i + 1) == (match sse::boundary_from(buf.drop_first(), i) {
            Some(n) => Some(n + 1),
            None => None,
        }),
    decreases buf.len() - i,
{
    if i + 2 < buf.len() {
        lemma_boundary_shifts(buf, i + 1);
        assert(sse::blank_line_at(buf, i + 1) == sse::blank_line_at(buf.drop_first(), i));
    }
}

/// The first event ends at its blank line, or where it ends in what follows the
/// first byte.
proof fn lemma_boundary_steps(buf: Seq<u8>)
    requires
        buf.len() > 0,
    ensures
        sse::boundary(buf) == (if sse::blank_line_at(buf, 0) > 0 {
            Some(sse::blank_line_at(buf, 0))
        } else {
            match sse::boundary(buf.drop_first()) {
                Some(n) => Some(n + 1),
                None => None,
            }
        }),
{
    lemma_boundary_shifts(buf, 0);
    if buf.len() == 1 {
        reveal_with_fuel(sse::boundary_from, 2);
    }
}

/// The first event ends in the same place.
pub proof fn lemma_crlf_boundary(b: Seq<u8>)
    requires
        no_return(b),
    ensures
        sse::boundary(crlf(b)) == (match sse::boundary(b) {
            Some(n) => Some(crlf(b.take(n)).len() as int),
            None => None,
        }),
    decreases b.len(),
{
    if b.len() > 0 {
        let rest = b.drop_first();
        let c = crlf(b);
        assert forall|i: int| 0 <= i < rest.len() implies #[trigger] rest[i] != 13 by {
            assert(b[i + 1] != 13);
        }
        lemma_crlf_boundary(rest);
        lemma_boundary_steps(b);
        lemma_boundary_steps(c);
        sse::lemma_boundary_in_range(rest, 0);
        assert(b[0] != 13);
        if let Some(n) = sse::boundary(rest) {
            assert(b.take(n + 1).drop_first() =~= rest.take(n));
        }
        if rest.len() > 0 {
            assert(rest[0] == b[1] && rest[0] != 13);
        }
        if b[0] != 10 {
            assert(c.drop_first() =~= crlf(rest));
        } else if rest.len() > 0 && rest[0] == 10 {
            assert(c[2] == crlf(rest)[0] && c[3] == crlf(rest)[1]);
            assert(b.take(2).drop_first() =~= seq![10u8]);
            assert(b.take(2).drop_first().drop_first() =~= seq![]);
            reveal_with_fuel(crlf, 4);
        } else {
            if rest.len() > 0 {
                assert(c[2] == crlf(rest)[0] == rest[0]);
            }
            lemma_boundary_steps(c.drop_first());
            assert(c.drop_first().drop_first() =~= crlf(rest));
        }
    }
}

/// A one-byte character is the byte.
proof fn lemma_ascii_decodes(b: u8)
    requires
        b <= 0x7f,
    ensures
        codepoint_width_1(b) == b,
{
    assert(b & 0x7f == b) by (bit_vector)
        requires
            b <= 0x7f,
    ;
}

/// The first character of a text is a line break only where its first byte is.
proof fn lemma_first_break(b: Seq<u8>)
    requires
        valid_utf8(b),
        b.len() > 0,
    ensures
        decode_first_scalar(b) as char == '\n' <==> b[0] == 10,
        decode_first_scalar(b) as char == '\r' <==> b[0] == 13,
{
    if is_leading_byte_width_1(b[0]) {
        lemma_ascii_decodes(b[0]);
        assert((b[0] as u32) as char as u32 == b[0] as u32);
    } else {
        decode_utf8_first_scalar(b);
        assert(take_first_scalar(b).len() > 1);
    }
}

/// The bytes are text where they were, and the characters are changed as the
/// bytes are.
pub proof fn lemma_crlf_decodes(b: Seq<u8>)
    requires
        no_return(b),
    ensures
        valid_utf8(crlf(b)) == valid_utf8(b),
        valid_utf8(b) ==> decode_utf8(crlf(b)) == crlf_text(decode_utf8(b)),
        valid_utf8(b) ==> no_return_in_text(decode_utf8(b)),
    decreases b.len(),
{
    let c = crlf(b);
    if b.len() == 0 {
    } else if b[0] == 10 {
        let rest = b.drop_first();
        assert forall|i: int| 0 <= i < rest.len() implies #[trigger] rest[i] != 13 by {
            assert(b[i + 1] != 13);
        }
        lemma_crlf_decodes(rest);
        lemma_ascii_decodes(10);
        lemma_ascii_decodes(13);
        assert(pop_first_scalar(b) =~= rest);
        let fed = c.drop_first();
        assert(pop_first_scalar(c) =~= fed);
        assert(pop_first_scalar(fed) =~= crlf(rest));
        assert(fed[0] == 10);
        assert(valid_first_scalar(b));
        assert(valid_first_scalar(fed));
        assert(valid_first_scalar(c));
        assert(valid_utf8(fed) == valid_utf8(crlf(rest)));
        assert(valid_utf8(c) == valid_utf8(fed));
        if valid_utf8(b) {
            lemma_first_break(b);
            lemma_first_break(c);
            lemma_first_break(fed);
            assert(decode_utf8(b) =~= seq!['\n'] + decode_utf8(rest));
            assert(decode_utf8(b).drop_first() =~= decode_utf8(rest));
            assert(decode_utf8(fed) =~= seq!['\n'] + decode_utf8(crlf(rest)));
            assert(decode_utf8(c) =~= seq!['\r', '\n'] + decode_utf8(crlf(rest)));
        }
    } else {
        assert(b[0] != 13);
        if valid_first_scalar(c) {
            lemma_crlf_prefix(b, length_of_first_scalar(c));
            assert(valid_first_scalar(b));
        }
        if valid_first_scalar(b) {
            let n = length_of_first_scalar(b);
            let first = b.take(n);
            let rest = b.skip(n);
            assert forall|i: int| 0 <= i < rest.len() implies #[trigger] rest[i] != 13 by {
                assert(b[i + n] != 13);
            }
            lemma_crlf_decodes(rest);
            lemma_crlf_of_one_line(first);
            lemma_crlf_parts(first, rest);
            assert(b =~= first + rest);
            assert(c == first + crlf(rest));
            assert(forall|i: int| 0 <= i < n ==> c[i] == b[i]);
            assert(valid_first_scalar(c));
            assert(pop_first_scalar(b) =~= rest);
            assert(pop_first_scalar(c) =~= crlf(rest));
            if valid_utf8(b) {
                lemma_first_break(b);
                let x = decode_first_scalar(b) as char;
                assert(decode_utf8(b) =~= seq![x] + decode_utf8(rest));
                assert(decode_utf8(b).drop_first() =~= decode_utf8(rest));
                assert(decode_utf8(c) =~= seq![x] + decode_utf8(crlf(rest)));
            }
        }
    }
}

/// What stands before the first line feed belongs to the line.
proof fn lemma_line_len_of(a: Seq<char>, rest: Seq<char>)
    requires
        forall|i: int| 0 <= i < a.len() ==> #[trigger] a[i] != '\n',
    ensures
        sse::line_len(a + rest) == a.len() + sse::line_len(rest),
    decreases a.len(),
{
    if a.len() > 0 {
        assert(a[0] != '\n');
        assert((a + rest).drop_first() =~= a.drop_first() + rest);
        assert forall|i: int| 0 <= i < a.drop_first().len() implies #[trigger] a.drop_first()[i]
            != '\n' by {
            assert(a[i + 1] != '\n');
        }
        lemma_line_len_of(a.drop_first(), rest);
    } else {
        assert(a + rest =~= rest);
    }
}

/// The first line holds no line feed and is followed by one, unless it is the
/// last.
proof fn lemma_first_line(s: Seq<char>)
    ensures
        0 <= sse::line_len(s) <= s.len(),
        forall|i: int| 0 <= i < sse::line_len(s) ==> #[trigger] s[i] != '\n',
        sse::line_len(s) < s.len() ==> s[sse::line_len(s)] == '\n',
    decreases s.len(),
{
    if s.len() > 0 && s[0] != '\n' {
        lemma_first_line(s.drop_first());
        assert forall|i: int| 0 <= i < sse::line_len(s) implies #[trigger] s[i] != '\n' by {
            if i > 0 {
                assert(s.drop_first()[i - 1] != '\n');
            }
        }
    }
}

/// Changing a text line by line: its first line stays as it is.
proof fn lemma_crlf_text_parts(a: Seq<char>, rest: Seq<char>)
    requires
        forall|i: int| 0 <= i < a.len() ==> #[trigger] a[i] != '\n',
    ensures
        crlf_text(a + rest) == a + crlf_text(rest),
    decreases a.len(),
{
    if a.len() > 0 {
        assert(a[0] != '\n');
        assert((a + rest).drop_first() =~= a.drop_first() + rest);
        assert forall|i: int| 0 <= i < a.drop_first().len() implies #[trigger] a.drop_first()[i]
            != '\n' by {
            assert(a[i + 1] != '\n');
        }
        lemma_crlf_text_parts(a.drop_first(), rest);
        assert(crlf_text(a + rest) =~= a + crlf_text(rest));
    } else {
        assert(a + rest =~= rest);
        assert(a + crlf_text(rest) =~= crlf_text(rest));
    }
}

/// The lines are the same.
pub proof fn lemma_crlf_lines(s: Seq<char>)
    requires
        no_return_in_text(s),
    ensures
        sse::lines(crlf_text(s)) == sse::lines(s),
    decreases s.len(),
{
    if s.len() > 0 {
        let n = sse::line_len(s);
        let t = crlf_text(s);
        let line = s.take(n);
        lemma_first_line(s);
        lemma_crlf_text_parts(line, s.skip(n));
        assert(s =~= line + s.skip(n));
        if n < s.len() {
            let rest = s.skip(n + 1);
            assert forall|i: int| 0 <= i < rest.len() implies #[trigger] rest[i] != '\r' by {
                assert(s[i + n + 1] != '\r');
            }
            lemma_crlf_lines(rest);
            assert(s.skip(n)[0] == '\n');
            assert(s.skip(n).drop_first() =~= rest);
            let ended = line.push('\r');
            assert(t =~= ended + (seq!['\n'] + crlf_text(rest)));
            assert forall|i: int| 0 <= i < ended.len() implies #[trigger] ended[i] != '\n' by {
                if i < n {
                    assert(s[i] != '\n');
                }
            }
            lemma_line_len_of(ended, seq!['\n'] + crlf_text(rest));
            assert(t.take(n + 1) =~= ended);
            assert(ended.drop_last() =~= line);
            assert(t.skip(n + 2) =~= crlf_text(rest));
            if n > 0 {
                assert(s[n - 1] != '\r');
            }
            assert(sse::without_return(line) =~= line);
        } else {
            assert(s.skip(n) =~= seq![]);
            assert(t =~= s);
        }
    }
}

/// An event says the same.
pub proof fn lemma_crlf_event(raw: Seq<u8>)
    requires
        no_return(raw),
    ensures
        sse::named_event(crlf(raw)) == sse::named_event(raw),
{
    lemma_crlf_decodes(raw);
    if valid_utf8(raw) {
        lemma_crlf_lines(decode_utf8(raw));
    }
}

} // verus!
