//! Formatting of aggregated exec output for the model: full output when it is
//! small, otherwise a head+tail excerpt around an elision marker, within hard
//! byte and line budgets. Front-ends receive the full streams; only this
//! model-facing summary is capped.

use vstd::prelude::*;

verus! {

use crate::chars::char_utf8_len;
use crate::chars::char_width;
use crate::chars::lemma_encode_utf8_concat;
use crate::chars::lemma_utf8_len_push;
use crate::chars::str_to_chars;
use crate::chars::chars_to_string;
use crate::chars::str_byte_len;
use crate::chars::utf8_len;

/// Byte cap of the model-facing output.
pub const MODEL_FORMAT_MAX_BYTES: usize = 10240;

/// Line cap that triggers truncation.
pub const MODEL_FORMAT_MAX_LINES: usize = 256;

/// Lines kept from the head of the output.
pub const MODEL_FORMAT_HEAD_LINES: usize = 128;

/// Lines kept from the tail of the output.
pub const MODEL_FORMAT_TAIL_LINES: usize = 128;

/// Byte budget for the head part.
pub const MODEL_FORMAT_HEAD_BYTES: usize = 5120;

/// One captured output stream.
#[derive(Debug, Clone)]
pub struct StreamOutput {
    pub text: String,
}

impl StreamOutput {
    pub fn new(text: String) -> (r: StreamOutput)
        ensures
            r.text == text,
    {
        StreamOutput { text }
    }
}

/// Result of one exec tool call. The duration is carried in milliseconds.
#[derive(Debug, Clone)]
pub struct ExecToolCallOutput {
    pub exit_code: i32,
    pub stdout: StreamOutput,
    pub stderr: StreamOutput,
    pub aggregated_output: StreamOutput,
    pub duration_ms: u64,
}

/// Decimal digit character for `0 <= d <= 9`.
pub open spec fn dec_digit(d: int) -> char {
    ((48 + d) as u8) as char
}

/// Decimal representation of a non-negative integer.
pub open spec fn dec_str(n: int) -> Seq<char>
    recommends
        n >= 0,
    decreases n,
{
    if n < 10 {
        seq![dec_digit(if n >= 0 {
            n
        } else {
            0
        })]
    } else {
        dec_str(n / 10) + seq![dec_digit(n % 10)]
    }
}

/// Decimal rendering of a `usize`.
pub fn usize_to_dec_string(n: usize) -> (r: Vec<char>)
    ensures
        r@ == dec_str(n as int),
{
    if n < 10 {
        let c = ((48 + n) as u8) as char;
        let mut out: Vec<char> = Vec::new();
        out.push(c);
        proof {
            assert(out@ =~= seq![dec_digit(n as int)]);
        }
        return out;
    }
    let mut m: usize = n;
    let mut rev: Vec<char> = Vec::new();
    while m > 0
        invariant
            m > 0 ==> dec_str(n as int) == dec_str(m as int) + rev@.reverse(),
            m == 0 ==> dec_str(n as int) == rev@.reverse(),
        decreases m,
    {
        let d = m % 10;
        let c = ((48 + d) as u8) as char;
        let ghost rev0 = rev@;
        rev.push(c);
        proof {
            assert(rev@ =~= rev0.push(c));
            assert(rev@.reverse() =~= seq![c] + rev0.reverse());
            assert(c == dec_digit(m as int % 10));
            if m >= 10 {
                assert(dec_str(m as int) == dec_str(m as int / 10) + seq![dec_digit(
                    m as int % 10,
                )]);
                assert(dec_str(m as int / 10) + (seq![c] + rev0.reverse()) =~= (dec_str(
                    m as int / 10,
                ) + seq![c]) + rev0.reverse());
            } else {
                assert(dec_str(m as int) =~= seq![c]);
                assert(seq![c] + rev0.reverse() =~= dec_str(m as int) + rev0.reverse());
            }
        }
        m = m / 10;
    }
    let mut out: Vec<char> = Vec::new();
    let mut k: usize = rev.len();
    while k > 0
        invariant
            k <= rev.len(),
            out@ == rev@.reverse().take(rev@.len() - k),
        decreases k,
    {
        k = k - 1;
        out.push(rev[k]);
        proof {
            assert(rev@.reverse()[rev@.len() - k - 1] == rev@[k as int]);
            assert(rev@.reverse().take(rev@.len() - k) =~= rev@.reverse().take(
                rev@.len() - k - 1,
            ).push(rev@[k as int]));
        }
    }
    proof {
        assert(rev@.reverse().take(rev@.len() as int) =~= rev@.reverse());
    }
    out
}

/// Decimal rendering of a `u64`.
pub fn u64_to_dec_string(n: u64) -> (r: Vec<char>)
    ensures
        r@ == dec_str(n as int),
{
    if n < 10 {
        let c = ((48 + n) as u8) as char;
        let mut out: Vec<char> = Vec::new();
        out.push(c);
        proof {
            assert(out@ =~= seq![dec_digit(n as int)]);
        }
        return out;
    }
    let mut m: u64 = n;
    let mut rev: Vec<char> = Vec::new();
    while m > 0
        invariant
            m > 0 ==> dec_str(n as int) == dec_str(m as int) + rev@.reverse(),
            m == 0 ==> dec_str(n as int) == rev@.reverse(),
        decreases m,
    {
        let d = m % 10;
        let c = ((48 + d) as u8) as char;
        let ghost rev0 = rev@;
        rev.push(c);
        proof {
            assert(rev@ =~= rev0.push(c));
            assert(rev@.reverse() =~= seq![c] + rev0.reverse());
            assert(c == dec_digit(m as int % 10));
            if m >= 10 {
                assert(dec_str(m as int) == dec_str(m as int / 10) + seq![dec_digit(
                    m as int % 10,
                )]);
                assert(dec_str(m as int / 10) + (seq![c] + rev0.reverse()) =~= (dec_str(
                    m as int / 10,
                ) + seq![c]) + rev0.reverse());
            } else {
                assert(dec_str(m as int) =~= seq![c]);
                assert(seq![c] + rev0.reverse() =~= dec_str(m as int) + rev0.reverse());
            }
        }
        m = m / 10;
    }
    let mut out: Vec<char> = Vec::new();
    let mut k: usize = rev.len();
    while k > 0
        invariant
            k <= rev.len(),
            out@ == rev@.reverse().take(rev@.len() - k),
        decreases k,
    {
        k = k - 1;
        out.push(rev[k]);
        proof {
            assert(rev@.reverse()[rev@.len() - k - 1] == rev@[k as int]);
            assert(rev@.reverse().take(rev@.len() - k) =~= rev@.reverse().take(
                rev@.len() - k - 1,
            ).push(rev@[k as int]));
        }
    }
    proof {
        assert(rev@.reverse().take(rev@.len() as int) =~= rev@.reverse());
    }
    out
}

/// Longest prefix whose UTF-8 encoding fits in `maxb` bytes.
pub open spec fn take_prefix_bytes(s: Seq<char>, maxb: int) -> Seq<char>
    decreases s.len(),
{
    if s.len() == 0 {
        Seq::empty()
    } else if char_utf8_len(s[0]) > maxb {
        Seq::empty()
    } else {
        seq![s[0]] + take_prefix_bytes(s.drop_first(), maxb - char_utf8_len(s[0]))
    }
}

/// Longest suffix whose UTF-8 encoding fits in `maxb` bytes.
pub open spec fn take_suffix_bytes(s: Seq<char>, maxb: int) -> Seq<char>
    decreases s.len(),
{
    if s.len() == 0 {
        Seq::empty()
    } else if char_utf8_len(s.last()) > maxb {
        Seq::empty()
    } else {
        take_suffix_bytes(s.drop_last(), maxb - char_utf8_len(s.last())) + seq![s.last()]
    }
}

/// The prefix under a byte budget indeed fits in it.
pub proof fn lemma_take_prefix_bytes_len(s: Seq<char>, maxb: int)
    requires
        maxb >= 0,
    ensures
        utf8_len(take_prefix_bytes(s, maxb)) <= maxb,
    decreases s.len(),
{
    if s.len() == 0 {
        assert(vstd::utf8::encode_utf8(Seq::<char>::empty()) =~= Seq::<u8>::empty());
    } else if char_utf8_len(s[0]) > maxb {
        assert(vstd::utf8::encode_utf8(Seq::<char>::empty()) =~= Seq::<u8>::empty());
    } else {
        lemma_take_prefix_bytes_len(s.drop_first(), maxb - char_utf8_len(s[0]));
        lemma_encode_utf8_concat(seq![s[0]], take_prefix_bytes(
            s.drop_first(),
            maxb - char_utf8_len(s[0]),
        ));
        lemma_utf8_len_single(s[0]);
    }
}

/// The suffix under a byte budget indeed fits in it.
pub proof fn lemma_take_suffix_bytes_len(s: Seq<char>, maxb: int)
    requires
        maxb >= 0,
    ensures
        utf8_len(take_suffix_bytes(s, maxb)) <= maxb,
    decreases s.len(),
{
    if s.len() == 0 {
        assert(vstd::utf8::encode_utf8(Seq::<char>::empty()) =~= Seq::<u8>::empty());
    } else if char_utf8_len(s.last()) > maxb {
        assert(vstd::utf8::encode_utf8(Seq::<char>::empty()) =~= Seq::<u8>::empty());
    } else {
        lemma_take_suffix_bytes_len(s.drop_last(), maxb - char_utf8_len(s.last()));
        lemma_encode_utf8_concat(take_suffix_bytes(
            s.drop_last(),
            maxb - char_utf8_len(s.last()),
        ), seq![s.last()]);
        lemma_utf8_len_single(s.last());
    }
}

/// UTF-8 length of a one-character sequence.
pub proof fn lemma_utf8_len_single(c: char)
    ensures
        utf8_len(seq![c]) == char_utf8_len(c),
{
    assert(seq![c].drop_first() =~= Seq::<char>::empty());
    assert(vstd::utf8::encode_utf8(seq![c]) == vstd::utf8::encode_scalar(c as u32)
        + vstd::utf8::encode_utf8(seq![c].drop_first()));
    assert(vstd::utf8::encode_utf8(Seq::<char>::empty()) =~= Seq::<u8>::empty());
    assert(vstd::utf8::encode_scalar(c as u32) + Seq::<u8>::empty() =~= vstd::utf8::encode_scalar(
        c as u32,
    ));
}

/// Executable greedy prefix under a byte budget; also returns the bytes used.
pub fn take_prefix_bytes_exec(s: &Vec<char>, maxb: usize) -> (r: (Vec<char>, usize))
    ensures
        r.0@ == take_prefix_bytes(s@, maxb as int),
        r.1 == utf8_len(r.0@),
        r.1 <= maxb,
{
    let mut out: Vec<char> = Vec::new();
    let mut used: usize = 0;
    let mut i: usize = 0;
    proof {
        assert(vstd::utf8::encode_utf8(Seq::<char>::empty()) =~= Seq::<u8>::empty());
        assert(s@.skip(0) =~= s@);
    }
    while i < s.len()
        invariant
            i <= s.len(),
            used == utf8_len(out@),
            used <= maxb,
            take_prefix_bytes(s@, maxb as int) == out@ + take_prefix_bytes(
                s@.skip(i as int),
                maxb - used,
            ),
        decreases s.len() - i,
    {
        let c = s[i];
        let w = char_width(c);
        proof {
            assert(s@.skip(i as int)[0] == s@[i as int]);
            assert(s@.skip(i as int).drop_first() =~= s@.skip(i as int + 1));
        }
        if w > maxb - used {
            proof {
                assert(take_prefix_bytes(s@.skip(i as int), maxb - used) =~= Seq::<char>::empty());
                assert(out@ + Seq::<char>::empty() =~= out@);
            }
            return (out, used);
        }
        let ghost out0 = out@;
        out.push(c);
        used = used + w;
        proof {
            lemma_utf8_len_push(out0, c);
            assert(out@ =~= out0.push(c));
            assert(out0.push(c) =~= out0 + seq![c]);
            assert(out0 + (seq![c] + take_prefix_bytes(s@.skip(i as int + 1), maxb - used)) =~= (
            out0 + seq![c]) + take_prefix_bytes(s@.skip(i as int + 1), maxb - used));
        }
        i = i + 1;
    }
    proof {
        assert(s@.skip(s@.len() as int) =~= Seq::<char>::empty());
        assert(take_prefix_bytes(Seq::<char>::empty(), maxb - used) =~= Seq::<char>::empty());
        assert(out@ + Seq::<char>::empty() =~= out@);
    }
    (out, used)
}

/// Executable greedy suffix under a byte budget.
pub fn take_suffix_bytes_exec(s: &Vec<char>, maxb: usize) -> (r: Vec<char>)
    ensures
        r@ == take_suffix_bytes(s@, maxb as int),
{
    let mut start: usize = s.len();
    let mut used: usize = 0;
    proof {
        assert(s@.skip(s@.len() as int) =~= Seq::<char>::empty());
        assert(vstd::utf8::encode_utf8(Seq::<char>::empty()) =~= Seq::<u8>::empty());
        assert(s@.take(s@.len() as int) =~= s@);
        assert(take_suffix_bytes(s@, maxb as int) + Seq::<char>::empty() =~= take_suffix_bytes(
            s@,
            maxb as int,
        ));
    }
    while start > 0 && char_width(s[start - 1]) <= maxb - used
        invariant
            start <= s@.len(),
            used == utf8_len(s@.skip(start as int)),
            used <= maxb,
            take_suffix_bytes(s@, maxb as int) == take_suffix_bytes(
                s@.take(start as int),
                maxb - used,
            ) + s@.skip(start as int),
        decreases start,
    {
        let c = s[start - 1];
        let w = char_width(c);
        proof {
            assert(s@.take(start as int).last() == s@[start - 1]);
            assert(s@.take(start as int).drop_last() =~= s@.take(start - 1));
            // Peeling the last character of the remaining head onto the suffix.
            assert(take_suffix_bytes(s@.take(start as int), maxb - used) == take_suffix_bytes(
                s@.take(start - 1),
                maxb - used - char_utf8_len(c),
            ) + seq![c]);
            assert(s@.skip(start - 1) =~= seq![c] + s@.skip(start as int));
            lemma_encode_utf8_concat(seq![c], s@.skip(start as int));
            lemma_utf8_len_single(c);
            assert((take_suffix_bytes(s@.take(start - 1), maxb - used - char_utf8_len(c))
                + seq![c]) + s@.skip(start as int) =~= take_suffix_bytes(
                s@.take(start - 1),
                maxb - used - char_utf8_len(c),
            ) + (seq![c] + s@.skip(start as int)));
        }
        start = start - 1;
        used = used + w;
    }
    // Either the head is exhausted or its last character does not fit.
    proof {
        if start > 0 {
            assert(s@.take(start as int).last() == s@[start - 1]);
            assert(char_utf8_len(s@[start - 1]) > maxb - used);
            assert(take_suffix_bytes(s@.take(start as int), maxb - used) =~= Seq::<char>::empty());
            assert(Seq::<char>::empty() + s@.skip(start as int) =~= s@.skip(start as int));
        } else {
            assert(s@.take(0) =~= Seq::<char>::empty());
            assert(take_suffix_bytes(Seq::<char>::empty(), maxb - used) =~= Seq::<char>::empty());
            assert(Seq::<char>::empty() + s@.skip(0) =~= s@.skip(0));
            assert(s@.skip(0) =~= s@);
        }
    }
    let mut out: Vec<char> = Vec::new();
    let mut j: usize = start;
    while j < s.len()
        invariant
            start <= j <= s@.len(),
            out@ == s@.subrange(start as int, j as int),
        decreases s.len() - j,
    {
        out.push(s[j]);
        proof {
            assert(s@.subrange(start as int, j + 1) =~= s@.subrange(start as int, j as int).push(
                s@[j as int],
            ));
        }
        j = j + 1;
    }
    proof {
        assert(s@.subrange(start as int, s@.len() as int) =~= s@.skip(start as int));
    }
    out
}

/// Split on `'\n'`: always at least one piece; a trailing newline yields a
/// trailing empty piece.
pub open spec fn split_nl(s: Seq<char>) -> Seq<Seq<char>>
    decreases s.len(),
{
    if s.len() == 0 {
        seq![Seq::<char>::empty()]
    } else if s[0] == '\n' {
        seq![Seq::<char>::empty()] + split_nl(s.drop_first())
    } else {
        let r = split_nl(s.drop_first());
        seq![seq![s[0]] + r[0]] + r.drop_first()
    }
}

pub proof fn lemma_split_nl_nonempty(s: Seq<char>)
    ensures
        split_nl(s).len() >= 1,
    decreases s.len(),
{
    if s.len() > 0 {
        lemma_split_nl_nonempty(s.drop_first());
    }
}

/// Drop one carriage return at the end of a line, as the line terminator
/// `"\r\n"` leaves it there.
pub open spec fn strip_cr(p: Seq<char>) -> Seq<char> {
    if p.len() > 0 && p.last() == '\r' {
        p.drop_last()
    } else {
        p
    }
}

/// The lines of `s`: split at `'\n'`, with `"\r\n"` also recognized; a final
/// line ending does not produce an extra empty line.
pub open spec fn lines_of(s: Seq<char>) -> Seq<Seq<char>> {
    if s.len() == 0 {
        Seq::empty()
    } else {
        let ps = split_nl(s);
        let keep = if s.last() == '\n' {
            ps.drop_last()
        } else {
            ps
        };
        Seq::new(keep.len(), |i: int| if i < ps.len() - 1 {
            strip_cr(keep[i])
        } else {
            keep[i]
        })
    }
}

/// Join pieces with single newlines.
pub open spec fn join_nl(parts: Seq<Seq<char>>) -> Seq<char>
    decreases parts.len(),
{
    if parts.len() == 0 {
        Seq::empty()
    } else if parts.len() == 1 {
        parts[0]
    } else {
        parts[0] + seq!['\n'] + join_nl(parts.drop_first())
    }
}

/// Peeling the last piece off a newline-join.
pub proof fn lemma_join_nl_snoc(parts: Seq<Seq<char>>)
    requires
        parts.len() >= 1,
    ensures
        parts.len() == 1 ==> join_nl(parts) == parts[0],
        parts.len() > 1 ==> join_nl(parts) == join_nl(parts.drop_last()) + seq!['\n']
            + parts.last(),
    decreases parts.len(),
{
    if parts.len() > 1 {
        lemma_join_nl_snoc(parts.drop_first());
        assert(parts.drop_first().drop_last() =~~= parts.drop_last().drop_first());
        if parts.len() == 2 {
            assert(join_nl(parts.drop_last()) == parts[0]);
            assert(join_nl(parts.drop_first()) == parts[1]);
        } else {
            assert(parts.drop_last().len() > 1);
            assert(join_nl(parts.drop_first()) =~= join_nl(parts.drop_first().drop_last())
                + seq!['\n'] + parts.drop_first().last());
            assert(parts.drop_first().last() == parts.last());
            assert(parts.drop_last()[0] == parts[0]);
            assert(parts[0] + seq!['\n'] + (join_nl(parts.drop_first().drop_last()) + seq!['\n']
                + parts.last()) =~= (parts[0] + seq!['\n'] + join_nl(
                parts.drop_first().drop_last(),
            )) + seq!['\n'] + parts.last());
        }
    }
}

/// Executable newline-join of `parts[from..to]`.
pub fn join_nl_exec(parts: &Vec<Vec<char>>, from: usize, to: usize) -> (r: Vec<char>)
    requires
        from <= to <= parts@.len(),
    ensures
        r@ == join_nl(parts.deep_view().subrange(from as int, to as int)),
{
    let mut out: Vec<char> = Vec::new();
    let mut i: usize = from;
    while i < to
        invariant
            from <= i <= to <= parts@.len(),
            i == from ==> out@ == Seq::<char>::empty(),
            i > from ==> out@ == join_nl(parts.deep_view().subrange(from as int, i as int)),
        decreases to - i,
    {
        if i > from {
            out.push('\n');
        }
        let ghost mid = out@;
        let mut j: usize = 0;
        while j < parts[i].len()
            invariant
                0 <= i < parts@.len(),
                j <= parts@[i as int]@.len(),
                out@ == mid + parts@[i as int]@.subrange(0, j as int),
            decreases parts@[i as int]@.len() - j,
        {
            out.push(parts[i][j]);
            proof {
                assert(mid + parts@[i as int]@.subrange(0, j + 1) =~= (mid + parts@[
                i as int]@.subrange(0, j as int)).push(parts@[i as int]@[j as int]));
            }
            j = j + 1;
        }
        proof {
            let dv = parts.deep_view();
            assert(dv[i as int] =~= parts@[i as int]@);
            assert(parts@[i as int]@.subrange(0, parts@[i as int]@.len() as int) =~= parts@[
            i as int]@);
            lemma_join_nl_snoc(dv.subrange(from as int, i + 1));
            assert(dv.subrange(from as int, i + 1).drop_last() =~~= dv.subrange(
                from as int,
                i as int,
            ));
            assert(dv.subrange(from as int, i + 1).last() == dv[i as int]);
            if i == from {
                assert(out@ =~= mid + parts@[i as int]@);
                assert(dv.subrange(from as int, i + 1).len() == 1);
                assert(dv.subrange(from as int, i + 1)[0] == dv[i as int]);
                assert(out@ =~= join_nl(dv.subrange(from as int, i + 1)));
            } else {
                assert(mid =~= join_nl(dv.subrange(from as int, i as int)) + seq!['\n']);
                assert(out@ =~= join_nl(dv.subrange(from as int, i as int)) + seq!['\n'] + dv[
                i as int]);
            }
        }
        i = i + 1;
    }
    proof {
        if from == to {
            assert(parts.deep_view().subrange(from as int, to as int).len() == 0);
        }
    }
    out
}

/// The elision marker placed between the head and tail blocks.
pub open spec fn model_marker(omitted: int, total: int) -> Seq<char> {
    "\n[... omitted "@ + dec_str(omitted) + " of "@ + dec_str(total) + " lines ...]\n\n"@
}

pub open spec fn sat_sub(a: int, b: int) -> int {
    if a >= b {
        a - b
    } else {
        0
    }
}

/// The model-facing formatting of an aggregated output: the output itself
/// when within the byte and line caps, otherwise a head block, the elision
/// marker, and a tail block, fitted into the byte budget.
pub open spec fn model_format(s: Seq<char>) -> Seq<char> {
    let lines = lines_of(s);
    let total = lines.len() as int;
    if utf8_len(s) <= MODEL_FORMAT_MAX_BYTES && total <= MODEL_FORMAT_MAX_LINES {
        s
    } else {
        let head_take = if MODEL_FORMAT_HEAD_LINES < total {
            MODEL_FORMAT_HEAD_LINES as int
        } else {
            total
        };
        let tail_take = if MODEL_FORMAT_TAIL_LINES < total - head_take {
            MODEL_FORMAT_TAIL_LINES as int
        } else {
            total - head_take
        };
        let omitted = total - head_take - tail_take;
        let head_block = join_nl(lines.take(head_take));
        let tail_block = if tail_take > 0 {
            join_nl(lines.skip(total - tail_take))
        } else {
            Seq::<char>::empty()
        };
        let marker = model_marker(omitted, total);
        let mlen = utf8_len(marker) as int;
        let tail_budget = sat_sub(
            MODEL_FORMAT_MAX_BYTES as int,
            MODEL_FORMAT_HEAD_BYTES + mlen,
        );
        if tail_budget == 0 && mlen >= MODEL_FORMAT_MAX_BYTES {
            take_prefix_bytes(marker, MODEL_FORMAT_MAX_BYTES as int)
        } else {
            let head_budget = if tail_budget == 0 {
                sat_sub(MODEL_FORMAT_MAX_BYTES as int, mlen)
            } else {
                MODEL_FORMAT_HEAD_BYTES as int
            };
            let head_part = take_prefix_bytes(head_block, head_budget);
            let partial = head_part + marker;
            let remaining = sat_sub(MODEL_FORMAT_MAX_BYTES as int, utf8_len(partial) as int);
            partial + take_suffix_bytes(tail_block, remaining)
        }
    }
}

/// The model-facing output never exceeds the byte cap.
pub proof fn lemma_model_format_byte_cap(s: Seq<char>)
    ensures
        utf8_len(model_format(s)) <= MODEL_FORMAT_MAX_BYTES,
{
    let lines = lines_of(s);
    let total = lines.len() as int;
    if utf8_len(s) <= MODEL_FORMAT_MAX_BYTES && total <= MODEL_FORMAT_MAX_LINES {
    } else {
        let head_take = if MODEL_FORMAT_HEAD_LINES < total {
            MODEL_FORMAT_HEAD_LINES as int
        } else {
            total
        };
        let tail_take = if MODEL_FORMAT_TAIL_LINES < total - head_take {
            MODEL_FORMAT_TAIL_LINES as int
        } else {
            total - head_take
        };
        let omitted = total - head_take - tail_take;
        let head_block = join_nl(lines.take(head_take));
        let tail_block = if tail_take > 0 {
            join_nl(lines.skip(total - tail_take))
        } else {
            Seq::<char>::empty()
        };
        let marker = model_marker(omitted, total);
        let mlen = utf8_len(marker) as int;
        let tail_budget = sat_sub(
            MODEL_FORMAT_MAX_BYTES as int,
            MODEL_FORMAT_HEAD_BYTES + mlen,
        );
        if tail_budget == 0 && mlen >= MODEL_FORMAT_MAX_BYTES {
            lemma_take_prefix_bytes_len(marker, MODEL_FORMAT_MAX_BYTES as int);
        } else {
            let head_budget = if tail_budget == 0 {
                sat_sub(MODEL_FORMAT_MAX_BYTES as int, mlen)
            } else {
                MODEL_FORMAT_HEAD_BYTES as int
            };
            let head_part = take_prefix_bytes(head_block, head_budget);
            let partial = head_part + marker;
            let remaining = sat_sub(MODEL_FORMAT_MAX_BYTES as int, utf8_len(partial) as int);
            let tail_part = take_suffix_bytes(tail_block, remaining);
            lemma_take_prefix_bytes_len(head_block, head_budget);
            lemma_take_suffix_bytes_len(tail_block, remaining);
            lemma_encode_utf8_concat(head_part, marker);
            lemma_encode_utf8_concat(partial, tail_part);
            if tail_budget == 0 {
                assert(mlen < MODEL_FORMAT_MAX_BYTES);
                assert(head_budget == MODEL_FORMAT_MAX_BYTES - mlen);
                assert(utf8_len(partial) <= MODEL_FORMAT_MAX_BYTES);
            } else {
                assert(utf8_len(partial) <= MODEL_FORMAT_HEAD_BYTES + mlen);
                assert(MODEL_FORMAT_HEAD_BYTES + mlen < MODEL_FORMAT_MAX_BYTES);
            }
        }
    }
}

/// Number of lines kept from the head when truncating.
pub open spec fn mf_head_take(s: Seq<char>) -> int {
    if MODEL_FORMAT_HEAD_LINES < lines_of(s).len() {
        MODEL_FORMAT_HEAD_LINES as int
    } else {
        lines_of(s).len() as int
    }
}

/// Number of lines kept from the tail when truncating.
pub open spec fn mf_tail_take(s: Seq<char>) -> int {
    if MODEL_FORMAT_TAIL_LINES < lines_of(s).len() - mf_head_take(s) {
        MODEL_FORMAT_TAIL_LINES as int
    } else {
        lines_of(s).len() - mf_head_take(s)
    }
}

/// Number of lines elided by the marker.
pub open spec fn mf_omitted(s: Seq<char>) -> int {
    lines_of(s).len() - mf_head_take(s) - mf_tail_take(s)
}

/// When the output is truncated (and the marker itself fits in the byte cap,
/// as it always does in practice), the result is exactly a prefix of the
/// head block, the marker announcing `omitted == total - head - tail` of
/// `total` lines, and a suffix of the tail block.
pub proof fn lemma_model_format_truncation(s: Seq<char>)
    requires
        utf8_len(s) > MODEL_FORMAT_MAX_BYTES || lines_of(s).len() > MODEL_FORMAT_MAX_LINES,
        utf8_len(model_marker(mf_omitted(s), lines_of(s).len() as int)) < MODEL_FORMAT_MAX_BYTES,
    ensures
        ({
            let lines = lines_of(s);
            let total = lines.len() as int;
            let marker = model_marker(mf_omitted(s), total);
            let mlen = utf8_len(marker) as int;
            let tail_budget = sat_sub(
                MODEL_FORMAT_MAX_BYTES as int,
                MODEL_FORMAT_HEAD_BYTES + mlen,
            );
            let head_budget = if tail_budget == 0 {
                sat_sub(MODEL_FORMAT_MAX_BYTES as int, mlen)
            } else {
                MODEL_FORMAT_HEAD_BYTES as int
            };
            let head_part = take_prefix_bytes(join_nl(lines.take(mf_head_take(s))), head_budget);
            let tail_block = if mf_tail_take(s) > 0 {
                join_nl(lines.skip(total - mf_tail_take(s)))
            } else {
                Seq::<char>::empty()
            };
            let remaining = sat_sub(
                MODEL_FORMAT_MAX_BYTES as int,
                utf8_len(head_part + marker) as int,
            );
            model_format(s) == head_part + marker + take_suffix_bytes(tail_block, remaining)
        }),
{
    let lines = lines_of(s);
    let total = lines.len() as int;
    let marker = model_marker(mf_omitted(s), total);
    let mlen = utf8_len(marker) as int;
    let tail_budget = sat_sub(MODEL_FORMAT_MAX_BYTES as int, MODEL_FORMAT_HEAD_BYTES + mlen);
    let head_budget = if tail_budget == 0 {
        sat_sub(MODEL_FORMAT_MAX_BYTES as int, mlen)
    } else {
        MODEL_FORMAT_HEAD_BYTES as int
    };
    let head_part = take_prefix_bytes(join_nl(lines.take(mf_head_take(s))), head_budget);
    let tail_block = if mf_tail_take(s) > 0 {
        join_nl(lines.skip(total - mf_tail_take(s)))
    } else {
        Seq::<char>::empty()
    };
    let remaining = sat_sub(MODEL_FORMAT_MAX_BYTES as int, utf8_len(head_part + marker) as int);
    let tail_part = take_suffix_bytes(tail_block, remaining);
    assert(model_format(s) == (head_part + marker) + tail_part);
    assert((head_part + marker) + tail_part =~= head_part + marker + tail_part);
}

/// First element substituted into a non-empty piece list.
pub open spec fn prepend_first(p: Seq<char>, ps: Seq<Seq<char>>) -> Seq<Seq<char>>
    recommends
        ps.len() > 0,
{
    seq![p + ps[0]] + ps.drop_first()
}

/// Executable line splitting following `lines_of`.
pub fn lines_of_exec(cs: &Vec<char>) -> (r: Vec<Vec<char>>)
    ensures
        r.deep_view() == lines_of(cs@),
{
    let ghost full = cs@;
    if cs.len() == 0 {
        let r: Vec<Vec<char>> = Vec::new();
        proof {
            assert(r.deep_view() =~~= lines_of(full));
        }
        return r;
    }
    let mut pieces: Vec<Vec<char>> = Vec::new();
    let mut cur: Vec<char> = Vec::new();
    let mut i: usize = 0;
    proof {
        lemma_split_nl_nonempty(full);
        assert(full.skip(0) =~= full);
        assert(prepend_first(cur@, split_nl(full)) =~~= split_nl(full));
        assert(pieces.deep_view() + split_nl(full) =~~= split_nl(full));
    }
    while i < cs.len()
        invariant
            i <= cs.len(),
            cs@ == full,
            split_nl(full.skip(i as int)).len() >= 1,
            split_nl(full) == pieces.deep_view() + prepend_first(
                cur@,
                split_nl(full.skip(i as int)),
            ),
        decreases cs.len() - i,
    {
        let ghost rest = split_nl(full.skip(i as int));
        let ghost rest1 = split_nl(full.skip(i as int + 1));
        proof {
            lemma_split_nl_nonempty(full.skip(i as int + 1));
            assert(full.skip(i as int)[0] == full[i as int]);
            assert(full.skip(i as int).drop_first() =~= full.skip(i as int + 1));
        }
        let c = cs[i];
        if c == '\n' {
            let ghost pv = pieces.deep_view();
            pieces.push(cur);
            proof {
                assert(rest =~~= seq![Seq::<char>::empty()] + rest1);
                assert(prepend_first(cur@, rest) =~~= seq![cur@] + rest1);
                assert(pieces.deep_view() =~~= pv.push(cur@));
                assert(pv + (seq![cur@] + rest1) =~~= pv.push(cur@) + rest1);
                assert(prepend_first(Seq::<char>::empty(), rest1) =~~= rest1);
            }
            cur = Vec::new();
        } else {
            let ghost cv = cur@;
            cur.push(c);
            proof {
                assert(rest =~~= seq![seq![c] + rest1[0]] + rest1.drop_first());
                assert(prepend_first(cv, rest) =~~= seq![cv + (seq![c] + rest1[0])]
                    + rest1.drop_first());
                assert(cv + (seq![c] + rest1[0]) =~= (cv + seq![c]) + rest1[0]);
                assert(cur@ =~= cv + seq![c]);
                assert(prepend_first(cur@, rest1) =~~= seq![(cv + seq![c]) + rest1[0]]
                    + rest1.drop_first());
                assert(prepend_first(cv, rest) =~~= prepend_first(cur@, rest1));
            }
        }
        i = i + 1;
    }
    proof {
        assert(full.skip(full.len() as int) =~= Seq::<char>::empty());
        assert(split_nl(Seq::<char>::empty()) =~~= seq![Seq::<char>::empty()]);
        assert(prepend_first(cur@, seq![Seq::<char>::empty()]) =~~= seq![cur@]);
    }
    let ghost pv = pieces.deep_view();
    pieces.push(cur);
    proof {
        assert(pieces.deep_view() =~~= pv.push(cur@));
        assert(split_nl(full) =~~= pieces.deep_view());
    }
    let npieces = pieces.len();
    let keep: usize = if cs[cs.len() - 1] == '\n' {
        npieces - 1
    } else {
        npieces
    };
    let mut lls: Vec<Vec<char>> = Vec::new();
    let mut t: usize = 0;
    while t < keep
        invariant
            t <= keep <= npieces == pieces@.len(),
            npieces >= 1,
            full.len() > 0,
            pieces.deep_view() == split_nl(full),
            keep == if full.last() == '\n' {
                npieces - 1
            } else {
                npieces as int
            },
            lls.deep_view() == Seq::new(t as nat, |q: int| if q < npieces - 1 {
                strip_cr(pieces.deep_view()[q])
            } else {
                pieces.deep_view()[q]
            }),
        decreases keep - t,
    {
        let ghost lv = lls.deep_view();
        let piece_len = pieces[t].len();
        if t < npieces - 1 && piece_len > 0 && pieces[t][piece_len - 1] == '\r' {
            let stripped = crate::chars::vec_subrange(&pieces[t], 0, piece_len - 1);
            proof {
                assert(pieces@[t as int]@.subrange(0, piece_len - 1) =~= pieces@[
                t as int]@.drop_last());
                assert(strip_cr(pieces.deep_view()[t as int]) =~= pieces@[t as int]@.drop_last());
            }
            lls.push(stripped);
        } else {
            let copied = crate::chars::vec_subrange(&pieces[t], 0, piece_len);
            proof {
                assert(pieces@[t as int]@.subrange(0, piece_len as int) =~= pieces@[t as int]@);
                if t < npieces - 1 {
                    assert(strip_cr(pieces.deep_view()[t as int]) =~= pieces@[t as int]@);
                }
            }
            lls.push(copied);
        }
        proof {
            assert(lls.deep_view() =~~= lv.push(lls.deep_view().last()));
            assert(lls.deep_view() =~~= Seq::new((t + 1) as nat, |q: int| if q < npieces - 1 {
                strip_cr(pieces.deep_view()[q])
            } else {
                pieces.deep_view()[q]
            }));
        }
        t = t + 1;
    }
    proof {
        let ps = split_nl(full);
        let keepseq = if full.last() == '\n' {
            ps.drop_last()
        } else {
            ps
        };
        assert(keepseq.len() == keep);
        assert forall|q: int| 0 <= q < keep implies keepseq[q] == ps[q] by {}
        assert(lls.deep_view() =~~= lines_of(full));
    }
    lls
}

/// Head+tail truncation of the aggregated output for the model. Clients
/// receive full streams; only this formatted summary is capped.
pub fn format_exec_output_str(exec_output: &ExecToolCallOutput) -> (r: String)
    ensures
        r@ == model_format(exec_output.aggregated_output.text@),
{
    let s = &exec_output.aggregated_output.text;
    let ghost sv = s@;
    let cs = str_to_chars(s.as_str());
    let lls = lines_of_exec(&cs);
    let total = lls.len();
    proof {
        assert(lls.deep_view().len() == lls@.len());
    }
    let sbytes = str_byte_len(s.as_str());
    if sbytes <= MODEL_FORMAT_MAX_BYTES && total <= MODEL_FORMAT_MAX_LINES {
        return s.clone();
    }
    let head_take: usize = if MODEL_FORMAT_HEAD_LINES < total {
        MODEL_FORMAT_HEAD_LINES
    } else {
        total
    };
    let tail_take: usize = if MODEL_FORMAT_TAIL_LINES < total - head_take {
        MODEL_FORMAT_TAIL_LINES
    } else {
        total - head_take
    };
    let omitted = total - head_take - tail_take;
    let head_block = join_nl_exec(&lls, 0, head_take);
    let tail_block = if tail_take > 0 {
        join_nl_exec(&lls, total - tail_take, total)
    } else {
        Vec::new()
    };
    proof {
        assert(lls.deep_view().subrange(0, head_take as int) =~~= lines_of(sv).take(
            head_take as int,
        ));
        if tail_take > 0 {
            assert(lls.deep_view().subrange(total - tail_take, total as int) =~~= lines_of(
                sv,
            ).skip(total - tail_take));
        }
    }
    // Build the elision marker.
    let mut marker = String::from_str("\n[... omitted ");
    let om = usize_to_dec_string(omitted);
    let oms = chars_to_string(&om);
    marker.append(oms.as_str());
    marker.append(" of ");
    let tot = usize_to_dec_string(total);
    let tots = chars_to_string(&tot);
    marker.append(tots.as_str());
    marker.append(" lines ...]\n\n");
    proof {
        assert(marker@ =~= model_marker(omitted as int, total as int));
    }
    let mlen = str_byte_len(marker.as_str());
    let mv = str_to_chars(marker.as_str());
    let tail_budget: usize = if MODEL_FORMAT_MAX_BYTES >= MODEL_FORMAT_HEAD_BYTES
        && MODEL_FORMAT_MAX_BYTES - MODEL_FORMAT_HEAD_BYTES >= mlen {
        MODEL_FORMAT_MAX_BYTES - MODEL_FORMAT_HEAD_BYTES - mlen
    } else {
        0
    };
    if tail_budget == 0 && mlen >= MODEL_FORMAT_MAX_BYTES {
        let clipped = take_prefix_bytes_exec(&mv, MODEL_FORMAT_MAX_BYTES);
        return chars_to_string(&clipped.0);
    }
    let head_budget: usize = if tail_budget == 0 {
        if MODEL_FORMAT_MAX_BYTES >= mlen {
            MODEL_FORMAT_MAX_BYTES - mlen
        } else {
            0
        }
    } else {
        MODEL_FORMAT_HEAD_BYTES
    };
    let hp = take_prefix_bytes_exec(&head_block, head_budget);
    let mut result = hp.0;
    let head_used = hp.1;
    let ghost head_part = result@;
    crate::template::push_all(&mut result, &mv);
    proof {
        lemma_encode_utf8_concat(head_part, mv@);
        assert(result@ == head_part + mv@);
    }
    let remaining: usize = if MODEL_FORMAT_MAX_BYTES >= head_used && MODEL_FORMAT_MAX_BYTES
        - head_used >= mlen {
        MODEL_FORMAT_MAX_BYTES - head_used - mlen
    } else {
        0
    };
    let tail_part = take_suffix_bytes_exec(&tail_block, remaining);
    crate::template::push_all(&mut result, &tail_part);
    let out = chars_to_string(&result);
    proof {
        assert(out@ == (head_part + mv@) + take_suffix_bytes(
            tail_block@,
            remaining as int,
        ));
    }
    out
}

} // verus!
