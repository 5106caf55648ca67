//! Character-level helpers shared by the string-processing modules: views of
//! strings as character sequences, ASCII classification, lexicographic order,
//! and UTF-8 byte-length accounting.

use vstd::prelude::*;

verus! {

use vstd::utf8::encode_utf8;
use vstd::utf8::encode_scalar;

/// Every character of `s` is ASCII.
pub open spec fn all_ascii(s: Seq<char>) -> bool {
    forall|i: int| 0 <= i < s.len() ==> #[trigger] (s[i] as u32) < 128
}

/// ASCII lowercasing of a single character: 'A'..'Z' map to 'a'..'z',
/// everything else is unchanged.
pub open spec fn ascii_lower_char(c: char) -> char {
    if 65 <= c as u32 && c as u32 <= 90 {
        ((c as u8) + 32) as char
    } else {
        c
    }
}

/// ASCII lowercasing of a character sequence.
pub open spec fn ascii_lower(s: Seq<char>) -> Seq<char> {
    s.map_values(|c: char| ascii_lower_char(c))
}

/// What `str::to_lowercase` returns on an arbitrary string; pinned exactly
/// only for ASCII input (see `to_lowercase_string`).
pub uninterp spec fn lower_of(s: Seq<char>) -> Seq<char>;

/// Relies on `str::to_lowercase`: the result depends on the characters of
/// the input alone, and ASCII characters are mapped by the ASCII case table
/// ('A'..'Z' to 'a'..'z', all other ASCII characters unchanged).
#[verifier::external_body]
pub fn to_lowercase_string(s: &str) -> (r: String)
    ensures
        r@ == lower_of(s@),
        all_ascii(s@) ==> r@ == ascii_lower(s@),
{
    s.to_lowercase()
}

/// Relies on `str::len`: the byte length of the string's UTF-8 encoding,
/// which always fits in `usize` because the string is in memory.
#[verifier::external_body]
pub fn str_byte_len(s: &str) -> (r: usize)
    ensures
        r == utf8_len(s@),
{
    s.len()
}

/// Relies on `str::chars`: yields exactly the characters of the string view.
#[verifier::external_body]
pub fn str_to_chars(s: &str) -> (r: Vec<char>)
    ensures
        r@ == s@,
{
    s.chars().collect()
}

/// Relies on `core::iter::Iterator::collect`: collecting characters into a
/// `String` whose view is exactly those characters.
#[verifier::external_body]
pub fn chars_to_string(v: &Vec<char>) -> (r: String)
    ensures
        r@ == v@,
{
    v.iter().collect()
}

/// Copy of the range `[from, to)` of a character vector.
pub fn vec_subrange(v: &Vec<char>, from: usize, to: usize) -> (r: Vec<char>)
    requires
        from <= to <= v@.len(),
    ensures
        r@ == v@.subrange(from as int, to as int),
{
    let mut out: Vec<char> = Vec::new();
    let mut j: usize = from;
    while j < to
        invariant
            from <= j <= to <= v@.len(),
            out@ == v@.subrange(from as int, j as int),
        decreases to - j,
    {
        out.push(v[j]);
        proof {
            assert(v@.subrange(from as int, j + 1) =~= v@.subrange(from as int, j as int).push(
                v@[j as int],
            ));
        }
        j = j + 1;
    }
    out
}

/// UTF-8 byte length of a character sequence.
pub open spec fn utf8_len(s: Seq<char>) -> nat {
    encode_utf8(s).len()
}

/// Number of bytes the UTF-8 encoding of one character takes.
pub open spec fn char_utf8_len(c: char) -> nat {
    encode_scalar(c as u32).len()
}

/// `encode_utf8` distributes over concatenation.
pub proof fn lemma_encode_utf8_concat(a: Seq<char>, b: Seq<char>)
    ensures
        encode_utf8(a + b) == encode_utf8(a) + encode_utf8(b),
    decreases a.len(),
{
    if a.len() == 0 {
        assert(a + b =~= b);
        assert(encode_utf8(a) =~= Seq::<u8>::empty());
        assert(encode_utf8(a) + encode_utf8(b) =~= encode_utf8(b));
    } else {
        lemma_encode_utf8_concat(a.drop_first(), b);
        assert((a + b).drop_first() =~= a.drop_first() + b);
        assert(encode_utf8(a + b) =~= encode_scalar((a + b)[0] as u32) + encode_utf8(
            (a + b).drop_first(),
        ));
        assert(encode_utf8(a) + encode_utf8(b) =~= encode_scalar(a[0] as u32) + (encode_utf8(
            a.drop_first(),
        ) + encode_utf8(b)));
        assert((a + b)[0] == a[0]);
    }
}

/// Appending one character adds exactly its encoding length.
pub proof fn lemma_utf8_len_push(s: Seq<char>, c: char)
    ensures
        utf8_len(s.push(c)) == utf8_len(s) + char_utf8_len(c),
{
    lemma_encode_utf8_concat(s, seq![c]);
    assert(s.push(c) =~= s + seq![c]);
    assert(encode_utf8(seq![c]) =~= encode_scalar(c as u32) + encode_utf8(
        seq![c].drop_first(),
    ));
    assert(seq![c].drop_first() =~= Seq::<char>::empty());
    assert(encode_scalar(c as u32) + encode_utf8(seq![c].drop_first()) =~= encode_scalar(
        c as u32,
    ));
}

/// Every character encodes to at least one byte.
pub proof fn lemma_char_utf8_len_at_least_one(c: char)
    ensures
        1 <= char_utf8_len(c) <= 4,
{
    vstd::utf8::char_is_scalar(c);
}

/// A sequence's UTF-8 length is at least its character count.
pub proof fn lemma_utf8_len_ge_char_count(s: Seq<char>)
    ensures
        utf8_len(s) >= s.len(),
    decreases s.len(),
{
    if s.len() > 0 {
        lemma_utf8_len_ge_char_count(s.drop_first());
        lemma_char_utf8_len_at_least_one(s[0]);
    }
}

/// Executable UTF-8 width of one character.
pub fn char_width(c: char) -> (r: usize)
    ensures
        r == char_utf8_len(c),
{
    proof {
        vstd::utf8::char_is_scalar(c);
    }
    let u = c as u32;
    if u < 0x80 {
        1
    } else if u < 0x800 {
        2
    } else if u < 0x10000 {
        3
    } else {
        4
    }
}

/// Strict lexicographic order on character sequences, by code point.
pub open spec fn lex_lt(a: Seq<char>, b: Seq<char>) -> bool
    decreases a.len(),
{
    if b.len() == 0 {
        false
    } else if a.len() == 0 {
        true
    } else if (a[0] as u32) < (b[0] as u32) {
        true
    } else if (a[0] as u32) > (b[0] as u32) {
        false
    } else {
        lex_lt(a.drop_first(), b.drop_first())
    }
}

/// If the first `i` characters agree, comparison is decided by the rest.
pub proof fn lemma_lex_lt_skip(a: Seq<char>, b: Seq<char>, i: int)
    requires
        0 <= i <= a.len(),
        i <= b.len(),
        forall|k: int| 0 <= k < i ==> a[k] == b[k],
    ensures
        lex_lt(a, b) <==> lex_lt(a.skip(i), b.skip(i)),
        (a == b) <==> (a.skip(i) == b.skip(i) && a.len() == b.len()),
    decreases i,
{
    assert((a.skip(i) == b.skip(i) && a.len() == b.len()) ==> a == b) by {
        if a.skip(i) == b.skip(i) && a.len() == b.len() {
            assert forall|k: int| 0 <= k < a.len() implies a[k] == b[k] by {
                if i <= k {
                    assert(a.skip(i)[k - i] == b.skip(i)[k - i]);
                }
            }
            assert(a =~= b);
        }
    };
    assert(a == b ==> a.skip(i) == b.skip(i)) by {
        if a == b {
            assert(a.skip(i) =~= b.skip(i));
        }
    };
    if i == 0 {
        assert(a.skip(0) =~= a);
        assert(b.skip(0) =~= b);
    } else {
        assert(a.len() > 0 && b.len() > 0);
        assert(a[0] == b[0]);
        lemma_lex_lt_skip(a.drop_first(), b.drop_first(), i - 1);
        assert(a.drop_first().skip(i - 1) =~= a.skip(i));
        assert(b.drop_first().skip(i - 1) =~= b.skip(i));
        assert(lex_lt(a, b) <==> lex_lt(a.drop_first(), b.drop_first()));
    }
}

/// Lexicographic comparison of two character vectors.
/// Returns `0` (less), `1` (equal), or `2` (greater).
pub fn lex_cmp(a: &Vec<char>, b: &Vec<char>) -> (r: u8)
    ensures
        r == 0 <==> lex_lt(a@, b@),
        r == 1 <==> a@ == b@,
        r == 2 <==> lex_lt(b@, a@),
{
    proof {
        lemma_lex_trichotomy(a@, b@);
    }
    let mut i: usize = 0;
    loop
        invariant
            i <= a.len(),
            i <= b.len(),
            forall|k: int| 0 <= k < i ==> a@[k] == b@[k],
        decreases a.len() - i,
    {
        proof {
            lemma_lex_lt_skip(a@, b@, i as int);
            lemma_lex_lt_skip(b@, a@, i as int);
        }
        if i >= a.len() || i >= b.len() {
            if a.len() == b.len() {
                proof {
                    assert(a@.skip(i as int) =~= b@.skip(i as int));
                }
                return 1;
            } else if a.len() < b.len() {
                proof {
                    assert(a@.skip(i as int).len() == 0);
                    assert(b@.skip(i as int).len() > 0);
                }
                return 0;
            } else {
                proof {
                    assert(b@.skip(i as int).len() == 0);
                    assert(a@.skip(i as int).len() > 0);
                }
                return 2;
            }
        }
        let ca = a[i];
        let cb = b[i];
        proof {
            assert(a@.skip(i as int)[0] == a@[i as int]);
            assert(b@.skip(i as int)[0] == b@[i as int]);
        }
        if (ca as u32) < (cb as u32) {
            return 0;
        } else if (ca as u32) > (cb as u32) {
            return 2;
        }
        proof {
            vstd::utf8::char_u32_cast(ca, ca as u32);
            vstd::utf8::char_u32_cast(cb, cb as u32);
            assert(ca == cb);
        }
        i = i + 1;
    }
}

/// Exactly one of `lex_lt(a, b)`, `a == b`, `lex_lt(b, a)` holds.
pub proof fn lemma_lex_trichotomy(a: Seq<char>, b: Seq<char>)
    ensures
        lex_lt(a, b) || a == b || lex_lt(b, a),
        lex_lt(a, b) ==> a != b && !lex_lt(b, a),
        a == b ==> !lex_lt(a, b) && !lex_lt(b, a),
    decreases a.len() + b.len(),
{
    if a.len() == 0 && b.len() == 0 {
        assert(a =~= b);
    } else if a.len() > 0 && b.len() > 0 {
        lemma_lex_trichotomy(a.drop_first(), b.drop_first());
        vstd::utf8::char_u32_cast(a[0], a[0] as u32);
        vstd::utf8::char_u32_cast(b[0], b[0] as u32);
        if a[0] as u32 == b[0] as u32 {
            assert(a[0] == b[0]);
            if a.drop_first() == b.drop_first() {
                assert forall|k: int| 0 <= k < a.len() implies a[k] == b[k] by {
                    if k > 0 {
                        assert(a.drop_first()[k - 1] == b.drop_first()[k - 1]);
                    }
                }
                assert(a =~= b);
            }
            if a == b {
                assert(a.drop_first() =~= b.drop_first());
            }
        } else {
            assert(a[0] != b[0]);
            assert(a != b) by {
                if a == b {
                    assert(a[0] == b[0]);
                }
            }
        }
    } else {
        if a == b {
            assert(a.len() == b.len());
        }
    }
}

/// Lexicographic order is transitive.
pub proof fn lemma_lex_lt_trans(a: Seq<char>, b: Seq<char>, c: Seq<char>)
    requires
        lex_lt(a, b),
        lex_lt(b, c),
    ensures
        lex_lt(a, c),
    decreases a.len() + b.len() + c.len(),
{
    if b.len() == 0 {
        // lex_lt(b, c) means c.len() > 0; lex_lt(a, b) is false, contradiction
    } else if a.len() == 0 {
        // c.len() > 0 since lex_lt(b, c) and b nonempty
    } else {
        if (a[0] as u32) < (b[0] as u32) {
            if (b[0] as u32) <= (c[0] as u32) {
            }
        } else {
            // a[0] == b[0]
            if (b[0] as u32) < (c[0] as u32) {
            } else {
                lemma_lex_lt_trans(a.drop_first(), b.drop_first(), c.drop_first());
            }
        }
    }
}

/// The Unicode `White_Space` property, as `char::is_whitespace` decides it.
pub open spec fn is_ws(c: char) -> bool {
    ||| (9 <= c as u32 && c as u32 <= 13)
    ||| c as u32 == 32
    ||| c as u32 == 0x85
    ||| c as u32 == 0xA0
    ||| c as u32 == 0x1680
    ||| (0x2000 <= c as u32 && c as u32 <= 0x200A)
    ||| c as u32 == 0x2028
    ||| c as u32 == 0x2029
    ||| c as u32 == 0x202F
    ||| c as u32 == 0x205F
    ||| c as u32 == 0x3000
}

pub open spec fn trim_start_ws(s: Seq<char>) -> Seq<char>
    decreases s.len(),
{
    if s.len() > 0 && is_ws(s[0]) {
        trim_start_ws(s.drop_first())
    } else {
        s
    }
}

pub open spec fn trim_end_ws(s: Seq<char>) -> Seq<char>
    decreases s.len(),
{
    if s.len() > 0 && is_ws(s.last()) {
        trim_end_ws(s.drop_last())
    } else {
        s
    }
}

/// Whitespace trimmed from both ends, as `str::trim` does.
pub open spec fn trim_ws(s: Seq<char>) -> Seq<char> {
    trim_end_ws(trim_start_ws(s))
}

/// Executable whitespace test for one character.
pub fn is_ws_exec(c: char) -> (r: bool)
    ensures
        r == is_ws(c),
{
    let u = c as u32;
    (9 <= u && u <= 13) || u == 32 || u == 0x85 || u == 0xA0 || u == 0x1680 || (0x2000 <= u && u
        <= 0x200A) || u == 0x2028 || u == 0x2029 || u == 0x202F || u == 0x205F || u == 0x3000
}

proof fn lemma_trim_start_at(s: Seq<char>, lo: int)
    requires
        0 <= lo <= s.len(),
        forall|k: int| 0 <= k < lo ==> is_ws(#[trigger] s[k]),
        lo < s.len() ==> !is_ws(s[lo]),
    ensures
        trim_start_ws(s) == s.skip(lo),
    decreases lo,
{
    if lo == 0 {
        assert(s.skip(0) =~= s);
    } else {
        lemma_trim_start_at(s.drop_first(), lo - 1);
        assert(s.drop_first().skip(lo - 1) =~= s.skip(lo));
    }
}

proof fn lemma_trim_end_at(s: Seq<char>, hi: int)
    requires
        0 <= hi <= s.len(),
        forall|k: int| hi <= k < s.len() ==> is_ws(#[trigger] s[k]),
        hi > 0 ==> !is_ws(s[hi - 1]),
    ensures
        trim_end_ws(s) == s.take(hi),
    decreases s.len(),
{
    if s.len() == 0 {
        assert(s.take(0) =~= s);
    } else if hi == s.len() {
        assert(s.take(hi) =~= s);
    } else {
        lemma_trim_end_at(s.drop_last(), hi);
        assert(s.drop_last().take(hi) =~= s.take(hi));
    }
}

/// Trim Unicode whitespace from both ends of a character vector.
pub fn trim_chars(v: &Vec<char>) -> (r: Vec<char>)
    ensures
        r@ == trim_ws(v@),
{
    let mut lo: usize = 0;
    while lo < v.len() && is_ws_exec(v[lo])
        invariant
            lo <= v@.len(),
            forall|k: int| 0 <= k < lo ==> is_ws(#[trigger] v@[k]),
        decreases v@.len() - lo,
    {
        lo = lo + 1;
    }
    proof {
        lemma_trim_start_at(v@, lo as int);
    }
    if lo == v.len() {
        proof {
            assert(trim_start_ws(v@).len() == 0);
            assert(trim_end_ws(Seq::<char>::empty()) =~= Seq::<char>::empty());
        }
        let r: Vec<char> = Vec::new();
        return r;
    }
    let mut hi: usize = v.len();
    while hi > lo && is_ws_exec(v[hi - 1])
        invariant
            lo <= hi <= v@.len(),
            forall|k: int| hi <= k < v@.len() ==> is_ws(#[trigger] v@[k]),
            lo < v@.len() && !is_ws(v@[lo as int]),
        decreases hi,
    {
        hi = hi - 1;
    }
    proof {
        assert(hi > lo);
        assert(trim_start_ws(v@) =~= v@.skip(lo as int));
        lemma_trim_end_at(v@.skip(lo as int), hi - lo);
        assert(v@.skip(lo as int).take(hi - lo) =~= v@.subrange(lo as int, hi as int));
    }
    vec_subrange(v, lo, hi)
}

/// Join a list of strings with a single-space separator (the spec of
/// `args.join(" ")`).
pub open spec fn join_spaces(args: Seq<Seq<char>>) -> Seq<char>
    decreases args.len(),
{
    if args.len() == 0 {
        Seq::empty()
    } else if args.len() == 1 {
        args[0]
    } else {
        args[0] + seq![' '] + join_spaces(args.drop_first())
    }
}

/// Executable join with single spaces, following `join_spaces`.
pub fn join_with_spaces(args: &Vec<String>) -> (r: Vec<char>)
    ensures
        r@ == join_spaces(args.deep_view()),
{
    let mut out: Vec<char> = Vec::new();
    let mut i: usize = 0;
    while i < args.len()
        invariant
            i <= args.len(),
            i == 0 ==> out@ == Seq::<char>::empty(),
            i > 0 ==> out@ == join_spaces(args.deep_view().subrange(0, i as int)),
        decreases args.len() - i,
    {
        if i > 0 {
            out.push(' ');
        }
        let cs = str_to_chars(args[i].as_str());
        let mut j: usize = 0;
        let ghost mid = out@;
        while j < cs.len()
            invariant
                j <= cs.len(),
                out@ == mid + cs@.subrange(0, j as int),
            decreases cs.len() - j,
        {
            out.push(cs[j]);
            proof {
                assert(mid + cs@.subrange(0, j + 1 as int) =~= (mid + cs@.subrange(
                    0,
                    j as int,
                )).push(cs@[j as int]));
            }
            j = j + 1;
        }
        proof {
            assert(cs@.subrange(0, cs@.len() as int) =~= cs@);
            lemma_join_spaces_snoc(args.deep_view().subrange(0, i as int + 1));
            assert(args.deep_view().subrange(0, i as int + 1).drop_last() =~= args.deep_view()
                .subrange(0, i as int));
            assert(args.deep_view().subrange(0, i as int + 1).last() == args.deep_view()[i as int]);
        }
        i = i + 1;
    }
    proof {
        assert(args.deep_view().subrange(0, args.deep_view().len() as int) =~= args.deep_view());
        if args.len() == 0 {
            assert(join_spaces(args.deep_view()) =~= Seq::<char>::empty());
        }
    }
    out
}

/// Peeling the last element off a space-join.
pub proof fn lemma_join_spaces_snoc(args: Seq<Seq<char>>)
    requires
        args.len() >= 1,
    ensures
        args.len() == 1 ==> join_spaces(args) == args[0],
        args.len() > 1 ==> join_spaces(args) == join_spaces(args.drop_last()) + seq![' ']
            + args.last(),
    decreases args.len(),
{
    if args.len() > 1 {
        lemma_join_spaces_snoc(args.drop_first());
        assert(args.drop_first().drop_last() =~= args.drop_last().drop_first());
        if args.len() == 2 {
            assert(args.drop_last().len() == 1);
            assert(join_spaces(args.drop_last()) == args[0]);
            assert(args.drop_first().len() == 1);
            assert(join_spaces(args.drop_first()) == args[1]);
            assert(args.last() == args[1]);
            assert(join_spaces(args) =~= args[0] + seq![' '] + args[1]);
        } else {
            assert(args.drop_last().len() > 1);
            assert(join_spaces(args) =~= args[0] + seq![' '] + join_spaces(args.drop_first()));
            assert(join_spaces(args.drop_first()) =~= join_spaces(args.drop_first().drop_last())
                + seq![' '] + args.drop_first().last());
            assert(args.drop_first().last() == args.last());
            assert(join_spaces(args.drop_last()) =~= args.drop_last()[0] + seq![' ']
                + join_spaces(args.drop_last().drop_first()));
            assert(args.drop_last()[0] == args[0]);
            assert(args[0] + seq![' '] + (join_spaces(args.drop_first().drop_last()) + seq![' ']
                + args.last()) =~= (args[0] + seq![' '] + join_spaces(args.drop_first().drop_last()))
                + seq![' '] + args.last());
        }
    }
}

} // verus!
