//! Normalization of command names into stable identifiers: lowercase,
//! keep `[a-z0-9]`, map separators to single hyphens, trim edge hyphens,
//! and fall back to `"unnamed"` for empty results.

use vstd::prelude::*;

verus! {

use crate::chars::all_ascii;
use crate::chars::ascii_lower;
use crate::chars::ascii_lower_char;
use crate::chars::lower_of;
use crate::chars::str_to_chars;
use crate::chars::chars_to_string;
use crate::chars::to_lowercase_string;

/// A lowercase ASCII letter or digit.
pub open spec fn is_lower_alnum(c: char) -> bool {
    (97 <= c as u32 && c as u32 <= 122) || (48 <= c as u32 && c as u32 <= 57)
}

/// A separator that maps to a hyphen.
pub open spec fn is_separator(c: char) -> bool {
    c == ' ' || c == '_' || c == '-'
}

/// Filter-and-collapse pass over already-lowercased characters: keep
/// `[a-z0-9]`, map runs of separators to single hyphens, drop the rest.
/// `prev_hyphen` records whether the previous kept character was a hyphen.
pub open spec fn norm_rec(s: Seq<char>, prev_hyphen: bool) -> Seq<char>
    decreases s.len(),
{
    if s.len() == 0 {
        Seq::empty()
    } else if is_lower_alnum(s[0]) {
        seq![s[0]] + norm_rec(s.drop_first(), false)
    } else if is_separator(s[0]) {
        if !prev_hyphen {
            seq!['-'] + norm_rec(s.drop_first(), true)
        } else {
            norm_rec(s.drop_first(), true)
        }
    } else {
        norm_rec(s.drop_first(), prev_hyphen)
    }
}

/// Drop leading hyphens.
pub open spec fn trim_leading_hyphens(s: Seq<char>) -> Seq<char>
    decreases s.len(),
{
    if s.len() > 0 && s[0] == '-' {
        trim_leading_hyphens(s.drop_first())
    } else {
        s
    }
}

/// Drop trailing hyphens.
pub open spec fn trim_trailing_hyphens(s: Seq<char>) -> Seq<char>
    decreases s.len(),
{
    if s.len() > 0 && s.last() == '-' {
        trim_trailing_hyphens(s.drop_last())
    } else {
        s
    }
}

pub open spec fn trim_hyphens(s: Seq<char>) -> Seq<char> {
    trim_trailing_hyphens(trim_leading_hyphens(s))
}

pub open spec fn unnamed_seq() -> Seq<char> {
    seq!['u', 'n', 'n', 'a', 'm', 'e', 'd']
}

/// Full normalization of an already-lowercased character sequence.
pub open spec fn normalize_spec(s: Seq<char>) -> Seq<char> {
    let t = trim_hyphens(norm_rec(s, false));
    if t.len() == 0 {
        unnamed_seq()
    } else {
        t
    }
}

/// Every character is a lowercase letter, a digit, or a hyphen.
pub open spec fn id_chars(s: Seq<char>) -> bool {
    forall|i: int| 0 <= i < s.len() ==> is_lower_alnum(#[trigger] s[i]) || s[i] == '-'
}

/// No two adjacent hyphens.
pub open spec fn no_adjacent_hyphens(s: Seq<char>) -> bool {
    forall|i: int| 0 <= i < s.len() - 1 ==> !(#[trigger] s[i] == '-' && s[i + 1] == '-')
}

/// Shape of a normalized identifier: non-empty, restricted character set,
/// no hyphen runs, and no hyphen at either edge.
pub open spec fn well_formed_id(s: Seq<char>) -> bool {
    &&& s.len() > 0
    &&& id_chars(s)
    &&& no_adjacent_hyphens(s)
    &&& s[0] != '-'
    &&& s.last() != '-'
}

/// Normalize a name into a stable identifier string.
///
/// Lowercases the input, keeps `[a-z0-9]`, converts runs of spaces,
/// underscores and hyphens to single hyphens, drops all other characters,
/// trims hyphens at the edges, and returns `"unnamed"` for an empty result.
pub fn normalize_id(name: &str) -> (r: String)
    ensures
        r@ == normalize_spec(lower_of(name@)),
        all_ascii(name@) ==> r@ == normalize_spec(ascii_lower(name@)),
        well_formed_id(r@),
{
    let lowered = to_lowercase_string(name);
    let cs = str_to_chars(lowered.as_str());
    let ghost l = lowered@;

    let mut out: Vec<char> = Vec::new();
    let mut prev_hyphen: bool = false;
    let mut i: usize = 0;
    proof {
        assert(l.skip(0) =~= l);
        assert(out@ + norm_rec(l, false) =~= norm_rec(l, false));
    }
    while i < cs.len()
        invariant
            i <= cs.len(),
            cs@ == l,
            norm_rec(l, false) == out@ + norm_rec(l.skip(i as int), prev_hyphen),
            i == 0 ==> !prev_hyphen,
        decreases cs.len() - i,
    {
        let c = cs[i];
        proof {
            assert(l.skip(i as int)[0] == l[i as int]);
            assert(l.skip(i as int).drop_first() =~= l.skip(i as int + 1));
        }
        let u = c as u32;
        if (97 <= u && u <= 122) || (48 <= u && u <= 57) {
            out.push(c);
            prev_hyphen = false;
            proof {
                assert(out@ =~= out@.drop_last() + seq![c]);
                assert(out@.drop_last() + (seq![c] + norm_rec(l.skip(i as int + 1), false)) =~= (
                out@.drop_last() + seq![c]) + norm_rec(l.skip(i as int + 1), false));
            }
        } else if c == ' ' || c == '_' || c == '-' {
            if !prev_hyphen {
                out.push('-');
                proof {
                    assert(out@ =~= out@.drop_last() + seq!['-']);
                    assert(out@.drop_last() + (seq!['-'] + norm_rec(l.skip(i as int + 1), true))
                        =~= (out@.drop_last() + seq!['-']) + norm_rec(l.skip(i as int + 1), true));
                }
            }
            prev_hyphen = true;
        }
        i = i + 1;
    }
    proof {
        assert(l.skip(l.len() as int) =~= Seq::<char>::empty());
        assert(out@ + Seq::<char>::empty() =~= out@);
        assert(out@ == norm_rec(l, false));
    }

    // Trim hyphens at both edges.
    let mut lo: usize = 0;
    while lo < out.len() && out[lo] == '-'
        invariant
            lo <= out.len(),
            forall|k: int| 0 <= k < lo ==> out@[k] == '-',
        decreases out.len() - lo,
    {
        lo = lo + 1;
    }
    proof {
        lemma_trim_leading_at(out@, lo as int);
    }
    if lo == out.len() {
        proof {
            assert(trim_leading_hyphens(out@).len() == 0);
            assert(trim_trailing_hyphens(Seq::<char>::empty()) =~= Seq::<char>::empty());
            reveal_strlit("unnamed");
            assert("unnamed"@ =~= unnamed_seq());
        }
        let r = String::from_str("unnamed");
        proof {
            lemma_unnamed_well_formed();
        }
        return r;
    }
    let mut hi: usize = out.len();
    while hi > lo && out[hi - 1] == '-'
        invariant
            lo <= hi <= out.len(),
            forall|k: int| hi <= k < out.len() ==> out@[k] == '-',
            forall|k: int| 0 <= k < lo ==> out@[k] == '-',
            lo < out.len() && out@[lo as int] != '-',
        decreases hi,
    {
        hi = hi - 1;
    }
    proof {
        assert(hi > lo);
        assert(trim_leading_hyphens(out@) =~= out@.skip(lo as int));
        lemma_trim_trailing_at(out@.skip(lo as int), hi - lo);
        assert(out@.skip(lo as int).take(hi - lo) =~= out@.subrange(lo as int, hi as int));
    }
    let mut trimmed: Vec<char> = Vec::new();
    let mut j: usize = lo;
    while j < hi
        invariant
            lo <= j <= hi <= out.len(),
            trimmed@ == out@.subrange(lo as int, j as int),
        decreases hi - j,
    {
        trimmed.push(out[j]);
        proof {
            assert(out@.subrange(lo as int, j as int + 1) =~= out@.subrange(lo as int, j as int)
                .push(out@[j as int]));
        }
        j = j + 1;
    }
    let r = chars_to_string(&trimmed);
    proof {
        assert(r@ == trim_hyphens(norm_rec(l, false)));
        assert(r@.len() > 0);
        assert(r@ == normalize_spec(l));
        lemma_norm_rec_shape(l, false);
        lemma_trim_shape(norm_rec(l, false));
        assert(r@[0] != '-');
        assert(r@.last() != '-');
    }
    r
}

/// If the first `lo` characters are hyphens and (when in range) the one at
/// `lo` is not, trimming drops exactly those `lo` characters.
proof fn lemma_trim_leading_at(s: Seq<char>, lo: int)
    requires
        0 <= lo <= s.len(),
        forall|k: int| 0 <= k < lo ==> s[k] == '-',
        lo < s.len() ==> s[lo] != '-',
    ensures
        trim_leading_hyphens(s) == s.skip(lo),
    decreases lo,
{
    if lo == 0 {
        assert(s.skip(0) =~= s);
    } else {
        assert(s[0] == '-');
        lemma_trim_leading_at(s.drop_first(), lo - 1);
        assert(s.drop_first().skip(lo - 1) =~= s.skip(lo));
    }
}

/// If everything from `hi` on is a hyphen and (when non-degenerate) the
/// character before `hi` is not, trailing trim keeps exactly `hi` characters.
proof fn lemma_trim_trailing_at(s: Seq<char>, hi: int)
    requires
        0 <= hi <= s.len(),
        forall|k: int| hi <= k < s.len() ==> s[k] == '-',
        hi > 0 ==> s[hi - 1] != '-',
    ensures
        trim_trailing_hyphens(s) == s.take(hi),
    decreases s.len(),
{
    if s.len() == 0 {
        assert(s.take(0) =~= s);
    } else if hi == s.len() {
        assert(s.last() != '-');
        assert(s.take(hi) =~= s);
    } else {
        assert(s.last() == '-');
        lemma_trim_trailing_at(s.drop_last(), hi);
        assert(s.drop_last().take(hi) =~= s.take(hi));
    }
}

/// The filter-and-collapse pass yields only `[a-z0-9-]`, no hyphen runs,
/// and never starts with a hyphen when the previous character was one.
proof fn lemma_norm_rec_shape(s: Seq<char>, prev_hyphen: bool)
    ensures
        id_chars(norm_rec(s, prev_hyphen)),
        no_adjacent_hyphens(norm_rec(s, prev_hyphen)),
        prev_hyphen ==> (norm_rec(s, prev_hyphen).len() == 0 || norm_rec(s, prev_hyphen)[0] != '-'),
    decreases s.len(),
{
    if s.len() > 0 {
        lemma_norm_rec_shape(s.drop_first(), false);
        lemma_norm_rec_shape(s.drop_first(), true);
        lemma_norm_rec_shape(s.drop_first(), prev_hyphen);
        let r = norm_rec(s, prev_hyphen);
        if is_lower_alnum(s[0]) {
            let rest = norm_rec(s.drop_first(), false);
            assert(r =~= seq![s[0]] + rest);
            assert forall|i: int| 0 <= i < r.len() - 1 implies !(#[trigger] r[i] == '-' && r[i + 1]
                == '-') by {
                if i > 0 {
                    assert(r[i] == rest[i - 1] && r[i + 1] == rest[i]);
                }
            }
        } else if is_separator(s[0]) && !prev_hyphen {
            let rest = norm_rec(s.drop_first(), true);
            assert(r =~= seq!['-'] + rest);
            assert forall|i: int| 0 <= i < r.len() - 1 implies !(#[trigger] r[i] == '-' && r[i + 1]
                == '-') by {
                if i == 0 {
                    assert(r[1] == rest[0]);
                } else {
                    assert(r[i] == rest[i - 1] && r[i + 1] == rest[i]);
                }
            }
        }
    }
}

/// Trimming hyphens keeps the character set and hyphen-run shape, and the
/// result has no hyphen at either edge.
proof fn lemma_trim_shape(s: Seq<char>)
    requires
        id_chars(s),
        no_adjacent_hyphens(s),
    ensures
        id_chars(trim_hyphens(s)),
        no_adjacent_hyphens(trim_hyphens(s)),
        trim_hyphens(s).len() > 0 ==> trim_hyphens(s)[0] != '-' && trim_hyphens(s).last() != '-',
{
    lemma_trim_leading_shape(s);
    lemma_trim_trailing_shape(trim_leading_hyphens(s));
}

proof fn lemma_trim_leading_shape(s: Seq<char>)
    requires
        id_chars(s),
        no_adjacent_hyphens(s),
    ensures
        id_chars(trim_leading_hyphens(s)),
        no_adjacent_hyphens(trim_leading_hyphens(s)),
        trim_leading_hyphens(s).len() > 0 ==> trim_leading_hyphens(s)[0] != '-',
    decreases s.len(),
{
    if s.len() > 0 && s[0] == '-' {
        assert(forall|i: int|
            0 <= i < s.drop_first().len() ==> #[trigger] s.drop_first()[i] == s[i + 1]);
        lemma_trim_leading_shape(s.drop_first());
    }
}

proof fn lemma_trim_trailing_shape(s: Seq<char>)
    requires
        id_chars(s),
        no_adjacent_hyphens(s),
        s.len() > 0 ==> s[0] != '-',
    ensures
        id_chars(trim_trailing_hyphens(s)),
        no_adjacent_hyphens(trim_trailing_hyphens(s)),
        trim_trailing_hyphens(s).len() > 0 ==> trim_trailing_hyphens(s)[0] != '-'
            && trim_trailing_hyphens(s).last() != '-',
    decreases s.len(),
{
    if s.len() > 0 && s.last() == '-' {
        assert(forall|i: int|
            0 <= i < s.drop_last().len() ==> #[trigger] s.drop_last()[i] == s[i]);
        lemma_trim_trailing_shape(s.drop_last());
    }
}

proof fn lemma_unnamed_well_formed()
    ensures
        well_formed_id(unnamed_seq()),
        ascii_lower(unnamed_seq()) == unnamed_seq(),
        normalize_spec(unnamed_seq()) == unnamed_seq(),
{
    assert(ascii_lower(unnamed_seq()) =~= unnamed_seq());
    lemma_normalize_fixed(unnamed_seq());
}

/// Normalization leaves a well-formed identifier unchanged.
proof fn lemma_normalize_fixed(s: Seq<char>)
    requires
        well_formed_id(s),
    ensures
        normalize_spec(s) == s,
{
    lemma_norm_rec_fixed(s, false);
    lemma_trim_fixed(s);
}

proof fn lemma_norm_rec_fixed(s: Seq<char>, prev_hyphen: bool)
    requires
        id_chars(s),
        no_adjacent_hyphens(s),
        prev_hyphen ==> (s.len() == 0 || s[0] != '-'),
    ensures
        norm_rec(s, prev_hyphen) == s,
    decreases s.len(),
{
    if s.len() > 0 {
        assert(forall|i: int|
            0 <= i < s.drop_first().len() ==> #[trigger] s.drop_first()[i] == s[i + 1]);
        if is_lower_alnum(s[0]) {
            lemma_norm_rec_fixed(s.drop_first(), false);
            assert(seq![s[0]] + s.drop_first() =~= s);
        } else {
            assert(s[0] == '-');
            assert(!prev_hyphen);
            assert(s.drop_first().len() > 0 ==> s.drop_first()[0] != '-');
            lemma_norm_rec_fixed(s.drop_first(), true);
            assert(seq!['-'] + s.drop_first() =~= s);
        }
    }
}

proof fn lemma_trim_fixed(s: Seq<char>)
    requires
        s.len() > 0,
        s[0] != '-',
        s.last() != '-',
    ensures
        trim_hyphens(s) == s,
{
    lemma_trim_leading_at(s, 0);
    assert(s.skip(0) =~= s);
    lemma_trim_trailing_at(s, s.len() as int);
    assert(s.take(s.len() as int) =~= s);
}

/// Identifier characters are untouched by ASCII lowercasing.
proof fn lemma_ascii_lower_fixed(s: Seq<char>)
    requires
        id_chars(s),
    ensures
        ascii_lower(s) == s,
{
    assert forall|i: int| 0 <= i < s.len() implies #[trigger] ascii_lower(s)[i] == s[i] by {
        assert(ascii_lower_char(s[i]) == s[i]);
    }
    assert(ascii_lower(s) =~= s);
}

/// Normalizing an already-normalized identifier returns it unchanged: with
/// the ASCII guarantee of the lowercase step, `normalize_id` is idempotent.
pub proof fn lemma_normalize_idempotent(s: Seq<char>)
    ensures
        normalize_spec(ascii_lower(normalize_spec(s))) == normalize_spec(s),
        well_formed_id(normalize_spec(s)),
        all_ascii(normalize_spec(s)),
{
    let t = trim_hyphens(norm_rec(s, false));
    lemma_norm_rec_shape(s, false);
    lemma_trim_shape(norm_rec(s, false));
    if t.len() == 0 {
        lemma_unnamed_well_formed();
        lemma_ascii_lower_fixed(unnamed_seq());
    } else {
        lemma_ascii_lower_fixed(t);
        lemma_normalize_fixed(t);
    }
    assert(all_ascii(normalize_spec(s))) by {
        assert(id_chars(normalize_spec(s)));
        assert forall|i: int| 0 <= i < normalize_spec(s).len() implies #[trigger] (normalize_spec(
            s,
        )[i] as u32) < 128 by {
            assert(is_lower_alnum(normalize_spec(s)[i]) || normalize_spec(s)[i] == '-');
        }
    };
}

} // verus!
