//! Rendering of custom-command templates: positional placeholders `$1..$9`
//! and `${N}`, aggregates `$*` and `$ARGUMENTS`, the `$$` escape, unknown
//! placeholders kept verbatim, and a hard cap on the rendered size.

use vstd::prelude::*;

verus! {

use crate::chars::join_spaces;
use crate::chars::join_with_spaces;
use crate::chars::str_to_chars;
use crate::chars::chars_to_string;
use crate::chars::utf8_len;

/// Hard cap on the rendered output, in bytes.
pub const TEMPLATE_MAX_BYTES: usize = 65536;

#[derive(Debug, Clone, Copy, PartialEq, Eq, Structural)]
pub enum TemplateError {
    InvalidPlaceholder(usize),
    OutputTooLarge(usize),
}

pub open spec fn is_digit_char(c: char) -> bool {
    48 <= c as u32 && c as u32 <= 57
}

pub open spec fn digit_val(c: char) -> int {
    c as u32 - 48
}

/// Numeric value of a run of decimal digits (most significant first).
pub open spec fn digits_val(ds: Seq<char>) -> int
    decreases ds.len(),
{
    if ds.len() == 0 {
        0
    } else {
        digits_val(ds.drop_last()) * 10 + digit_val(ds.last())
    }
}

/// Length of the run of digits in `cs` starting at `from`.
pub open spec fn digit_run_len(cs: Seq<char>, from: int) -> int
    decreases cs.len() - from,
{
    if 0 <= from < cs.len() && is_digit_char(cs[from]) {
        1 + digit_run_len(cs, from + 1)
    } else {
        0
    }
}

pub open spec fn arguments_seq() -> Seq<char> {
    seq!['A', 'R', 'G', 'U', 'M', 'E', 'N', 'T', 'S']
}

/// `key` occurs in `cs` starting at position `pos`.
pub open spec fn matches_at(cs: Seq<char>, pos: int, key: Seq<char>) -> bool {
    &&& 0 <= pos
    &&& pos + key.len() <= cs.len()
    &&& cs.subrange(pos, pos + key.len()) == key
}

/// The argument substituted for position `idx` (1-based); empty when absent.
pub open spec fn positional(args: Seq<Seq<char>>, idx: int) -> Seq<char> {
    if 1 <= idx <= args.len() {
        args[idx - 1]
    } else {
        Seq::empty()
    }
}

/// The rendered expansion of the template characters `cs` under `args`.
pub open spec fn rend(cs: Seq<char>, args: Seq<Seq<char>>) -> Seq<char>
    decreases cs.len(),
{
    if cs.len() == 0 {
        Seq::empty()
    } else if cs[0] != '$' {
        seq![cs[0]] + rend(cs.drop_first(), args)
    } else if cs.len() == 1 {
        seq!['$']
    } else if cs[1] == '$' {
        seq!['$'] + rend(cs.skip(2), args)
    } else if cs[1] == '*' {
        join_spaces(args) + rend(cs.skip(2), args)
    } else if matches_at(cs, 1, arguments_seq()) {
        join_spaces(args) + rend(cs.skip(10), args)
    } else if cs[1] == '{' {
        let n0 = digit_run_len(cs, 2);
        let n = if n0 < 0 {
            0
        } else if 2 + n0 <= cs.len() {
            n0
        } else {
            cs.len() - 2
        };
        let ds = cs.subrange(2, 2 + n);
        let j = 2 + n;
        if j < cs.len() && cs[j] == '}' {
            if n > 0 && 1 <= digits_val(ds) <= usize::MAX {
                positional(args, digits_val(ds)) + rend(cs.skip(j + 1), args)
            } else if j + 1 < cs.len() && cs[j + 1] == '}' {
                seq!['$', '{'] + ds + seq!['}'] + rend(cs.skip(j + 2), args)
            } else {
                seq!['$', '{'] + ds + rend(cs.skip(j + 1), args)
            }
        } else {
            seq!['$', '{'] + ds + rend(cs.skip(j), args)
        }
    } else if is_digit_char(cs[1]) && cs[1] != '0' {
        positional(args, digit_val(cs[1])) + rend(cs.skip(2), args)
    } else {
        seq!['$', cs[1]] + rend(cs.skip(2), args)
    }
}

pub open spec fn contains_dollar(cs: Seq<char>) -> bool {
    exists|i: int| 0 <= i < cs.len() && cs[i] == '$'
}

/// The contract of `render_template` as a single predicate: the rendered
/// output (the template itself when it holds no placeholder) is subject to a
/// hard byte cap.
pub open spec fn render_result(
    template: Seq<char>,
    args: Seq<Seq<char>>,
    r: Result<String, TemplateError>,
) -> bool {
    let rendered = if contains_dollar(template) {
        rend(template, args)
    } else {
        template
    };
    if utf8_len(rendered) > TEMPLATE_MAX_BYTES {
        r matches Err(e) && e == TemplateError::OutputTooLarge(TEMPLATE_MAX_BYTES as usize)
    } else {
        r matches Ok(s) && s@ == rendered
    }
}

/// If `key` occurs in `chars` at `pos`, return the position just past it.
pub fn str_peek_consume(chars: &Vec<char>, pos: usize, key: &str) -> (r: Option<usize>)
    requires
        pos <= chars@.len(),
    ensures
        match r {
            Some(p) => p == pos + key@.len() && matches_at(chars@, pos as int, key@),
            None => !matches_at(chars@, pos as int, key@),
        },
{
    let kv = str_to_chars(key);
    let clen = chars.len();
    if clen - pos < kv.len() {
        return None;
    }
    let mut k: usize = 0;
    while k < kv.len()
        invariant
            k <= kv.len(),
            kv@ == key@,
            clen == chars@.len(),
            pos + kv@.len() <= clen,
            forall|t: int| 0 <= t < k ==> chars@[pos + t] == kv@[t],
        decreases kv.len() - k,
    {
        if chars[pos + k] != kv[k] {
            proof {
                if matches_at(chars@, pos as int, key@) {
                    assert(chars@.subrange(pos as int, pos + key@.len())[k as int] == key@[
                    k as int]);
                }
            }
            return None;
        }
        k = k + 1;
    }
    proof {
        assert(chars@.subrange(pos as int, pos + key@.len()) =~= key@);
    }
    Some(pos + kv.len())
}

/// Append all characters of `piece` to `out`.
pub fn push_all(out: &mut Vec<char>, piece: &Vec<char>)
    ensures
        final(out)@ == old(out)@ + piece@,
{
    let mut t: usize = 0;
    proof {
        assert(out@ =~= old(out)@ + piece@.subrange(0, 0));
    }
    while t < piece.len()
        invariant
            t <= piece.len(),
            out@ == old(out)@ + piece@.subrange(0, t as int),
        decreases piece.len() - t,
    {
        out.push(piece[t]);
        proof {
            assert(old(out)@ + piece@.subrange(0, t + 1) =~= (old(out)@ + piece@.subrange(
                0,
                t as int,
            )).push(piece@[t as int]));
        }
        t = t + 1;
    }
    proof {
        assert(piece@.subrange(0, piece@.len() as int) =~= piece@);
    }
}

/// `digit_run_len` is determined by a digit run and its non-digit end.
pub proof fn lemma_digit_run_len_at(cs: Seq<char>, from: int, n: int)
    requires
        0 <= from,
        from + n <= cs.len(),
        n >= 0,
        forall|k: int| from <= k < from + n ==> is_digit_char(#[trigger] cs[k]),
        from + n < cs.len() ==> !is_digit_char(cs[from + n]),
    ensures
        digit_run_len(cs, from) == n,
    decreases n,
{
    if n > 0 {
        lemma_digit_run_len_at(cs, from + 1, n - 1);
    }
}

/// Digit values of digit runs are non-negative.
proof fn lemma_digits_val_nonneg(ds: Seq<char>)
    requires
        forall|k: int| 0 <= k < ds.len() ==> is_digit_char(#[trigger] ds[k]),
    ensures
        digits_val(ds) >= 0,
    decreases ds.len(),
{
    if ds.len() > 0 {
        assert(forall|k: int|
            0 <= k < ds.drop_last().len() ==> is_digit_char(#[trigger] ds.drop_last()[k]));
        lemma_digits_val_nonneg(ds.drop_last());
        assert(digit_val(ds.last()) >= 0);
    }
}

/// Associativity step used to restore the rendering loop invariant.
proof fn lemma_out_extend(
    full_r: Seq<char>,
    out_old: Seq<char>,
    piece: Seq<char>,
    rend_next: Seq<char>,
)
    requires
        full_r == out_old + (piece + rend_next),
    ensures
        full_r == (out_old + piece) + rend_next,
{
    assert(out_old + (piece + rend_next) =~= (out_old + piece) + rend_next);
}

/// Render a template: `$1..$9` and `${N}` substitute arguments (empty when
/// absent), `$*` and `$ARGUMENTS` substitute all arguments joined by single
/// spaces, `$$` renders a literal `$`, and unknown placeholders stay
/// verbatim. Fails when the rendered output exceeds the byte cap, provided
/// the template mentions `$` at all.
#[verifier::rlimit(100)]
pub fn render_template(template: &str, args: &Vec<String>) -> (r: Result<String, TemplateError>)
    ensures
        render_result(template@, args.deep_view(), r),
{
    let tv = str_to_chars(template);
    let ghost full = template@;
    let ghost argsd = args.deep_view();

    let mut has_dollar: bool = false;
    let mut d: usize = 0;
    while d < tv.len()
        invariant
            d <= tv.len(),
            tv@ == full,
            has_dollar <==> exists|k: int| 0 <= k < d && full[k] == '$',
        decreases tv.len() - d,
    {
        if tv[d] == '$' {
            has_dollar = true;
        }
        d = d + 1;
    }
    if !has_dollar {
        if crate::chars::str_byte_len(template) > TEMPLATE_MAX_BYTES {
            return Err(TemplateError::OutputTooLarge(TEMPLATE_MAX_BYTES));
        }
        let s = template.to_owned();
        return Ok(s);
    }

    let all = join_with_spaces(args);
    let mut out: Vec<char> = Vec::new();
    let mut i: usize = 0;
    proof {
        assert(full.skip(0) =~= full);
        assert(out@ + rend(full, argsd) =~= rend(full, argsd));
    }
    while i < tv.len()
        invariant
            i <= tv.len(),
            tv@ == full,
            all@ == join_spaces(argsd),
            argsd == args.deep_view(),
            rend(full, argsd) == out@ + rend(full.skip(i as int), argsd),
        decreases tv.len() - i,
    {
        let ghost s = full.skip(i as int);
        let ghost out0 = out@;
        proof {
            assert(s[0] == full[i as int]);
            assert(s.drop_first() =~= full.skip(i as int + 1));
        }
        let c = tv[i];
        if c != '$' {
            out.push(c);
            proof {
                assert(rend(s, argsd) == seq![c] + rend(s.drop_first(), argsd));
                lemma_out_extend(rend(full, argsd), out0, seq![c], rend(s.drop_first(), argsd));
                assert(out@ =~= out0 + seq![c]);
            }
            i = i + 1;
            continue;
        }
        // c == '$'
        if i + 1 >= tv.len() {
            // Lone '$' at the end of the template.
            out.push('$');
            proof {
                assert(s.len() == 1);
                assert(rend(s, argsd) =~= seq!['$'] + rend(full.skip(i as int + 1), argsd));
                lemma_out_extend(
                    rend(full, argsd),
                    out0,
                    seq!['$'],
                    rend(full.skip(i as int + 1), argsd),
                );
                assert(out@ =~= out0 + seq!['$']);
            }
            i = i + 1;
            continue;
        }
        let nc = tv[i + 1];
        proof {
            assert(s.len() >= 2);
            assert(s[1] == full[i + 1]);
            assert(s.skip(2) =~= full.skip(i as int + 2));
        }
        if nc == '$' {
            out.push('$');
            proof {
                lemma_out_extend(rend(full, argsd), out0, seq!['$'], rend(s.skip(2), argsd));
                assert(out@ =~= out0 + seq!['$']);
            }
            i = i + 2;
        } else if nc == '*' {
            push_all(&mut out, &all);
            proof {
                lemma_out_extend(rend(full, argsd), out0, all@, rend(s.skip(2), argsd));
            }
            i = i + 2;
        } else if let Some(p) = str_peek_consume(&tv, i + 1, "ARGUMENTS") {
            proof {
                reveal_strlit("ARGUMENTS");
                assert("ARGUMENTS"@ =~= arguments_seq());
                assert(s.subrange(1, 10) =~= full.subrange(i + 1, i + 10));
                assert(full.subrange(i + 1, i + 1 + "ARGUMENTS"@.len() as int) =~= full.subrange(
                    i + 1,
                    i + 10,
                ));
                assert(matches_at(s, 1, arguments_seq()));
                assert(s.skip(10) =~= full.skip(i as int + 10));
            }
            push_all(&mut out, &all);
            proof {
                lemma_out_extend(rend(full, argsd), out0, all@, rend(s.skip(10), argsd));
            }
            i = i + 10;
        } else if nc == '{' {
            proof {
                assert(!matches_at(s, 1, arguments_seq())) by {
                    if matches_at(s, 1, arguments_seq()) {
                        assert(s.subrange(1, 10)[0] == arguments_seq()[0]);
                    }
                }
            }
            // Collect the digit run after "${".
            let mut j2: usize = i + 2;
            let mut acc: usize = 0;
            let mut overflow: bool = false;
            while j2 < tv.len() && (tv[j2] as u32) >= 48 && (tv[j2] as u32) <= 57
                invariant
                    i + 2 <= j2 <= tv.len(),
                    tv@ == full,
                    forall|k: int| i + 2 <= k < j2 ==> is_digit_char(#[trigger] full[k]),
                    !overflow ==> acc == digits_val(full.subrange(i + 2, j2 as int)) && acc
                        <= usize::MAX,
                    overflow ==> digits_val(full.subrange(i + 2, j2 as int)) > usize::MAX,
                decreases tv.len() - j2,
            {
                let dc = tv[j2];
                let dv = (dc as u32 - 48) as usize;
                let ghost pref = full.subrange(i + 2, j2 as int);
                let ghost prefx = full.subrange(i + 2, j2 + 1);
                proof {
                    assert(prefx.drop_last() =~= pref);
                    assert(prefx.last() == full[j2 as int]);
                    lemma_digits_val_nonneg(pref);
                }
                if overflow {
                    proof {
                        assert(digits_val(prefx) == digits_val(pref) * 10 + digit_val(
                            prefx.last(),
                        ));
                        assert(digits_val(pref) * 10 >= digits_val(pref));
                        assert(digits_val(prefx) > usize::MAX);
                    }
                } else if acc > usize::MAX / 10 || (acc == usize::MAX / 10 && dv > usize::MAX
                    % 10) {
                    overflow = true;
                    proof {
                        assert(digits_val(prefx) > usize::MAX) by (nonlinear_arith)
                            requires
                                digits_val(prefx) == digits_val(pref) * 10 + digit_val(
                                    prefx.last(),
                                ),
                                digits_val(pref) == acc,
                                digit_val(prefx.last()) == dv,
                                acc > usize::MAX / 10 || (acc == usize::MAX / 10 && dv
                                    > usize::MAX % 10),
                                usize::MAX == (usize::MAX / 10) * 10 + (usize::MAX % 10),
                                acc >= 0,
                                dv >= 0,
                        ;
                    }
                } else {
                    proof {
                        assert(acc * 10 + dv <= usize::MAX) by (nonlinear_arith)
                            requires
                                acc <= usize::MAX / 10,
                                acc == usize::MAX / 10 ==> dv <= usize::MAX % 10,
                                usize::MAX == (usize::MAX / 10) * 10 + (usize::MAX % 10),
                                0 <= dv <= 9,
                                acc >= 0,
                        ;
                    }
                    acc = acc * 10 + dv;
                    proof {
                        assert(digits_val(prefx) == digits_val(pref) * 10 + digit_val(
                            prefx.last(),
                        ));
                    }
                }
                j2 = j2 + 1;
            }
            let n = j2 - (i + 2);
            let ghost ds = full.subrange(i + 2, i + 2 + n);
            proof {
                lemma_digit_run_len_at(full, i + 2, n as int);
                lemma_digit_run_len_shift(full, i as int, n as int);
                assert(s.subrange(2, 2 + n) =~= ds);
                lemma_digits_val_nonneg(ds);
            }
            // "${" + digits scanned; decide on the closing brace.
            let j = i + 2 + n;
            if j < tv.len() && tv[j] == '}' {
                proof {
                    assert(s[j - i] == full[j as int]);
                }
                if n > 0 && !overflow && acc >= 1 {
                    let ghost piece = positional(argsd, acc as int);
                    if acc <= args.len() {
                        let av = str_to_chars(args[acc - 1].as_str());
                        proof {
                            assert(args.deep_view()[acc - 1] == args@[acc - 1]@);
                            assert(av@ == piece);
                        }
                        push_all(&mut out, &av);
                    }
                    proof {
                        assert(s.skip(j - i + 1) =~= full.skip(j + 1));
                        assert(rend(s, argsd) == piece + rend(s.skip(j - i + 1), argsd));
                        lemma_out_extend(
                            rend(full, argsd),
                            out0,
                            piece,
                            rend(s.skip(j - i + 1), argsd),
                        );
                        assert(out@ =~= out0 + piece);
                    }
                    i = j + 1;
                } else {
                    // Invalid index: emit "${" + digits; the brace was
                    // consumed, so a directly following second brace is
                    // emitted and consumed too.
                    proof {
                        if !(n > 0) || overflow || !(acc >= 1) {
                            assert(!(n > 0 && 1 <= digits_val(ds) <= usize::MAX));
                        }
                    }
                    out.push('$');
                    out.push('{');
                    let mut dvec: Vec<char> = Vec::new();
                    let mut t: usize = 0;
                    while t < n
                        invariant
                            t <= n,
                            i + 2 + n <= tv.len(),
                            tv@ == full,
                            ds == full.subrange(i + 2, i + 2 + n),
                            dvec@ == ds.subrange(0, t as int),
                        decreases n - t,
                    {
                        dvec.push(tv[i + 2 + t]);
                        proof {
                            assert(ds.subrange(0, t + 1) =~= ds.subrange(0, t as int).push(
                                ds[t as int],
                            ));
                        }
                        t = t + 1;
                    }
                    proof {
                        assert(ds.subrange(0, n as int) =~= ds);
                    }
                    push_all(&mut out, &dvec);
                    if j + 1 < tv.len() && tv[j + 1] == '}' {
                        out.push('}');
                        proof {
                            assert(s[j - i + 1] == full[j + 1]);
                            assert(s.skip(j - i + 2) =~= full.skip(j + 2));
                            assert(rend(s, argsd) == (seq!['$', '{'] + ds + seq!['}']) + rend(
                                s.skip(j - i + 2),
                                argsd,
                            ));
                            lemma_out_extend(
                                rend(full, argsd),
                                out0,
                                seq!['$', '{'] + ds + seq!['}'],
                                rend(s.skip(j - i + 2), argsd),
                            );
                            assert(out@ =~= out0 + (seq!['$', '{'] + ds + seq!['}']));
                        }
                        i = j + 2;
                    } else {
                        proof {
                            assert(s.skip(j - i + 1) =~= full.skip(j + 1));
                            assert(rend(s, argsd) == (seq!['$', '{'] + ds) + rend(
                                s.skip(j - i + 1),
                                argsd,
                            ));
                            lemma_out_extend(
                                rend(full, argsd),
                                out0,
                                seq!['$', '{'] + ds,
                                rend(s.skip(j - i + 1), argsd),
                            );
                            assert(out@ =~= out0 + (seq!['$', '{'] + ds));
                        }
                        i = j + 1;
                    }
                }
            } else {
                // No closing brace: emit "${" + digits verbatim.
                proof {
                    if j < tv@.len() {
                        assert(s[j - i] == full[j as int]);
                    }
                }
                out.push('$');
                out.push('{');
                let mut dvec: Vec<char> = Vec::new();
                let mut t: usize = 0;
                while t < n
                    invariant
                        t <= n,
                        i + 2 + n <= tv.len(),
                        tv@ == full,
                        ds == full.subrange(i + 2, i + 2 + n),
                        dvec@ == ds.subrange(0, t as int),
                    decreases n - t,
                {
                    dvec.push(tv[i + 2 + t]);
                    proof {
                        assert(ds.subrange(0, t + 1) =~= ds.subrange(0, t as int).push(
                            ds[t as int],
                        ));
                    }
                    t = t + 1;
                }
                proof {
                    assert(ds.subrange(0, n as int) =~= ds);
                }
                push_all(&mut out, &dvec);
                proof {
                    assert(s.skip(j - i) =~= full.skip(j as int));
                    assert(rend(s, argsd) == (seq!['$', '{'] + ds) + rend(s.skip(j - i), argsd));
                    lemma_out_extend(
                        rend(full, argsd),
                        out0,
                        seq!['$', '{'] + ds,
                        rend(s.skip(j - i), argsd),
                    );
                    assert(out@ =~= out0 + (seq!['$', '{'] + ds));
                }
                i = j;
            }
        } else if (nc as u32) >= 49 && (nc as u32) <= 57 {
            proof {
                assert(!matches_at(s, 1, arguments_seq())) by {
                    if matches_at(s, 1, arguments_seq()) {
                        assert(s.subrange(1, 10)[0] == arguments_seq()[0]);
                    }
                }
            }
            let idx = (nc as u32 - 48) as usize;
            let ghost piece = positional(argsd, digit_val(nc));
            if idx <= args.len() {
                let av = str_to_chars(args[idx - 1].as_str());
                proof {
                    assert(args.deep_view()[idx - 1] == args@[idx - 1]@);
                    assert(av@ == piece);
                }
                push_all(&mut out, &av);
            }
            proof {
                assert(rend(s, argsd) == piece + rend(s.skip(2), argsd));
                lemma_out_extend(rend(full, argsd), out0, piece, rend(s.skip(2), argsd));
                assert(out@ =~= out0 + piece);
            }
            i = i + 2;
        } else {
            // Unknown placeholder: keep "$" and the following character.
            proof {
                if is_digit_char(nc) {
                    assert(nc as u32 == 48);
                    vstd::utf8::char_u32_cast(nc, 48u32);
                    assert(('0' as u32) == 48);
                    vstd::utf8::char_u32_cast('0', 48u32);
                    assert(nc == '0');
                }
                reveal_strlit("ARGUMENTS");
                assert("ARGUMENTS"@ =~= arguments_seq());
                assert(!matches_at(s, 1, arguments_seq())) by {
                    if matches_at(s, 1, arguments_seq()) {
                        assert(s.subrange(1, 10) =~= full.subrange(i + 1, i + 10));
                        assert(full.subrange(i + 1, i + 1 + "ARGUMENTS"@.len() as int)
                            =~= full.subrange(i + 1, i + 10));
                        assert(matches_at(full, i + 1, "ARGUMENTS"@));
                    }
                }
            }
            out.push('$');
            out.push(nc);
            proof {
                assert(rend(s, argsd) == seq!['$', nc] + rend(s.skip(2), argsd));
                lemma_out_extend(rend(full, argsd), out0, seq!['$', nc], rend(s.skip(2), argsd));
                assert(out@ =~= (out0 + seq!['$', nc]));
            }
            i = i + 2;
        }
    }
    proof {
        assert(full.skip(tv@.len() as int) =~= Seq::<char>::empty());
        assert(out@ + Seq::<char>::empty() =~= out@);
        assert(out@ == rend(full, argsd));
    }
    let rendered = chars_to_string(&out);
    if crate::chars::str_byte_len(rendered.as_str()) > TEMPLATE_MAX_BYTES {
        Err(TemplateError::OutputTooLarge(TEMPLATE_MAX_BYTES))
    } else {
        Ok(rendered)
    }
}

/// The digit run of a suffix matches the digit run of the whole.
proof fn lemma_digit_run_len_shift(cs: Seq<char>, i: int, n: int)
    requires
        0 <= i,
        i + 2 <= cs.len(),
        digit_run_len(cs, i + 2) == n,
    ensures
        digit_run_len(cs.skip(i), 2) == n,
{
    lemma_digit_run_len_shift_gen(cs, i, 2);
}

proof fn lemma_digit_run_len_shift_gen(cs: Seq<char>, i: int, k: int)
    requires
        0 <= i,
        k >= 0,
        i + k <= cs.len(),
    ensures
        digit_run_len(cs.skip(i), k) == digit_run_len(cs, i + k),
    decreases cs.len() - (i + k),
{
    if i + k < cs.len() {
        assert(cs.skip(i)[k] == cs[i + k]);
        if is_digit_char(cs[i + k]) {
            lemma_digit_run_len_shift_gen(cs, i, k + 1);
        }
    }
}

/// Rendering `"$*"` yields all arguments joined by single spaces.
pub proof fn lemma_render_all_args(args: Seq<Seq<char>>)
    ensures
        rend("$*"@, args) == join_spaces(args),
{
    reveal_strlit("$*");
    let cs = "$*"@;
    assert(cs.len() == 2 && cs[0] == '$' && cs[1] == '*');
    assert(cs.skip(2) =~= Seq::<char>::empty());
    assert(rend(cs.skip(2), args) =~= Seq::<char>::empty());
    assert(join_spaces(args) + Seq::<char>::empty() =~= join_spaces(args));
}

/// Rendering `"$$"` yields a single literal dollar sign.
pub proof fn lemma_render_dollar_escape(args: Seq<Seq<char>>)
    ensures
        rend("$$"@, args) == "$"@,
{
    reveal_strlit("$$");
    reveal_strlit("$");
    let cs = "$$"@;
    assert(cs.len() == 2 && cs[0] == '$' && cs[1] == '$');
    assert(cs.skip(2) =~= Seq::<char>::empty());
    assert(rend(cs.skip(2), args) =~= Seq::<char>::empty());
    assert(seq!['$'] + Seq::<char>::empty() =~= seq!['$']);
    assert("$"@ =~= seq!['$']);
}

/// Rendering a lone `"${N}"` placeholder with a valid index yields the
/// argument at position `N` (1-based), or nothing when it is absent.
pub proof fn lemma_render_braced_positional(ds: Seq<char>, args: Seq<Seq<char>>)
    requires
        ds.len() > 0,
        forall|k: int| 0 <= k < ds.len() ==> is_digit_char(#[trigger] ds[k]),
        1 <= digits_val(ds) <= usize::MAX,
    ensures
        rend(seq!['$', '{'] + ds + seq!['}'], args) == positional(args, digits_val(ds)),
{
    let cs = seq!['$', '{'] + ds + seq!['}'];
    assert(cs[0] == '$');
    assert(cs[1] == '{');
    assert(cs.len() == ds.len() + 3);
    assert(!matches_at(cs, 1, arguments_seq())) by {
        if matches_at(cs, 1, arguments_seq()) {
            assert(cs.subrange(1, 10)[0] == arguments_seq()[0]);
        }
    }
    assert(forall|k: int| 2 <= k < 2 + ds.len() ==> is_digit_char(#[trigger] cs[k]));
    assert(cs[ds.len() as int + 2] == '}');
    assert(!is_digit_char(cs[2 + ds.len() as int]));
    lemma_digit_run_len_at(cs, 2, ds.len() as int);
    let n = digit_run_len(cs, 2);
    assert(n == ds.len());
    assert(cs.subrange(2, 2 + n) =~= ds);
    assert(cs.skip(2 + n + 1) =~= Seq::<char>::empty());
    assert(rend(cs.skip(2 + n + 1), args) =~= Seq::<char>::empty());
    assert(positional(args, digits_val(ds)) + Seq::<char>::empty() =~= positional(
        args,
        digits_val(ds),
    ));
}

} // verus!
